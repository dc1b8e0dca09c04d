//! The Ackermann function, and the transcript of its step-by-step evaluation
//! that is streamed to a client: each call announces itself, waits, and
//! reports its value.

use vstd::prelude::*;
use crate::text::{decimal, push_char, push_decimal, push_str};
use vstd::arithmetic::power2::{lemma2_to64, lemma_pow2_pos, lemma_pow2_unfold, pow2};

verus! {

pub open spec fn ack(m: nat, n: nat) -> nat
    decreases m, n,
{
    if m == 0 {
        n + 1
    } else if n == 0 {
        ack((m - 1) as nat, 1)
    } else {
        ack((m - 1) as nat, ack(m, (n - 1) as nat))
    }
}

/// The Ackermann function exceeds its second argument.
pub proof fn lemma_ack_exceeds_second(m: nat, n: nat)
    ensures
        ack(m, n) > n,
    decreases m, n,
{
    if m == 0 {
    } else if n == 0 {
        lemma_ack_exceeds_second((m - 1) as nat, 1);
    } else {
        lemma_ack_exceeds_second(m, (n - 1) as nat);
        lemma_ack_exceeds_second((m - 1) as nat, ack(m, (n - 1) as nat));
    }
}

/// The three defining equations: `A(0, n) = n + 1`, `A(m + 1, 0) = A(m, 1)`
/// and `A(m + 1, n + 1) = A(m, A(m + 1, n))`.
pub proof fn lemma_ack_recurrences(m: nat, n: nat)
    ensures
        ack(0, n) == n + 1,
        ack(m + 1, 0) == ack(m, 1),
        ack(m + 1, n + 1) == ack(m, ack(m + 1, n)),
{
}

/// `A(1, n) = n + 2`.
pub proof fn lemma_ack_first_row(n: nat)
    ensures
        ack(1, n) == n + 2,
    decreases n,
{
    if n == 0 {
        assert(ack(0, 1) == 2);
    } else {
        lemma_ack_first_row((n - 1) as nat);
        assert(ack(0, ack(1, (n - 1) as nat)) == n + 2);
    }
}

/// `A(2, n) = 2n + 3`.
pub proof fn lemma_ack_second_row(n: nat)
    ensures
        ack(2, n) == 2 * n + 3,
    decreases n,
{
    if n == 0 {
        lemma_ack_first_row(1);
    } else {
        lemma_ack_second_row((n - 1) as nat);
        lemma_ack_first_row(ack(2, (n - 1) as nat));
    }
}

/// `A(3, n) = 2^(n + 3) - 3`.
pub proof fn lemma_ack_third_row(n: nat)
    ensures
        ack(3, n) == pow2(n + 3) - 3,
    decreases n,
{
    if n == 0 {
        lemma_ack_second_row(1);
        lemma2_to64();
    } else {
        lemma_ack_third_row((n - 1) as nat);
        lemma_ack_second_row(ack(3, (n - 1) as nat));
        lemma_pow2_unfold(n + 3);
        lemma_pow2_pos(n + 2);
    }
}

/// The Ackermann function of `m` and `n`; the value must fit in 64 bits.
pub fn ackermann(m: u64, n: u64) -> (r: u64)
    requires
        ack(m as nat, n as nat) <= u64::MAX,
    ensures
        r == ack(m as nat, n as nat),
    decreases m, n,
{
    if m == 0 {
        n + 1
    } else if n == 0 {
        ackermann(m - 1, 1)
    } else {
        proof {
            lemma_ack_exceeds_second((m - 1) as nat, ack(m as nat, (n - 1) as nat));
        }
        let inner = ackermann(m, n - 1);
        ackermann(m - 1, inner)
    }
}

/// One thing the transcript asks its runner to do.
#[derive(Debug)]
pub enum AckAction {
    /// Wait this many milliseconds.
    Sleep(u64),
    /// Send this line.
    Write(String),
}

pub enum AckActionModel {
    Sleep(u64),
    Write(Seq<char>),
}

impl View for AckAction {
    type V = AckActionModel;

    open spec fn view(&self) -> AckActionModel {
        match self {
            AckAction::Sleep(ms) => AckActionModel::Sleep(*ms),
            AckAction::Write(s) => AckActionModel::Write(s@),
        }
    }
}

pub open spec fn spaces(k: nat) -> Seq<char> {
    Seq::new(k, |i: int| ' ')
}

/// `ack(m,n)` preceded by the indentation.
pub open spec fn call_text(m: nat, n: nat, indent: nat) -> Seq<char> {
    spaces(indent) + "ack("@ + decimal(m) + ","@ + decimal(n) + ")"@
}

/// The depth of nested calls the evaluation of `ack(m, n)` reaches.
pub open spec fn ack_depth(m: nat, n: nat) -> nat
    decreases m, n,
{
    if m == 0 {
        0
    } else if n == 0 {
        1 + ack_depth((m - 1) as nat, 1)
    } else {
        let a = ack_depth(m, (n - 1) as nat);
        let b = ack_depth((m - 1) as nat, ack(m, (n - 1) as nat));
        1 + if a >= b { a } else { b }
    }
}

/// The transcript of evaluating `ack(m, n)` at the given indentation: a call
/// with `m == 0` waits ten milliseconds and reports its value; any other
/// call announces itself, evaluates its sub-calls two columns further in,
/// waits ten milliseconds and reports its value.
pub open spec fn ack_transcript(m: nat, n: nat, indent: nat) -> Seq<AckActionModel>
    decreases m, n,
{
    if m == 0 {
        seq![
            AckActionModel::Sleep(10),
            AckActionModel::Write(call_text(m, n, indent) + " = "@ + decimal(n + 1)),
        ]
    } else {
        let inner = if n == 0 {
            ack_transcript((m - 1) as nat, 1, indent + 2)
        } else {
            ack_transcript(m, (n - 1) as nat, indent + 2)
                + ack_transcript((m - 1) as nat, ack(m, (n - 1) as nat), indent + 2)
        };
        seq![AckActionModel::Write(call_text(m, n, indent) + " ..."@)] + inner + seq![
            AckActionModel::Sleep(10),
            AckActionModel::Write(call_text(m, n, indent) + " = "@ + decimal(ack(m, n))),
        ]
    }
}

/// Every call reports its value last: whatever the arguments and the
/// indentation, the transcript of `ack(m, n)` ends with a wait of ten
/// milliseconds and then the line `ack(m,n) = A(m, n)` at that indentation;
/// a call with `m > 0` first announces itself with `ack(m,n) ...`.
pub proof fn lemma_transcript_reports_value(m: nat, n: nat, indent: nat)
    ensures
        ack_transcript(m, n, indent).len() >= 2,
        ack_transcript(m, n, indent)[ack_transcript(m, n, indent).len() - 2] == AckActionModel::Sleep(10),
        ack_transcript(m, n, indent)[ack_transcript(m, n, indent).len() - 1]
            == AckActionModel::Write(call_text(m, n, indent) + " = "@ + decimal(ack(m, n))),
        m > 0 ==> ack_transcript(m, n, indent)[0] == AckActionModel::Write(call_text(m, n, indent) + " ..."@),
{
    if m > 0 {
        let inner = if n == 0 {
            ack_transcript((m - 1) as nat, 1, indent + 2)
        } else {
            ack_transcript(m, (n - 1) as nat, indent + 2)
                + ack_transcript((m - 1) as nat, ack(m, (n - 1) as nat), indent + 2)
        };
        let t = ack_transcript(m, n, indent);
        let tail = seq![
            AckActionModel::Sleep(10),
            AckActionModel::Write(call_text(m, n, indent) + " = "@ + decimal(ack(m, n))),
        ];
        assert(t == seq![AckActionModel::Write(call_text(m, n, indent) + " ..."@)] + inner + tail);
        assert(t[t.len() - 2] == tail[0]);
        assert(t[t.len() - 1] == tail[1]);
    }
}

fn call_line(m: i64, n: i64, indent: usize) -> (s: String)
    requires
        m >= 0,
        n >= 0,
    ensures
        s@ == call_text(m as nat, n as nat, indent as nat),
{
    let mut s = String::new();
    let mut k: usize = 0;
    while k < indent
        invariant
            k <= indent,
            s@ == spaces(k as nat),
        decreases indent - k,
    {
        push_char(&mut s, ' ');
        k = k + 1;
        assert(s@ =~= spaces(k as nat));
    }
    push_str(&mut s, "ack(");
    push_decimal(&mut s, m as u64);
    push_str(&mut s, ",");
    push_decimal(&mut s, n as u64);
    push_str(&mut s, ")");
    assert(s@ =~= call_text(m as nat, n as nat, indent as nat));
    s
}

/// Evaluates `ack(m, n)` and appends the transcript of the evaluation to
/// `actions`. Both arguments must be non-negative (with a negative argument
/// the evaluation never ends), the value must fit in `i64`, and the
/// indentation must stay within `usize`.
pub fn ackermann_transcript(m: i64, n: i64, indent: usize, actions: &mut Vec<AckAction>) -> (r: i64)
    requires
        m >= 0,
        n >= 0,
        ack(m as nat, n as nat) <= i64::MAX,
        indent + 2 * ack_depth(m as nat, n as nat) <= usize::MAX,
    ensures
        r == ack(m as nat, n as nat),
        final(actions)@.map_values(|a: AckAction| a@)
            == old(actions)@.map_values(|a: AckAction| a@) + ack_transcript(m as nat, n as nat, indent as nat),
    decreases m, n,
{
    let ghost start = old(actions)@.map_values(|a: AckAction| a@);
    if m == 0 {
        actions.push(AckAction::Sleep(10));
        let mut line = call_line(m, n, indent);
        push_str(&mut line, " = ");
        push_decimal(&mut line, (n + 1) as u64);
        actions.push(AckAction::Write(line));
        assert(actions@.map_values(|a: AckAction| a@) =~= start + ack_transcript(m as nat, n as nat, indent as nat));
        n + 1
    } else {
        actions.push(AckAction::Write({
            let mut line = call_line(m, n, indent);
            push_str(&mut line, " ...");
            line
        }));
        let ghost after_head = actions@.map_values(|a: AckAction| a@);
        assert(after_head =~= start + seq![AckActionModel::Write(call_text(m as nat, n as nat, indent as nat) + " ..."@)]);
        let r = if n == 0 {
            ackermann_transcript(m - 1, 1, indent + 2, actions)
        } else {
            proof {
                lemma_ack_exceeds_second((m - 1) as nat, ack(m as nat, (n - 1) as nat));
            }
            let inner = ackermann_transcript(m, n - 1, indent + 2, actions);
            ackermann_transcript(m - 1, inner, indent + 2, actions)
        };
        let ghost inner_t = if n == 0 {
            ack_transcript((m - 1) as nat, 1, (indent + 2) as nat)
        } else {
            ack_transcript(m as nat, (n - 1) as nat, (indent + 2) as nat)
                + ack_transcript((m - 1) as nat, ack(m as nat, (n - 1) as nat), (indent + 2) as nat)
        };
        assert(actions@.map_values(|a: AckAction| a@) =~= after_head + inner_t);
        actions.push(AckAction::Sleep(10));
        let mut line = call_line(m, n, indent);
        push_str(&mut line, " = ");
        push_decimal(&mut line, r as u64);
        actions.push(AckAction::Write(line));
        let ghost tail = seq![
            AckActionModel::Sleep(10),
            AckActionModel::Write(call_text(m as nat, n as nat, indent as nat) + " = "@ + decimal(ack(m as nat, n as nat))),
        ];
        assert(actions@.map_values(|a: AckAction| a@) =~= after_head + inner_t + tail);
        assert(ack_transcript(m as nat, n as nat, indent as nat) =~=
            seq![AckActionModel::Write(call_text(m as nat, n as nat, indent as nat) + " ..."@)] + inner_t + tail);
        assert(actions@.map_values(|a: AckAction| a@) =~= start + ack_transcript(m as nat, n as nat, indent as nat));
        r
    }
}

/// The value and the recursion depth of `ack(m, n)` when both are at most
/// `limit`; `None` when the evaluation meets a value or a depth above it.
fn bounded_ack(m: u64, n: u64, limit: u64) -> (r: Option<(u64, u64)>)
    ensures
        r matches Some((v, d)) ==> v == ack(m as nat, n as nat) && d == ack_depth(m as nat, n as nat)
            && v <= limit && d <= limit,
        r is None ==> ack(m as nat, n as nat) > limit || ack_depth(m as nat, n as nat) > limit,
    decreases m, n,
{
    if m == 0 {
        if n < limit { Some((n + 1, 0)) } else { None }
    } else if n == 0 {
        match bounded_ack(m - 1, 1, limit) {
            Some((v, d)) => if d < limit { Some((v, d + 1)) } else { None },
            None => None,
        }
    } else {
        proof {
            lemma_ack_exceeds_second((m - 1) as nat, ack(m as nat, (n - 1) as nat));
        }
        match bounded_ack(m, n - 1, limit) {
            None => None,
            Some((inner, d1)) => match bounded_ack(m - 1, inner, limit) {
                None => None,
                Some((v, d2)) => {
                    let d = if d1 >= d2 { d1 } else { d2 };
                    if d < limit { Some((v, d + 1)) } else { None }
                },
            },
        }
    }
}

/// Whether the transcript of `ack(m, n)` stays within `limit`: both
/// arguments are natural, and the value and the recursion depth are at
/// most `limit`.
pub fn ackermann_within(m: i64, n: i64, limit: u64) -> (r: bool)
    ensures
        r == (m >= 0 && n >= 0 && ack(m as nat, n as nat) <= limit && ack_depth(m as nat, n as nat) <= limit),
{
    if m < 0 || n < 0 {
        return false;
    }
    bounded_ack(m as u64, n as u64, limit).is_some()
}

} // verus!
