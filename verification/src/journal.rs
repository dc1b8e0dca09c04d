//! The counters and the sums journal of the storage-backed HTTP service:
//! what each stored value becomes on an update, which journal entries a
//! query reads, and how a submitted sum is judged.

use vstd::prelude::*;

verus! {

/// How many journal entries a query returns when it names no number.
pub const DEFAULT_REQUEST_SIZE: u64 = 10;

/// The most journal entries one query returns: some one thousand of the
/// most recent sums are kept within reach of a query.
pub const MAX_REQUEST_SIZE: u64 = 1000;

/// The number of journal entries a query returns when it names none.
pub fn default_request_size() -> (r: u64)
    ensures
        r == DEFAULT_REQUEST_SIZE,
{
    DEFAULT_REQUEST_SIZE
}

/// A request to increment the counter stored under `idx`.
pub struct IncCounterRequest {
    idx: u64,
}

impl IncCounterRequest {
    pub fn new(idx: u64) -> (r: Self)
        ensures
            r.idx() == idx,
    {
        IncCounterRequest { idx }
    }

    pub closed spec fn idx(&self) -> u64 {
        self.idx
    }

    /// The key the counter is stored under.
    pub fn key(&self) -> (r: u64)
        ensures
            r == self.idx(),
    {
        self.idx
    }

    /// The counter's new value: one more than the stored one, where a
    /// missing counter counts as zero.
    pub fn next_value(&self, stored: Option<u64>) -> (r: u64)
        requires
            stored != Some(u64::MAX),
        ensures
            r == (match stored { Some(v) => v + 1, None => 1 }),
    {
        match stored {
            Some(v) => v + 1,
            None => 1,
        }
    }
}

/// A request to lengthen the string stored under `idx` by one dot.
pub struct IncStringRequest {
    idx: u64,
}

impl IncStringRequest {
    pub fn new(idx: u64) -> (r: Self)
        ensures
            r.idx() == idx,
    {
        IncStringRequest { idx }
    }

    pub closed spec fn idx(&self) -> u64 {
        self.idx
    }

    /// The key the string is stored under.
    pub fn key(&self) -> (r: u64)
        ensures
            r == self.idx(),
    {
        self.idx
    }

    /// The string's new value: the stored one (empty when missing) with a
    /// dot appended.
    pub fn next_value(&self, stored: Option<String>) -> (r: String)
        ensures
            r@ == (match stored { Some(v) => v@, None => Seq::<char>::empty() }).push('.'),
    {
        let mut s = match stored {
            Some(v) => v,
            None => String::new(),
        };
        crate::text::push_char(&mut s, '.');
        s
    }
}

/// The smaller of two numbers.
pub open spec fn smaller(a: u64, b: u64) -> u64 {
    if a <= b { a } else { b }
}

/// The entries a journal query for `requested` entries reads when `stored`
/// entries are kept: the first index and the count. It reads the most
/// recent ones, no more than are kept and no more than the maximum.
pub fn journal_window(requested: u64, stored: u64) -> (r: (u64, u64))
    ensures
        r.1 == smaller(smaller(requested, stored), MAX_REQUEST_SIZE),
        r.0 + r.1 == stored,
{
    let a = if requested <= stored { requested } else { stored };
    let n = if a <= MAX_REQUEST_SIZE { a } else { MAX_REQUEST_SIZE };
    (stored - n, n)
}

/// Where a new journal entry goes and the journal's next free index, given
/// the stored next index (none stored counts as zero).
pub fn journal_slot(stored_next: Option<u64>) -> (r: (u64, u64))
    requires
        stored_next != Some(u64::MAX),
    ensures
        r.0 == (match stored_next { Some(i) => i, None => 0 }),
        r.1 == r.0 + 1,
{
    let idx = match stored_next {
        Some(i) => i,
        None => 0,
    };
    (idx, idx + 1)
}

/// A submitted sum: the claim that `c` equals `a + b`, under a request id.
pub struct SumRequest {
    pub id: String,
    pub a: i32,
    pub b: i32,
    pub c: i32,
}

/// A correct sum as kept in the journal, with the time it was accepted.
pub struct JournalEntry {
    pub id: String,
    pub a: i32,
    pub b: i32,
    pub c: i32,
    pub timestamp_us: u64,
}

/// Whether a request id was seen before; an unseen one is recorded.
#[derive(Clone, Copy, Debug, PartialEq, Eq, Structural)]
pub enum CheckAndStoreIdResponse {
    Unique,
    Duplicate,
}

/// Why a submitted sum is refused.
#[derive(Clone, Copy, Debug, PartialEq, Eq, Structural)]
pub enum SumsError {
    /// The request id is empty.
    EmptyId,
    /// The request id was used before.
    Duplicate,
    /// `c` is not `a + b`.
    WrongSum,
}

impl SumsError {
    /// The HTTP status of the refusal.
    pub fn status(&self) -> (r: u16)
        ensures
            r == (match self {
                SumsError::EmptyId => 400u16,
                SumsError::Duplicate => 409u16,
                SumsError::WrongSum => 400u16,
            }),
    {
        match self {
            SumsError::EmptyId => 400,
            SumsError::Duplicate => 409,
            SumsError::WrongSum => 400,
        }
    }

    /// The text of the refusal.
    pub fn message(&self) -> (r: &'static str)
        ensures
            r@ == (match self {
                SumsError::EmptyId => "Error: id cannot be empty.\n"@,
                SumsError::Duplicate => "Error: Duplicate request ID.\n"@,
                SumsError::WrongSum => "Error: c must equal a + b.\n"@,
            }),
    {
        match self {
            SumsError::EmptyId => "Error: id cannot be empty.\n",
            SumsError::Duplicate => "Error: Duplicate request ID.\n",
            SumsError::WrongSum => "Error: c must equal a + b.\n",
        }
    }
}

/// The answer to an accepted sum.
pub fn sums_accepted_message() -> (r: &'static str)
    ensures
        r@ == "OK\n"@,
{
    "OK\n"
}

/// Checks a submitted sum before its id is looked up: an empty id is refused.
pub fn check_sum_request(req: &SumRequest) -> (r: Result<(), SumsError>)
    ensures
        req.id@.len() == 0 <==> r == Err::<(), SumsError>(SumsError::EmptyId),
        req.id@.len() != 0 <==> r is Ok,
{
    if req.id.as_str().is_empty() {
        Err(SumsError::EmptyId)
    } else {
        Ok(())
    }
}

/// Judges a submitted sum once its id was looked up (and, when unseen,
/// recorded): a seen id is refused as a duplicate, whatever the sum; a
/// wrong sum is refused; a correct one with an unseen id is accepted.
pub fn judge_sum(req: &SumRequest, seen: CheckAndStoreIdResponse) -> (r: Result<(), SumsError>)
    requires
        seen == CheckAndStoreIdResponse::Unique ==> i32::MIN <= req.a + req.b <= i32::MAX,
    ensures
        seen == CheckAndStoreIdResponse::Duplicate ==> r == Err::<(), SumsError>(SumsError::Duplicate),
        seen == CheckAndStoreIdResponse::Unique && req.c != req.a + req.b ==> r == Err::<(), SumsError>(SumsError::WrongSum),
        seen == CheckAndStoreIdResponse::Unique && req.c == req.a + req.b ==> r is Ok,
{
    match seen {
        CheckAndStoreIdResponse::Duplicate => Err(SumsError::Duplicate),
        CheckAndStoreIdResponse::Unique => {
            if req.c == req.a + req.b {
                Ok(())
            } else {
                Err(SumsError::WrongSum)
            }
        },
    }
}

/// The journal entry for an accepted sum, stamped with `timestamp_us`.
pub fn journal_entry(req: &SumRequest, timestamp_us: u64) -> (r: JournalEntry)
    ensures
        r.id == req.id,
        r.a == req.a,
        r.b == req.b,
        r.c == req.c,
        r.timestamp_us == timestamp_us,
{
    JournalEntry { id: req.id.clone(), a: req.a, b: req.b, c: req.c, timestamp_us }
}

} // verus!
