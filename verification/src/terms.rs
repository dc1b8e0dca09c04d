//! Classification of identifiers by naming convention.

use vstd::prelude::*;
use crate::text::chars_of;

verus! {

/// The naming convention an identifier follows.
#[allow(non_camel_case_types)]
#[derive(Clone, Copy, Debug, PartialEq, Eq, Structural)]
pub enum Rule {
    /// `foo_bar`, `i_1`: lowercase words of letters and digits joined by single underscores.
    lower_snake,
    /// `FOO_BAR`, `I_1`: uppercase words of letters and digits joined by single underscores.
    upper_snake,
    /// `FooBar1`: words that each start with an uppercase letter followed by lowercase letters or digits.
    camel_case,
    /// `fooBar1`: a lowercase word followed by at least one capitalised word.
    camel_back,
}

pub open spec fn is_lower(c: char) -> bool {
    'a' <= c && c <= 'z'
}

pub open spec fn is_upper(c: char) -> bool {
    'A' <= c && c <= 'Z'
}

pub open spec fn is_digit(c: char) -> bool {
    '0' <= c && c <= '9'
}

/// Every underscore is followed by a character that is not an underscore.
pub open spec fn underscores_separate(s: Seq<char>) -> bool {
    forall|i: int| 0 <= i < s.len() && #[trigger] s[i] == '_' ==> i + 1 < s.len() && s[i + 1] != '_'
}

/// Every uppercase letter is followed by a character that is not uppercase.
pub open spec fn capitals_start_words(s: Seq<char>) -> bool {
    forall|i: int| 0 <= i < s.len() && is_upper(#[trigger] s[i]) ==> i + 1 < s.len() && !is_upper(s[i + 1])
}

pub open spec fn is_lower_snake(s: Seq<char>) -> bool {
    &&& s.len() > 0
    &&& is_lower(s[0])
    &&& forall|i: int| 0 <= i < s.len() ==> is_lower(s[i]) || is_digit(s[i]) || s[i] == '_'
    &&& underscores_separate(s)
}

pub open spec fn is_upper_snake(s: Seq<char>) -> bool {
    &&& s.len() > 0
    &&& is_upper(s[0])
    &&& forall|i: int| 0 <= i < s.len() ==> is_upper(s[i]) || is_digit(s[i]) || s[i] == '_'
    &&& underscores_separate(s)
}

pub open spec fn is_camel_case(s: Seq<char>) -> bool {
    &&& s.len() > 0
    &&& is_upper(s[0])
    &&& forall|i: int| 0 <= i < s.len() ==> is_upper(s[i]) || is_lower(s[i]) || is_digit(s[i])
    &&& capitals_start_words(s)
}

pub open spec fn is_camel_back(s: Seq<char>) -> bool {
    &&& s.len() > 0
    &&& is_lower(s[0])
    &&& forall|i: int| 0 <= i < s.len() ==> is_upper(s[i]) || is_lower(s[i]) || is_digit(s[i])
    &&& exists|i: int| 0 <= i < s.len() && is_upper(s[i])
    &&& capitals_start_words(s)
}

/// The convention of a whole identifier; where two conventions fit (`I1` is
/// both upper snake case and camel case) the one listed first in `Rule` wins.
pub open spec fn spec_classify(s: Seq<char>) -> Option<Rule> {
    if is_lower_snake(s) {
        Some(Rule::lower_snake)
    } else if is_upper_snake(s) {
        Some(Rule::upper_snake)
    } else if is_camel_case(s) {
        Some(Rule::camel_case)
    } else if is_camel_back(s) {
        Some(Rule::camel_back)
    } else {
        None
    }
}

fn is_lower_char(c: char) -> (b: bool)
    ensures
        b == is_lower(c),
{
    'a' <= c && c <= 'z'
}

fn is_upper_char(c: char) -> (b: bool)
    ensures
        b == is_upper(c),
{
    'A' <= c && c <= 'Z'
}

fn is_digit_char(c: char) -> (b: bool)
    ensures
        b == is_digit(c),
{
    '0' <= c && c <= '9'
}

/// Checks a snake-case identifier; `upper` selects the letter case.
fn check_snake(s: &Vec<char>, upper: bool) -> (b: bool)
    ensures
        upper ==> b == is_upper_snake(s@),
        !upper ==> b == is_lower_snake(s@),
{
    let n = s.len();
    if n == 0 {
        return false;
    }
    if upper && !is_upper_char(s[0]) {
        return false;
    }
    if !upper && !is_lower_char(s[0]) {
        return false;
    }
    let mut i: usize = 0;
    while i < n
        invariant
            n == s@.len(),
            0 <= i <= n,
            forall|j: int| 0 <= j < i ==>
                (if upper { is_upper(s@[j]) } else { is_lower(s@[j]) }) || is_digit(s@[j]) || s@[j] == '_',
            forall|j: int| 0 <= j < i && #[trigger] s@[j] == '_' ==> j + 1 < n && s@[j + 1] != '_',
        decreases n - i,
    {
        let c = s[i];
        let letter_ok = if upper { is_upper_char(c) } else { is_lower_char(c) };
        if !(letter_ok || is_digit_char(c) || c == '_') {
            return false;
        }
        if c == '_' {
            if i + 1 >= n || s[i + 1] == '_' {
                return false;
            }
        }
        i = i + 1;
    }
    true
}

/// Checks a camel-case identifier; `upper_first` selects `FooBar` over `fooBar`.
fn check_camel(s: &Vec<char>, upper_first: bool) -> (b: bool)
    ensures
        upper_first ==> b == is_camel_case(s@),
        !upper_first ==> b == is_camel_back(s@),
{
    let n = s.len();
    if n == 0 {
        return false;
    }
    if upper_first && !is_upper_char(s[0]) {
        return false;
    }
    if !upper_first && !is_lower_char(s[0]) {
        return false;
    }
    let mut seen_upper = false;
    let mut i: usize = 0;
    while i < n
        invariant
            n == s@.len(),
            0 <= i <= n,
            forall|j: int| 0 <= j < i ==> is_upper(s@[j]) || is_lower(s@[j]) || is_digit(s@[j]),
            forall|j: int| 0 <= j < i && is_upper(#[trigger] s@[j]) ==> j + 1 < n && !is_upper(s@[j + 1]),
            seen_upper <==> exists|j: int| 0 <= j < i && is_upper(s@[j]),
        decreases n - i,
    {
        let c = s[i];
        if !(is_upper_char(c) || is_lower_char(c) || is_digit_char(c)) {
            return false;
        }
        if is_upper_char(c) {
            if i + 1 >= n || is_upper_char(s[i + 1]) {
                return false;
            }
            seen_upper = true;
        }
        i = i + 1;
    }
    upper_first || seen_upper
}

/// The naming convention of `s`, or `None` where it follows none of them.
pub fn classify_term(s: &str) -> (r: Option<Rule>)
    ensures
        r == spec_classify(s@),
{
    let cs = chars_of(s);
    if check_snake(&cs, false) {
        Some(Rule::lower_snake)
    } else if check_snake(&cs, true) {
        Some(Rule::upper_snake)
    } else if check_camel(&cs, true) {
        Some(Rule::camel_case)
    } else if check_camel(&cs, false) {
        Some(Rule::camel_back)
    } else {
        None
    }
}

} // verus!
