use vstd::prelude::*;

verus! {

/// Shortest name that can be registered, in characters.
pub const MIN_NAME_LEN: usize = 3;

/// Longest name that can be registered, in characters.
pub const MAX_NAME_LEN: usize = 12;

/// A character allowed in a name: a lowercase ASCII letter, a digit or `_`.
pub open spec fn is_name_char(c: char) -> bool {
    ('a' <= c && c <= 'z') || ('0' <= c && c <= '9') || c == '_'
}

pub open spec fn name_chars_ok(s: Seq<char>) -> bool {
    forall|i: int| 0 <= i < s.len() ==> is_name_char(#[trigger] s[i])
}

pub open spec fn name_length_ok(s: Seq<char>) -> bool {
    MIN_NAME_LEN <= s.len() <= MAX_NAME_LEN
}

/// A name that `register_name` accepts.
pub open spec fn valid_name(s: Seq<char>) -> bool {
    name_length_ok(s) && name_chars_ok(s)
}

pub fn is_name_char_exec(c: char) -> (r: bool)
    ensures
        r == is_name_char(c),
{
    ('a' <= c && c <= 'z') || ('0' <= c && c <= '9') || c == '_'
}

/// Whether every character of `name` is allowed in a name.
pub fn is_valid_name(name: &str) -> (r: bool)
    ensures
        r == name_chars_ok(name@),
{
    let n = name.unicode_len();
    let mut i: usize = 0;
    while i < n
        invariant
            n == name@.len(),
            0 <= i <= n,
            forall|j: int| 0 <= j < i ==> is_name_char(#[trigger] name@[j]),
        decreases n - i,
    {
        if !is_name_char_exec(name.get_char(i)) {
            return false;
        }
        i = i + 1;
    }
    true
}

/// Whether two strings hold the same characters.
pub fn same_text(a: &str, b: &str) -> (r: bool)
    ensures
        r == (a@ == b@),
{
    let n = a.unicode_len();
    if n != b.unicode_len() {
        return false;
    }
    let mut i: usize = 0;
    while i < n
        invariant
            n == a@.len(),
            n == b@.len(),
            0 <= i <= n,
            forall|j: int| 0 <= j < i ==> a@[j] == b@[j],
        decreases n - i,
    {
        if a.get_char(i) != b.get_char(i) {
            return false;
        }
        i = i + 1;
    }
    assert(a@ =~= b@);
    true
}

} // verus!
