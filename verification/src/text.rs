//! Text as sequences of characters: conversions between `String` and
//! `Vec<char>`, and the searches the renderers are built on.

use vstd::prelude::*;
use vstd::string::StringExecFns;

verus! {

/// `String::push` appends one character to the end of the string.
pub assume_specification[ String::push ](s: &mut String, c: char)
    ensures
        final(s)@ == old(s)@.push(c),
;

/// The characters of an optional string.
pub open spec fn optional_text(s: Option<String>) -> Option<Seq<char>> {
    match s {
        Some(t) => Some(t@),
        None => None,
    }
}

/// A copy of an optional string.
pub fn clone_optional_text(s: &Option<String>) -> (r: Option<String>)
    ensures
        r == *s,
{
    match s {
        Some(t) => Some(t.clone()),
        None => None,
    }
}

/// Whether two optional strings hold the same text, or are both absent.
pub fn same_optional_text(a: &Option<String>, b: &Option<String>) -> (r: bool)
    ensures
        r == (optional_text(*a) == optional_text(*b)),
{
    match a {
        Some(x) => match b {
            Some(y) => *x == *y,
            None => false,
        },
        None => b.is_none(),
    }
}

/// The characters of `s`, in order.
pub fn chars_of(s: &str) -> (v: Vec<char>)
    ensures
        v@ == s@,
{
    let mut v: Vec<char> = Vec::new();
    let chars = s.chars();
    for c in it: chars
        invariant
            v@ == it.seq().take(it.index() as int),
            it.seq() == s@,
    {
        v.push(c);
    }
    v
}

/// The string made of `v[from..to]`.
pub fn string_of(v: &Vec<char>, from: usize, to: usize) -> (s: String)
    requires
        from <= to <= v.len(),
    ensures
        s@ == v@.subrange(from as int, to as int),
{
    let mut s = String::new();
    let mut i: usize = from;
    while i < to
        invariant
            from <= i <= to <= v.len(),
            s@ == v@.subrange(from as int, i as int),
        decreases to - i,
    {
        s.push(v[i]);
        i += 1;
    }
    s
}

/// `s` ends with `suffix`.
pub open spec fn ends_with(s: Seq<char>, suffix: Seq<char>) -> bool {
    suffix.len() <= s.len() && s.subrange(s.len() - suffix.len(), s.len() as int) == suffix
}

/// `s` with `suffix` at its end replaced by `replacement`, or `s` itself
/// where it does not end with `suffix`.
pub open spec fn with_suffix_replaced(s: Seq<char>, suffix: Seq<char>, replacement: Seq<char>) -> Seq<
    char,
> {
    if ends_with(s, suffix) {
        s.take(s.len() - suffix.len()) + replacement
    } else {
        s
    }
}

/// Whether the characters `s` end with the characters `suffix`.
pub fn has_suffix(s: &Vec<char>, suffix: &Vec<char>) -> (r: bool)
    ensures
        r == ends_with(s@, suffix@),
{
    let n = s.len();
    let m = suffix.len();
    if m > n {
        return false;
    }
    let ghost tail = s@.subrange(n - m, n as int);
    let mut i: usize = 0;
    while i < m
        invariant
            m <= n,
            n == s.len(),
            m == suffix.len(),
            i <= m,
            tail == s@.subrange(n - m, n as int),
            forall|k: int| 0 <= k < i ==> tail[k] == suffix@[k],
        decreases m - i,
    {
        if s[n - m + i] != suffix[i] {
            assert(tail[i as int] != suffix@[i as int]);
            return false;
        }
        i += 1;
    }
    assert(tail =~= suffix@);
    true
}

/// Replaces `suffix` at the end of `s` by `replacement`; a string that does
/// not end with `suffix` is handed back as it is.
pub fn replace_suffix(s: String, suffix: &str, replacement: &str) -> (r: String)
    ensures
        r@ == with_suffix_replaced(s@, suffix@, replacement@),
{
    let chars = chars_of(s.as_str());
    let tail = chars_of(suffix);
    if has_suffix(&chars, &tail) {
        let mut r = string_of(&chars, 0, chars.len() - tail.len());
        r.append(replacement);
        r
    } else {
        s
    }
}

/// Whether two strings hold the same text.
pub fn same_text(a: &str, b: &str) -> (r: bool)
    ensures
        r == (a@ == b@),
{
    let left = chars_of(a);
    let right = chars_of(b);
    if left.len() != right.len() {
        return false;
    }
    let r = has_suffix(&left, &right);
    assert(left@.subrange(0, left@.len() as int) =~= left@);
    r
}

} // verus!
