//! Small character-level helpers shared by the other modules.

use vstd::prelude::*;

verus! {

/// What `char::to_ascii_uppercase` returns: ASCII lowercase letters are
/// mapped to upper case, every other character is left alone.
pub open spec fn ascii_upper(c: char) -> char {
    if 'a' <= c && c <= 'z' {
        ((c as u32) - 32) as char
    } else {
        c
    }
}

/// What `char::to_ascii_lowercase` returns.
pub open spec fn ascii_lower(c: char) -> char {
    if 'A' <= c && c <= 'Z' {
        ((c as u32) + 32) as char
    } else {
        c
    }
}

pub open spec fn upper_text(s: Seq<char>) -> Seq<char> {
    s.map_values(|c: char| ascii_upper(c))
}

pub open spec fn lower_text(s: Seq<char>) -> Seq<char> {
    s.map_values(|c: char| ascii_lower(c))
}

/// `char::is_ascii_alphanumeric`.
pub open spec fn is_ascii_alphanumeric(c: char) -> bool {
    ('0' <= c && c <= '9') || ('a' <= c && c <= 'z') || ('A' <= c && c <= 'Z')
}

pub fn to_ascii_upper(c: char) -> (r: char)
    ensures
        r == ascii_upper(c),
{
    if 'a' <= c && c <= 'z' {
        ((c as u8) - 32) as char
    } else {
        c
    }
}

pub fn to_ascii_lower(c: char) -> (r: char)
    ensures
        r == ascii_lower(c),
{
    if 'A' <= c && c <= 'Z' {
        ((c as u8) + 32) as char
    } else {
        c
    }
}

/// The characters of `s`, in order.
pub fn chars_of(s: &str) -> (v: Vec<char>)
    ensures
        v@ == s@,
{
    let mut v: Vec<char> = Vec::new();
    for c in it: s.chars()
        invariant
            v@ == it.seq().take(it.index() as int),
    {
        v.push(c);
    }
    v
}

/// Whether `upper_text(v[0..k])` is exactly `word`.
pub fn upper_prefix_is(v: &Vec<char>, k: usize, word: &[char]) -> (r: bool)
    requires
        k <= v@.len(),
    ensures
        r == (upper_text(v@.take(k as int)) == word@),
{
    if k != word.len() {
        proof {
            assert(upper_text(v@.take(k as int)).len() != word@.len());
        }
        return false;
    }
    let mut i: usize = 0;
    while i < k
        invariant
            k == word@.len(),
            k <= v@.len(),
            i <= k,
            forall|j: int| 0 <= j < i ==> ascii_upper(v@[j]) == word@[j],
        decreases k - i,
    {
        if to_ascii_upper(v[i]) != word[i] {
            proof {
                assert(upper_text(v@.take(k as int))[i as int] != word@[i as int]);
            }
            return false;
        }
        i = i + 1;
    }
    proof {
        assert(upper_text(v@.take(k as int)) =~= word@);
    }
    true
}

/// Whether `lower_text(v)` is exactly `word`.
pub fn lower_is(v: &Vec<char>, word: &[char]) -> (r: bool)
    ensures
        r == (lower_text(v@) == word@),
{
    if v.len() != word.len() {
        proof {
            assert(lower_text(v@).len() != word@.len());
        }
        return false;
    }
    let mut i: usize = 0;
    while i < v.len()
        invariant
            v@.len() == word@.len(),
            i <= v@.len(),
            forall|j: int| 0 <= j < i ==> ascii_lower(v@[j]) == word@[j],
        decreases v@.len() - i,
    {
        if to_ascii_lower(v[i]) != word[i] {
            proof {
                assert(lower_text(v@)[i as int] != word@[i as int]);
            }
            return false;
        }
        i = i + 1;
    }
    proof {
        assert(lower_text(v@) =~= word@);
    }
    true
}

/// Appends one character to a string (`String::push`).
#[verifier::external_body]
pub fn push_char(s: &mut String, c: char)
    ensures
        final(s)@ == old(s)@.push(c),
{
    s.push(c);
}

/// ASCII case mapping changes only ASCII letters, and going to the other case
/// and back gives the letter again.
pub proof fn ascii_case_round_trips(c: char)
    ensures
        !('a' <= c && c <= 'z') ==> ascii_upper(c) == c,
        !('A' <= c && c <= 'Z') ==> ascii_lower(c) == c,
        'a' <= c && c <= 'z' ==> 'A' <= ascii_upper(c) && ascii_upper(c) <= 'Z' && ascii_lower(
            ascii_upper(c),
        ) == c,
        'A' <= c && c <= 'Z' ==> 'a' <= ascii_lower(c) && ascii_lower(c) <= 'z' && ascii_upper(
            ascii_lower(c),
        ) == c,
        'a' <= c && c <= 'z' ==> (ascii_upper(c) as u32) + 32 == c as u32,
{
}

} // verus!
