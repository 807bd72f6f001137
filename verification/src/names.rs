//! Which file and report names are portable between supported platforms.

use vstd::prelude::*;
use crate::error::{CliError, ErrorKind};
use crate::text::{
    ascii_upper, chars_of, is_ascii_alphanumeric, lower_is, lower_text, upper_prefix_is, upper_text,
};

verus! {

/// `char::is_control`: the general category Cc, U+0000..=U+001F and U+007F..=U+009F.
pub open spec fn is_control(c: char) -> bool {
    c <= '\u{1f}' || ('\u{7f}' <= c && c <= '\u{9f}')
}

/// Characters that Windows does not allow in a file name.
pub open spec fn is_forbidden_char(c: char) -> bool {
    c == '<' || c == '>' || c == ':' || c == '"' || c == '/' || c == '\\' || c == '|'
        || c == '?' || c == '*'
}

/// The text before the first `.`, or all of `s` where it holds none.
pub open spec fn stem(s: Seq<char>) -> Seq<char>
    decreases s.len(),
{
    if s.len() == 0 || s[0] == '.' {
        Seq::empty()
    } else {
        seq![s[0]] + stem(s.drop_first())
    }
}

/// A digit that may follow `COM` or `LPT` in a Windows device name.
pub open spec fn is_device_digit(c: char) -> bool {
    ('1' <= c && c <= '9') || c == '\u{b9}' || c == '\u{b2}' || c == '\u{b3}'
}

/// Windows device names, in upper case.
pub open spec fn is_device_name(u: Seq<char>) -> bool {
    ||| u == seq!['C', 'O', 'N']
    ||| u == seq!['P', 'R', 'N']
    ||| u == seq!['A', 'U', 'X']
    ||| u == seq!['N', 'U', 'L']
    ||| u == seq!['C', 'O', 'N', 'I', 'N', '$']
    ||| u == seq!['C', 'O', 'N', 'O', 'U', 'T', '$']
    ||| (u.len() == 4 && (u.take(3) == seq!['C', 'O', 'M'] || u.take(3) == seq!['L', 'P', 'T'])
        && is_device_digit(u[3]))
}

/// A file or directory name that can be moved between Linux, macOS and Windows:
/// not empty, not ending in `.` or a space, free of control and forbidden
/// characters, and whose part before the first `.` is no device name in any case.
pub open spec fn is_portable(s: Seq<char>) -> bool {
    &&& s.len() > 0
    &&& s.last() != '.'
    &&& s.last() != ' '
    &&& forall|i: int| 0 <= i < s.len() ==> !is_control(#[trigger] s[i]) && !is_forbidden_char(s[i])
    &&& !is_device_name(upper_text(stem(s)))
}

/// A character allowed in a report name.
pub open spec fn is_name_char(c: char) -> bool {
    is_ascii_alphanumeric(c) || c == '-' || c == '_'
}

/// Names reserved for the project's own folders, in lower case.
pub open spec fn is_reserved_name(l: Seq<char>) -> bool {
    ||| l == seq!['s', 'r', 'c']
    ||| l == seq!['t', 'a', 'r', 'g', 'e', 't']
    ||| l == seq!['t', 'e', 'm', 'p', 'l', 'a', 't', 'e', 's']
}

/// A report or template name: portable, starting with an ASCII letter or digit,
/// made of ASCII letters, digits, `-` and `_`, and not `src`, `target` or
/// `templates` in any case.
pub open spec fn is_report_name(s: Seq<char>) -> bool {
    &&& is_portable(s)
    &&& is_ascii_alphanumeric(s[0])
    &&& forall|i: int| 0 <= i < s.len() ==> is_name_char(#[trigger] s[i])
    &&& !is_reserved_name(lower_text(s))
}

proof fn lemma_stem_is_prefix(s: Seq<char>, k: int)
    requires
        0 <= k <= s.len(),
        forall|j: int| 0 <= j < k ==> s[j] != '.',
        k == s.len() || s[k] == '.',
    ensures
        stem(s) == s.take(k),
    decreases s.len(),
{
    if s.len() == 0 || s[0] == '.' {
        assert(s.take(k) =~= Seq::<char>::empty());
    } else {
        lemma_stem_is_prefix(s.drop_first(), k - 1);
        assert(s.take(k) =~= seq![s[0]] + s.drop_first().take(k - 1));
    }
}

/// Whether the first `k` characters of `v` form a device name in some letter case.
fn is_device_stem(v: &Vec<char>, k: usize) -> (r: bool)
    requires
        k <= v@.len(),
    ensures
        r == is_device_name(upper_text(v@.take(k as int))),
{
    let ghost u = upper_text(v@.take(k as int));
    if k == 4 {
        let com = upper_prefix_is(v, 3, &['C', 'O', 'M']);
        let lpt = upper_prefix_is(v, 3, &['L', 'P', 'T']);
        let c = v[3];
        let digit = ('1' <= c && c <= '9') || c == '\u{b9}' || c == '\u{b2}' || c == '\u{b3}';
        proof {
            assert(u.take(3) =~= upper_text(v@.take(3)));
            assert(u[3] == ascii_upper(c));
            assert(is_device_digit(u[3]) == digit);
            assert(u.len() == 4);
        }
        return (com || lpt) && digit;
    }
    let r = upper_prefix_is(v, k, &['C', 'O', 'N']) || upper_prefix_is(v, k, &['P', 'R', 'N'])
        || upper_prefix_is(v, k, &['A', 'U', 'X']) || upper_prefix_is(v, k, &['N', 'U', 'L'])
        || upper_prefix_is(v, k, &['C', 'O', 'N', 'I', 'N', '$'])
        || upper_prefix_is(v, k, &['C', 'O', 'N', 'O', 'U', 'T', '$']);
    r
}

/// Reject file components that cannot be moved between supported platforms.
pub fn portable_component(name: &str) -> (r: bool)
    ensures
        r == is_portable(name@),
{
    let v = chars_of(name);
    let n = v.len();
    if n == 0 {
        return false;
    }
    let last = v[n - 1];
    if last == '.' || last == ' ' {
        return false;
    }
    let mut i: usize = 0;
    while i < n
        invariant
            n == v@.len(),
            v@ == name@,
            i <= n,
            forall|j: int| 0 <= j < i ==> !is_control(#[trigger] v@[j]) && !is_forbidden_char(v@[j]),
        decreases n - i,
    {
        let c = v[i];
        let control = c <= '\u{1f}' || ('\u{7f}' <= c && c <= '\u{9f}');
        let forbidden = c == '<' || c == '>' || c == ':' || c == '"' || c == '/' || c == '\\'
            || c == '|' || c == '?' || c == '*';
        if control || forbidden {
            return false;
        }
        i = i + 1;
    }
    let mut k: usize = 0;
    while k < n && v[k] != '.'
        invariant
            n == v@.len(),
            k <= n,
            forall|j: int| 0 <= j < k ==> v@[j] != '.',
        decreases n - k,
    {
        k = k + 1;
    }
    proof {
        lemma_stem_is_prefix(v@, k as int);
    }
    !is_device_stem(&v, k)
}

/// Accept only names that are valid report (and template) names.
pub fn report_name(name: &str) -> (r: bool)
    ensures
        r == is_report_name(name@),
        r ==> is_portable(name@),
{
    if !portable_component(name) {
        return false;
    }
    let v = chars_of(name);
    if !is_ascii_alnum(v[0]) {
        return false;
    }
    let n = v.len();
    let mut i: usize = 0;
    while i < n
        invariant
            n == v@.len(),
            v@ == name@,
            i <= n,
            forall|j: int| 0 <= j < i ==> is_name_char(#[trigger] v@[j]),
        decreases n - i,
    {
        let c = v[i];
        if !(is_ascii_alnum(c) || c == '-' || c == '_') {
            return false;
        }
        i = i + 1;
    }
    let reserved = lower_is(&v, &['s', 'r', 'c']) || lower_is(&v, &['t', 'a', 'r', 'g', 'e', 't'])
        || lower_is(&v, &['t', 'e', 'm', 'p', 'l', 'a', 't', 'e', 's']);
    !reserved
}

fn is_ascii_alnum(c: char) -> (r: bool)
    ensures
        r == is_ascii_alphanumeric(c),
{
    ('0' <= c && c <= '9') || ('a' <= c && c <= 'z') || ('A' <= c && c <= 'Z')
}

/// Refuse a report or template name that is not a valid report name.
pub fn validate_name(name: &str) -> (r: Result<(), CliError>)
    ensures
        r is Ok <==> is_report_name(name@),
        r matches Err(e) ==> e@ == (ErrorKind::InvalidReportName, Seq::<char>::empty()),
{
    if !report_name(name) {
        return Err(CliError::new(ErrorKind::InvalidReportName));
    }
    Ok(())
}

/// Windows device names are refused on every platform, in any letter case and
/// whatever extension follows them.
pub proof fn device_names_are_never_portable(d: Seq<char>, ext: Seq<char>)
    requires
        is_device_name(upper_text(d)),
    ensures
        !is_portable(d),
        !is_portable(d + seq!['.'] + ext),
{
    let u = upper_text(d);
    assert forall|j: int| 0 <= j < d.len() implies d[j] != '.' by {
        assert(u[j] == ascii_upper(d[j]));
        if u.len() == 4 && j < 3 {
            assert(u[j] == u.take(3)[j]);
        }
        assert(u[j] != '.');
    }
    lemma_stem_is_prefix(d, d.len() as int);
    assert(d.take(d.len() as int) =~= d);
    let e = d + seq!['.'] + ext;
    assert forall|j: int| 0 <= j < d.len() implies e[j] != '.' by {
        assert(e[j] == d[j]);
    }
    assert(e[d.len() as int] == '.');
    lemma_stem_is_prefix(e, d.len() as int);
    assert(e.take(d.len() as int) =~= d);
}

/// A valid report name stays inside the directory it is created in: it is plain
/// ASCII, holds no path separator, is neither `.` nor `..`, cannot be taken for
/// an option, and is none of the project's own folder names in any case.
pub proof fn report_names_stay_in_their_folder(s: Seq<char>)
    requires
        is_report_name(s),
    ensures
        forall|i: int| 0 <= i < s.len() ==> (#[trigger] s[i] as u32) < 128,
        !s.contains('/'),
        !s.contains('\\'),
        !s.contains('.'),
        s[0] != '-',
        !is_reserved_name(lower_text(s)),
        is_portable(s),
{
    assert forall|i: int| 0 <= i < s.len() implies (#[trigger] s[i] as u32) < 128 by {
        assert(is_name_char(s[i]));
    }
    assert forall|i: int| 0 <= i < s.len() implies #[trigger] s[i] != '/' && s[i] != '\\' && s[i] != '.' by {
        assert(is_name_char(s[i]));
    }
}

/// The part before the first `.` is what is compared with the device names.
pub proof fn stem_is_the_text_before_the_first_dot(s: Seq<char>, k: int)
    requires
        0 <= k <= s.len(),
        forall|j: int| 0 <= j < k ==> s[j] != '.',
        k == s.len() || s[k] == '.',
    ensures
        stem(s) == s.take(k),
{
    lemma_stem_is_prefix(s, k);
}

/// A name is portable exactly when it is not empty, does not end in `.` or a
/// space, holds no control character (U+0000..=U+001F, U+007F..=U+009F) and
/// none of `< > : " / \ | ? *`, and its stem is no device name. Every other
/// character, a space inside the name among them, is allowed.
pub proof fn portable_names_are_exactly(s: Seq<char>)
    ensures
        is_portable(s) <==> {
            &&& s.len() > 0
            &&& s.last() != '.'
            &&& s.last() != ' '
            &&& forall|i: int|
                0 <= i < s.len() ==> {
                    let c = #[trigger] s[i];
                    &&& !(c <= '\u{1f}')
                    &&& !('\u{7f}' <= c && c <= '\u{9f}')
                    &&& c != '<' && c != '>' && c != ':' && c != '"' && c != '/'
                    &&& c != '\\' && c != '|' && c != '?' && c != '*'
                }
            &&& !is_device_name(upper_text(stem(s)))
        },
{
}

/// The device names, in upper case, written out: `CON`, `PRN`, `AUX`, `NUL`,
/// `CONIN$`, `CONOUT$`, and `COM` or `LPT` followed by one of `1`..`9`, `¹`,
/// `²`, `³`.
pub proof fn device_names_are_exactly(u: Seq<char>)
    ensures
        is_device_name(u) <==> {
            ||| u =~= seq!['C', 'O', 'N']
            ||| u =~= seq!['P', 'R', 'N']
            ||| u =~= seq!['A', 'U', 'X']
            ||| u =~= seq!['N', 'U', 'L']
            ||| u =~= seq!['C', 'O', 'N', 'I', 'N', '$']
            ||| u =~= seq!['C', 'O', 'N', 'O', 'U', 'T', '$']
            ||| (u.len() == 4 && ((u[0] == 'C' && u[1] == 'O' && u[2] == 'M') || (u[0] == 'L'
                && u[1] == 'P' && u[2] == 'T')) && (('1' <= u[3] && u[3] <= '9') || u[3]
                == '\u{b9}' || u[3] == '\u{b2}' || u[3] == '\u{b3}'))
        },
{
    if u.len() == 4 {
        if u[0] == 'C' && u[1] == 'O' && u[2] == 'M' {
            assert(u.take(3) =~= seq!['C', 'O', 'M']);
        }
        if u[0] == 'L' && u[1] == 'P' && u[2] == 'T' {
            assert(u.take(3) =~= seq!['L', 'P', 'T']);
        }
        if u.take(3) == seq!['C', 'O', 'M'] {
            assert(u[0] == u.take(3)[0] && u[1] == u.take(3)[1] && u[2] == u.take(3)[2]);
        }
        if u.take(3) == seq!['L', 'P', 'T'] {
            assert(u[0] == u.take(3)[0] && u[1] == u.take(3)[1] && u[2] == u.take(3)[2]);
        }
    }
}

/// A report name is exactly a portable name that starts with an ASCII letter
/// or digit, holds only ASCII letters, digits, `-` and `_`, and is none of
/// `src`, `target`, `templates` in any letter case.
pub proof fn report_names_are_exactly(s: Seq<char>)
    ensures
        is_report_name(s) <==> {
            &&& is_portable(s)
            &&& ('0' <= s[0] && s[0] <= '9') || ('a' <= s[0] && s[0] <= 'z') || ('A' <= s[0] && s[0] <= 'Z')
            &&& forall|i: int|
                0 <= i < s.len() ==> {
                    let c = #[trigger] s[i];
                    ||| '0' <= c && c <= '9'
                    ||| 'a' <= c && c <= 'z'
                    ||| 'A' <= c && c <= 'Z'
                    ||| c == '-'
                    ||| c == '_'
                }
            &&& !(lower_text(s) =~= seq!['s', 'r', 'c'])
            &&& !(lower_text(s) =~= seq!['t', 'a', 'r', 'g', 'e', 't'])
            &&& !(lower_text(s) =~= seq!['t', 'e', 'm', 'p', 'l', 'a', 't', 'e', 's'])
        },
{
}

} // verus!
