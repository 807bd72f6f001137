//! Turning a report title into literal LaTeX text.

use vstd::prelude::*;
use crate::text::push_char;

verus! {

/// What one character of a title becomes in LaTeX source: the ten LaTeX
/// special characters get their literal forms, line breaks become spaces,
/// and every other character stands for itself.
pub open spec fn escape_char(c: char) -> Seq<char> {
    if c == '\\' {
        "\\textbackslash{}"@
    } else if c == '{' {
        "\\{"@
    } else if c == '}' {
        "\\}"@
    } else if c == '$' {
        "\\$"@
    } else if c == '&' {
        "\\&"@
    } else if c == '#' {
        "\\#"@
    } else if c == '%' {
        "\\%"@
    } else if c == '_' {
        "\\_"@
    } else if c == '~' {
        "\\textasciitilde{}"@
    } else if c == '^' {
        "\\textasciicircum{}"@
    } else if c == '\n' || c == '\r' {
        seq![' ']
    } else {
        seq![c]
    }
}

/// The characters of `s`, each replaced by its LaTeX form, in order.
pub open spec fn escape(s: Seq<char>) -> Seq<char>
    decreases s.len(),
{
    if s.len() == 0 {
        Seq::empty()
    } else {
        escape(s.drop_last()) + escape_char(s.last())
    }
}

/// Escape a title so that LaTeX typesets it literally.
pub fn escape_tex(text: &str) -> (r: String)
    ensures
        r@ == escape(text@),
{
    let mut out = String::new();
    for c in it: text.chars()
        invariant
            it.seq() == text@,
            out@ == escape(it.seq().take(it.index() as int)),
    {
        let ghost i = it.index() as int;
        proof {
            assert(it.seq().take(i + 1).drop_last() =~= it.seq().take(i));
        }
        if c == '\\' {
            out.append("\\textbackslash{}");
        } else if c == '{' {
            out.append("\\{");
        } else if c == '}' {
            out.append("\\}");
        } else if c == '$' {
            out.append("\\$");
        } else if c == '&' {
            out.append("\\&");
        } else if c == '#' {
            out.append("\\#");
        } else if c == '%' {
            out.append("\\%");
        } else if c == '_' {
            out.append("\\_");
        } else if c == '~' {
            out.append("\\textasciitilde{}");
        } else if c == '^' {
            out.append("\\textasciicircum{}");
        } else if c == '\n' || c == '\r' {
            push_char(&mut out, ' ');
        } else {
            push_char(&mut out, c);
        }
    }
    proof {
        assert(text@.take(text@.len() as int) =~= text@);
    }
    out
}

/// Whether a character is left as it is by escaping.
pub open spec fn is_plain_char(c: char) -> bool {
    escape_char(c) == seq![c]
}

/// Escaping works character by character: the escape of a concatenation is the
/// concatenation of the escapes.
pub proof fn escape_distributes_over_concatenation(a: Seq<char>, b: Seq<char>)
    ensures
        escape(a + b) == escape(a) + escape(b),
    decreases b.len(),
{
    if b.len() == 0 {
        assert(a + b =~= a);
        assert(escape(b) =~= Seq::<char>::empty());
        assert(escape(a) + escape(b) =~= escape(a));
    } else {
        escape_distributes_over_concatenation(a, b.drop_last());
        assert((a + b).drop_last() =~= a + b.drop_last());
        assert((a + b).last() == b.last());
        assert(escape(a) + escape(b) =~= escape(a) + escape(b.drop_last()) + escape_char(b.last()));
    }
}

/// A title without LaTeX special characters or line breaks is kept as it is.
pub proof fn plain_titles_are_unchanged(s: Seq<char>)
    requires
        forall|i: int| 0 <= i < s.len() ==> is_plain_char(#[trigger] s[i]),
    ensures
        escape(s) == s,
    decreases s.len(),
{
    if s.len() > 0 {
        plain_titles_are_unchanged(s.drop_last());
        assert(is_plain_char(s[s.len() - 1]));
        assert(s =~= s.drop_last() + seq![s.last()]);
    }
}

proof fn escape_char_has_no_line_break(c: char)
    ensures
        !escape_char(c).contains('\n'),
        !escape_char(c).contains('\r'),
{
    reveal_strlit("\\textbackslash{}");
    reveal_strlit("\\{");
    reveal_strlit("\\}");
    reveal_strlit("\\$");
    reveal_strlit("\\&");
    reveal_strlit("\\#");
    reveal_strlit("\\%");
    reveal_strlit("\\_");
    reveal_strlit("\\textasciitilde{}");
    reveal_strlit("\\textasciicircum{}");
    let e = escape_char(c);
    assert forall|i: int| 0 <= i < e.len() implies e[i] != '\n' && e[i] != '\r' by {}
}

/// An escaped title holds no line break: it always fits on one line of the source.
pub proof fn escaped_titles_have_no_line_breaks(s: Seq<char>)
    ensures
        !escape(s).contains('\n'),
        !escape(s).contains('\r'),
    decreases s.len(),
{
    if s.len() > 0 {
        escaped_titles_have_no_line_breaks(s.drop_last());
        escape_char_has_no_line_break(s.last());
        let a = escape(s.drop_last());
        let b = escape_char(s.last());
        assert forall|i: int| 0 <= i < (a + b).len() implies (a + b)[i] != '\n' && (a + b)[i] != '\r' by {
            if i < a.len() {
                assert((a + b)[i] == a[i]);
            } else {
                assert((a + b)[i] == b[i - a.len()]);
            }
        }
    }
}

proof fn lemma_escape_one(c: char)
    ensures
        escape(seq![c]) == escape_char(c),
{
    let one = seq![c];
    assert(one.len() == 1);
    assert(one.drop_last() =~= Seq::<char>::empty());
    assert(one.last() == c);
    assert(escape(Seq::<char>::empty()) == Seq::<char>::empty());
    assert(escape(one) == escape(one.drop_last()) + escape_char(one.last()));
    assert(Seq::<char>::empty() + escape_char(c) =~= escape_char(c));
}

/// Every character but the ten LaTeX specials `\ { } $ & # % _ ~ ^` and the
/// line breaks `\n`, `\r` stands for itself: a title made only of such
/// characters is kept exactly as it is.
pub proof fn ordinary_characters_stand_for_themselves(s: Seq<char>)
    requires
        forall|i: int|
            0 <= i < s.len() ==> {
                let c = #[trigger] s[i];
                &&& c != '\\' && c != '{' && c != '}' && c != '$' && c != '&'
                &&& c != '#' && c != '%' && c != '_' && c != '~' && c != '^'
                &&& c != '\n' && c != '\r'
            },
    ensures
        escape(s) == s,
    decreases s.len(),
{
    if s.len() > 0 {
        ordinary_characters_stand_for_themselves(s.drop_last());
        let c = s[s.len() - 1];
        assert(escape_char(c) == seq![c]);
        assert(s =~= s.drop_last() + seq![s.last()]);
    }
}

/// What each special character of a title becomes, written out character by
/// character.
pub proof fn special_characters_have_fixed_forms()
    ensures
        escape(seq!['\\']) == seq![
            '\\', 't', 'e', 'x', 't', 'b', 'a', 'c', 'k', 's', 'l', 'a', 's', 'h', '{', '}'
        ],
        escape(seq!['{']) == seq!['\\', '{'],
        escape(seq!['}']) == seq!['\\', '}'],
        escape(seq!['$']) == seq!['\\', '$'],
        escape(seq!['&']) == seq!['\\', '&'],
        escape(seq!['#']) == seq!['\\', '#'],
        escape(seq!['%']) == seq!['\\', '%'],
        escape(seq!['_']) == seq!['\\', '_'],
        escape(seq!['~']) == seq![
            '\\', 't', 'e', 'x', 't', 'a', 's', 'c', 'i', 'i', 't', 'i', 'l', 'd', 'e', '{', '}'
        ],
        escape(seq!['^']) == seq![
            '\\', 't', 'e', 'x', 't', 'a', 's', 'c', 'i', 'i', 'c', 'i', 'r', 'c', 'u', 'm', '{', '}'
        ],
        escape(seq!['\n']) == seq![' '],
        escape(seq!['\r']) == seq![' '],
{
    reveal_strlit("\\textbackslash{}");
    reveal_strlit("\\{");
    reveal_strlit("\\}");
    reveal_strlit("\\$");
    reveal_strlit("\\&");
    reveal_strlit("\\#");
    reveal_strlit("\\%");
    reveal_strlit("\\_");
    reveal_strlit("\\textasciitilde{}");
    reveal_strlit("\\textasciicircum{}");
    lemma_escape_one('\\');
    lemma_escape_one('{');
    lemma_escape_one('}');
    lemma_escape_one('$');
    lemma_escape_one('&');
    lemma_escape_one('#');
    lemma_escape_one('%');
    lemma_escape_one('_');
    lemma_escape_one('~');
    lemma_escape_one('^');
    lemma_escape_one('\n');
    lemma_escape_one('\r');
    assert("\\textbackslash{}"@ =~= seq![
        '\\', 't', 'e', 'x', 't', 'b', 'a', 'c', 'k', 's', 'l', 'a', 's', 'h', '{', '}'
    ]);
    assert("\\textasciitilde{}"@ =~= seq![
        '\\', 't', 'e', 'x', 't', 'a', 's', 'c', 'i', 'i', 't', 'i', 'l', 'd', 'e', '{', '}'
    ]);
    assert("\\textasciicircum{}"@ =~= seq![
        '\\', 't', 'e', 'x', 't', 'a', 's', 'c', 'i', 'i', 'c', 'i', 'r', 'c', 'u', 'm', '{', '}'
    ]);
    assert("\\{"@ =~= seq!['\\', '{']);
    assert("\\}"@ =~= seq!['\\', '}']);
    assert("\\$"@ =~= seq!['\\', '$']);
    assert("\\&"@ =~= seq!['\\', '&']);
    assert("\\#"@ =~= seq!['\\', '#']);
    assert("\\%"@ =~= seq!['\\', '%']);
    assert("\\_"@ =~= seq!['\\', '_']);
}

} // verus!
