//! Embedded report templates and the files a new report receives from one.

use vstd::prelude::*;
use vstd::utf8::{encode_utf8, valid_utf8};
use crate::error::{CliError, ErrorKind};
use crate::latex::{escape, escape_tex};
use crate::names::{is_report_name, validate_name};
use crate::paths::{is_tex_path, tex_path};

verus! {

/// One file of a template: its path relative to the report folder, with `/`
/// separators, and its bytes.
#[derive(Debug)]
pub struct TemplateFile {
    pub path: String,
    pub contents: Vec<u8>,
}

/// A named template and its files, in catalog order.
#[derive(Debug)]
pub struct Template {
    pub name: String,
    pub files: Vec<TemplateFile>,
}

/// The placeholder that `.tex` files hold where the report title goes:
/// `@@TITLE@@` in ASCII.
pub open spec fn title_marker() -> Seq<u8> {
    seq![64u8, 64, 84, 73, 84, 76, 69, 64, 64]
}

/// `s` with every occurrence of [`title_marker`], taken from left to right
/// without overlap, replaced by `rep` (what `str::replace` does).
pub open spec fn replace_marker(s: Seq<u8>, rep: Seq<u8>) -> Seq<u8>
    decreases s.len(),
{
    if s.len() < title_marker().len() {
        s
    } else if s.take(title_marker().len() as int) == title_marker() {
        rep + replace_marker(s.skip(title_marker().len() as int), rep)
    } else {
        seq![s[0]] + replace_marker(s.skip(1), rep)
    }
}

/// What a report receives for a template file: a `.tex` file with the title,
/// escaped as LaTeX text and encoded as UTF-8, in place of each placeholder;
/// any other file unchanged.
pub open spec fn rendered(file: TemplateFile, title: Seq<char>) -> Seq<u8> {
    if is_tex_path(file.path@) {
        replace_marker(file.contents@, encode_utf8(escape(title)))
    } else {
        file.contents@
    }
}

/// A file that cannot be rendered: a `.tex` file that is not UTF-8.
pub open spec fn is_unrenderable(file: TemplateFile) -> bool {
    is_tex_path(file.path@) && !valid_utf8(file.contents@)
}

/// The index of the first template named `name`, or `ts.len()` where none is.
pub open spec fn template_index(ts: Seq<Template>, name: Seq<char>) -> int
    decreases ts.len(),
{
    if ts.len() == 0 {
        0
    } else if template_index(ts.drop_last(), name) < ts.len() - 1 {
        template_index(ts.drop_last(), name)
    } else if ts.last().name@ == name {
        ts.len() - 1
    } else {
        ts.len() as int
    }
}

/// The index of the first file that cannot be rendered, or `fs.len()`.
pub open spec fn first_unrenderable(fs: Seq<TemplateFile>) -> int
    decreases fs.len(),
{
    if fs.len() == 0 {
        0
    } else if first_unrenderable(fs.drop_last()) < fs.len() - 1 {
        first_unrenderable(fs.drop_last())
    } else if is_unrenderable(fs.last()) {
        fs.len() - 1
    } else {
        fs.len() as int
    }
}

/// `str::from_utf8` succeeds exactly on the byte strings that are valid UTF-8.
#[verifier::external_body]
pub(crate) fn is_valid_utf8(bytes: &[u8]) -> (r: bool)
    ensures
        r == valid_utf8(bytes@),
{
    std::str::from_utf8(bytes).is_ok()
}

/// Replace each placeholder in `contents` by `rep`.
pub fn replace_title(contents: &[u8], rep: &[u8]) -> (r: Vec<u8>)
    ensures
        r@ == replace_marker(contents@, rep@),
{
    // `@@TITLE@@`
    let marker: [u8; 9] = [64, 64, 84, 73, 84, 76, 69, 64, 64];
    assert(marker@ == title_marker());
    let n = contents.len();
    let mut out: Vec<u8> = Vec::new();
    let mut i: usize = 0;
    proof {
        assert(contents@.skip(0) =~= contents@);
        assert(out@ + replace_marker(contents@, rep@) =~= replace_marker(contents@, rep@));
    }
    while i < n
        invariant
            n == contents@.len(),
            i <= n,
            marker@ == title_marker(),
            replace_marker(contents@, rep@) == out@ + replace_marker(contents@.skip(i as int), rep@),
        decreases n - i,
    {
        let ghost rest = contents@.skip(i as int);
        let mut matched = n - i >= 9;
        let mut j: usize = 0;
        while matched && j < 9
            invariant
                n == contents@.len(),
                i <= n,
                j <= 9,
                marker@ == title_marker(),
                matched ==> n - i >= 9,
                matched ==> forall|k: int| 0 <= k < j ==> contents@[i + k] == marker@[k],
                !matched ==> (n - i < 9 || contents@.subrange(i as int, i + 9) != title_marker()),
            decreases 9 - j,
        {
            if contents[i + j] != marker[j] {
                proof {
                    assert(contents@.subrange(i as int, i + 9)[j as int] != title_marker()[j as int]);
                }
                matched = false;
            }
            j = j + 1;
        }
        if matched {
            proof {
                assert(contents@.subrange(i as int, i + 9) =~= title_marker());
                assert(rest.take(9) =~= title_marker());
                assert(rest.skip(9) =~= contents@.skip(i + 9));
            }
            let mut k: usize = 0;
            let ghost before = out@;
            while k < rep.len()
                invariant
                    k <= rep@.len(),
                    out@ == before + rep@.take(k as int),
                decreases rep@.len() - k,
            {
                out.push(rep[k]);
                k = k + 1;
                proof {
                    assert(rep@.take(k as int) =~= rep@.take(k - 1) + seq![rep@[k - 1]]);
                }
            }
            proof {
                assert(rep@.take(rep@.len() as int) =~= rep@);
                assert(out@ + replace_marker(contents@.skip(i + 9), rep@)
                    =~= before + (rep@ + replace_marker(rest.skip(9), rep@)));
            }
            i = i + 9;
        } else {
            proof {
                if n - i >= 9 {
                    assert(rest.take(9) =~= contents@.subrange(i as int, i + 9));
                }
                assert(rest.skip(1) =~= contents@.skip(i + 1));
                assert(rest[0] == contents@[i as int]);
            }
            let ghost before = out@;
            out.push(contents[i]);
            proof {
                if n - i < 9 {
                    assert(replace_marker(rest, rep@) == rest);
                    if rest.skip(1).len() < 9 {
                        assert(replace_marker(rest.skip(1), rep@) == rest.skip(1));
                    }
                    assert(rest =~= seq![rest[0]] + rest.skip(1));
                }
                assert(out@ + replace_marker(contents@.skip(i + 1), rep@)
                    =~= before + (seq![rest[0]] + replace_marker(rest.skip(1), rep@)));
            }
            i = i + 1;
        }
    }
    proof {
        assert(contents@.skip(n as int).len() == 0);
        assert(out@ + replace_marker(contents@.skip(n as int), rep@) =~= out@);
    }
    out
}

proof fn lemma_template_index_is(ts: Seq<Template>, name: Seq<char>, k: int)
    requires
        0 <= k <= ts.len(),
        forall|j: int| 0 <= j < k ==> (#[trigger] ts[j]).name@ != name,
        k < ts.len() ==> ts[k].name@ == name,
    ensures
        template_index(ts, name) == k,
    decreases ts.len(),
{
    if ts.len() > 0 {
        let d = ts.drop_last();
        let k2 = if k < ts.len() - 1 { k } else { ts.len() - 1 };
        assert forall|j: int| 0 <= j < k2 implies (#[trigger] d[j]).name@ != name by {
            assert(d[j] == ts[j]);
        }
        lemma_template_index_is(d, name, k2);
    }
}

pub(crate) proof fn lemma_first_unrenderable_is(fs: Seq<TemplateFile>, k: int)
    requires
        0 <= k <= fs.len(),
        forall|j: int| 0 <= j < k ==> !is_unrenderable(#[trigger] fs[j]),
        k < fs.len() ==> is_unrenderable(fs[k]),
    ensures
        first_unrenderable(fs) == k,
    decreases fs.len(),
{
    if fs.len() > 0 {
        let d = fs.drop_last();
        let k2 = if k < fs.len() - 1 { k } else { fs.len() - 1 };
        assert forall|j: int| 0 <= j < k2 implies !is_unrenderable(#[trigger] d[j]) by {
            assert(d[j] == fs[j]);
        }
        lemma_first_unrenderable_is(d, k2);
    }
}

/// The files of the template `name`, with the escaped `title` written into
/// every `.tex` file.
///
/// The template name must be a valid report name and name an embedded template,
/// and every `.tex` file of the template must be UTF-8; where several of these
/// fail, the first in that order is reported.
pub fn template_files(templates: &[Template], name: &str, title: &str) -> (r: Result<
    Vec<TemplateFile>,
    CliError,
>)
    ensures
        !is_report_name(name@) ==> (r matches Err(e) && e@ == (
            ErrorKind::InvalidReportName,
            Seq::<char>::empty(),
        )),
        is_report_name(name@) && template_index(templates@, name@) == templates@.len() ==> (
        r matches Err(e) && e@ == (ErrorKind::UnknownTemplate, name@)),
        is_report_name(name@) && template_index(templates@, name@) < templates@.len() ==> ({
            let fs = templates@[template_index(templates@, name@)].files@;
            &&& first_unrenderable(fs) < fs.len() ==> (r matches Err(e) && e@ == (
                ErrorKind::TemplateNotUtf8,
                fs[first_unrenderable(fs)].path@,
            ))
            &&& first_unrenderable(fs) == fs.len() ==> (r matches Ok(out) && out@.len()
                == fs.len() && forall|i: int|
                0 <= i < fs.len() ==> {
                    &&& (#[trigger] out@[i]).path@ == fs[i].path@
                    &&& out@[i].contents@ == rendered(fs[i], title@)
                })
        }),
{
    if let Err(e) = validate_name(name) {
        return Err(e);
    }
    let wanted = String::from_str(name);
    let mut t: usize = 0;
    while t < templates.len() && templates[t].name != wanted
        invariant
            wanted@ == name@,
            t <= templates@.len(),
            forall|j: int| 0 <= j < t ==> (#[trigger] templates@[j]).name@ != name@,
        decreases templates@.len() - t,
    {
        t = t + 1;
    }
    proof {
        lemma_template_index_is(templates@, name@, t as int);
    }
    if t == templates.len() {
        return Err(CliError::about(ErrorKind::UnknownTemplate, name));
    }
    let template = &templates[t];
    let ghost fs = template.files@;
    let escaped = escape_tex(title);
    let rep = escaped.as_str().as_bytes();
    let mut out: Vec<TemplateFile> = Vec::new();
    let n = template.files.len();
    let mut i: usize = 0;
    while i < n
        invariant
            is_report_name(name@),
            t < templates@.len(),
            template_index(templates@, name@) == t,
            fs == templates@[t as int].files@,
            fs == template.files@,
            n == fs.len(),
            i <= n,
            rep@ == encode_utf8(escape(title@)),
            out@.len() == i,
            forall|j: int| 0 <= j < i ==> !is_unrenderable(#[trigger] fs[j]),
            forall|j: int| 0 <= j < i ==> {
                &&& (#[trigger] out@[j]).path@ == fs[j].path@
                &&& out@[j].contents@ == rendered(fs[j], title@)
            },
        decreases n - i,
    {
        let file = &template.files[i];
        let contents = if tex_path(file.path.as_str()) {
            if !is_valid_utf8(file.contents.as_slice()) {
                proof {
                    lemma_first_unrenderable_is(fs, i as int);
                }
                return Err(CliError::about(ErrorKind::TemplateNotUtf8, file.path.as_str()));
            }
            replace_title(file.contents.as_slice(), rep)
        } else {
            vstd::slice::slice_to_vec(file.contents.as_slice())
        };
        out.push(TemplateFile { path: file.path.clone(), contents });
        i = i + 1;
    }
    proof {
        lemma_first_unrenderable_is(fs, n as int);
    }
    Ok(out)
}

/// Bytes without `@` hold no placeholder and are kept as they are.
pub proof fn text_without_at_signs_is_kept(s: Seq<u8>, rep: Seq<u8>)
    requires
        forall|i: int| 0 <= i < s.len() ==> s[i] != 64u8,
    ensures
        replace_marker(s, rep) == s,
    decreases s.len(),
{
    if s.len() >= title_marker().len() {
        assert(s.take(9)[0] != title_marker()[0]);
        let r = s.skip(1);
        assert forall|i: int| 0 <= i < r.len() implies r[i] != 64u8 by {
            assert(r[i] == s[i + 1]);
        }
        text_without_at_signs_is_kept(r, rep);
        assert(s =~= seq![s[0]] + r);
    }
}

/// A placeholder `@@TITLE@@` at the start is replaced by the title, and the
/// rest is read on after it.
pub proof fn leading_placeholder_becomes_the_title(s: Seq<u8>, rep: Seq<u8>)
    ensures
        replace_marker(seq![64u8, 64, 84, 73, 84, 76, 69, 64, 64] + s, rep) == rep + replace_marker(s, rep),
{
    let m = seq![64u8, 64, 84, 73, 84, 76, 69, 64, 64];
    let t = m + s;
    assert(t.take(9) =~= m);
    assert(t.skip(9) =~= s);
}

/// Every byte of a file that is not a `.tex` file is kept, whatever the title.
pub proof fn other_files_are_copied_unchanged(f: TemplateFile, title: Seq<char>)
    requires
        !is_tex_path(f.path@),
    ensures
        rendered(f, title) == f.contents@,
{
}

/// A template is found by its exact name, and the first template of that name
/// is the one used; a name that no template has is unknown.
pub proof fn templates_are_found_by_their_first_exact_name(ts: Seq<Template>, name: Seq<char>, k: int)
    requires
        0 <= k <= ts.len(),
        forall|j: int| 0 <= j < k ==> (#[trigger] ts[j]).name@ != name,
        k < ts.len() ==> ts[k].name@ == name,
    ensures
        template_index(ts, name) == k,
{
    lemma_template_index_is(ts, name, k);
}

} // verus!
