//! Reading a catalog of report templates from its folder tree, and the rules
//! every catalog must satisfy.

use vstd::prelude::*;
use vstd::utf8::valid_utf8;
use crate::cli::{default_template, text_is};
use crate::error::{CliError, ErrorKind};
use crate::names::{is_portable, is_report_name, portable_component, report_name};
use crate::paths::{is_tex_path, tex_path};
use crate::templates::{
    first_unrenderable, is_unrenderable, is_valid_utf8, lemma_first_unrenderable_is, template_index,
    Template, TemplateFile,
};
use crate::text::push_char;

verus! {

/// What an entry of a folder is.
#[derive(Debug)]
pub enum Node {
    File(Vec<u8>),
    Folder(Vec<Entry>),
    /// Anything else, such as a symbolic link.
    Other,
}

/// One entry of a folder: its name and what it is.
#[derive(Debug)]
pub struct Entry {
    pub name: String,
    pub node: Node,
}

/// What `str::to_lowercase` returns for a text: its Unicode lower-case form.
pub uninterp spec fn unicode_lowercase(s: Seq<char>) -> Seq<char>;

/// `str::to_lowercase`. The contract names the result: the same text always
/// gives the same lower-case form. Which form Unicode's case mapping gives is
/// left unsaid.
#[verifier::external_body]
fn lowercase(s: &str) -> (r: String)
    ensures
        r@ == unicode_lowercase(s@),
{
    s.to_lowercase()
}

/// Names that are passed over wherever they stand: `.git`, `build`, `target`.
pub open spec fn is_skipped_name(n: Seq<char>) -> bool {
    ||| n == seq!['.', 'g', 'i', 't']
    ||| n == seq!['b', 'u', 'i', 'l', 'd']
    ||| n == seq!['t', 'a', 'r', 'g', 'e', 't']
}

/// Entry `i` of a listing has a portable name that differs from every earlier
/// name in more than letter case.
pub open spec fn name_is_sound(es: Seq<Entry>, i: int) -> bool {
    &&& is_portable(es[i].name@)
    &&& forall|j: int|
        0 <= j < i ==> unicode_lowercase((#[trigger] es[j]).name@) != unicode_lowercase(es[i].name@)
}

/// The index of the first entry of a listing whose name is not sound, or the
/// listing's length.
pub open spec fn listing_fault(es: Seq<Entry>) -> int
    decreases es.len(),
{
    if es.len() == 0 {
        0
    } else if listing_fault(es.drop_last()) < es.len() - 1 {
        listing_fault(es.drop_last())
    } else if !name_is_sound(es, es.len() - 1) {
        es.len() - 1
    } else {
        es.len() as int
    }
}

/// A template file as the catalog yields it: its path relative to the
/// template folder, with `/` separators, and its bytes.
pub open spec fn file_view(f: TemplateFile) -> (Seq<char>, Seq<u8>) {
    (f.path@, f.contents@)
}

pub open spec fn file_views(fs: Seq<TemplateFile>) -> Seq<(Seq<char>, Seq<u8>)> {
    fs.map_values(|f: TemplateFile| file_view(f))
}

/// A template as the catalog yields it: its name and its files.
pub open spec fn template_view(t: Template) -> (Seq<char>, Seq<(Seq<char>, Seq<u8>)>) {
    (t.name@, file_views(t.files@))
}

pub open spec fn template_views(ts: Seq<Template>) -> Seq<(Seq<char>, Seq<(Seq<char>, Seq<u8>)>)> {
    ts.map_values(|t: Template| template_view(t))
}

/// `acc` followed by the files of `r`, or the error of `r`.
pub open spec fn after<A>(acc: Seq<A>, r: Result<Seq<A>, (ErrorKind, Seq<char>)>) -> Result<
    Seq<A>,
    (ErrorKind, Seq<char>),
> {
    match r {
        Ok(g) => Ok(acc + g),
        Err(e) => Err(e),
    }
}

/// The path of an entry in the catalog: the template's name, then its path
/// inside the template folder.
pub open spec fn catalog_path(template: Seq<char>, path: Seq<char>) -> Seq<char> {
    template + seq!['/'] + path
}

/// Walks the entries `es` of the folder `dir` (a path inside the template
/// `template` that is empty or ends in `/`), in order. Where `fresh`, the
/// names of the listing are examined first. Entries named `.git`, `build` or
/// `target` are passed over; a folder is walked in its turn; a file is taken,
/// and a `.tex` file must be UTF-8; anything else is refused. The result is
/// every file taken, in walk order, or the first fault met.
pub open spec fn walk(es: Seq<Entry>, template: Seq<char>, dir: Seq<char>, fresh: bool) -> Result<
    Seq<(Seq<char>, Seq<u8>)>,
    (ErrorKind, Seq<char>),
>
    decreases es, if fresh { 1int } else { 0int },
{
    if fresh {
        let k = listing_fault(es);
        if 0 <= k < es.len() {
            Err((ErrorKind::NonPortablePath, catalog_path(template, dir + es[k].name@)))
        } else {
            walk(es, template, dir, false)
        }
    } else if es.len() == 0 {
        Ok(Seq::empty())
    } else {
        let e = es[0];
        let path = dir + e.name@;
        let rest = walk(es.drop_first(), template, dir, false);
        if is_skipped_name(e.name@) {
            rest
        } else {
            match e.node {
                Node::Folder(children) => match walk(children@, template, path + seq!['/'], true) {
                    Ok(fs) => after(fs, rest),
                    Err(x) => Err(x),
                },
                Node::File(bytes) => if is_tex_path(path) && !valid_utf8(bytes@) {
                    Err((ErrorKind::TemplateNotUtf8, catalog_path(template, path)))
                } else {
                    after(seq![(path, bytes@)], rest)
                },
                Node::Other => Err((ErrorKind::UnsupportedTemplateFile, catalog_path(template, path))),
            }
        }
    }
}

pub open spec fn main_tex() -> Seq<char> {
    seq!['m', 'a', 'i', 'n', '.', 't', 'e', 'x']
}

/// Whether a template's files include `main.tex`.
pub open spec fn has_main_tex(fs: Seq<(Seq<char>, Seq<u8>)>) -> bool {
    exists|k: int| 0 <= k < fs.len() && (#[trigger] fs[k]).0 == main_tex()
}

/// Reads the top-level entries of a catalog in order: `.git`, `build`,
/// `target` and files are passed over, anything else but a folder is refused,
/// and each folder is a template whose name must be a report name, whose tree
/// is walked, and which must hold `main.tex`.
pub open spec fn read_templates(src: Seq<Entry>) -> Result<
    Seq<(Seq<char>, Seq<(Seq<char>, Seq<u8>)>)>,
    (ErrorKind, Seq<char>),
>
    decreases src.len(),
{
    if src.len() == 0 {
        Ok(Seq::empty())
    } else {
        let e = src[0];
        let rest = read_templates(src.drop_first());
        if is_skipped_name(e.name@) {
            rest
        } else {
            match e.node {
                Node::File(_) => rest,
                Node::Other => Err((ErrorKind::UnsupportedTemplateEntry, e.name@)),
                Node::Folder(children) => if !is_report_name(e.name@) {
                    Err((ErrorKind::InvalidTemplateName, e.name@))
                } else {
                    match walk(children@, e.name@, Seq::empty(), true) {
                        Err(x) => Err(x),
                        Ok(fs) => if !has_main_tex(fs) {
                            Err((ErrorKind::MissingMainTex, e.name@))
                        } else {
                            after(seq![(e.name@, fs)], rest)
                        },
                    }
                },
            }
        }
    }
}

/// The catalog that the top-level entries `src` describe: first their names
/// are examined, then the templates are read in order, and last a `default`
/// template must be among them. The first fault met is reported.
pub open spec fn catalog_of(src: Seq<Entry>) -> Result<
    Seq<(Seq<char>, Seq<(Seq<char>, Seq<u8>)>)>,
    (ErrorKind, Seq<char>),
> {
    let k = listing_fault(src);
    if 0 <= k < src.len() {
        Err((ErrorKind::NonPortablePath, src[k].name@))
    } else {
        match read_templates(src) {
            Err(x) => Err(x),
            Ok(ts) => if exists|i: int| 0 <= i < ts.len() && (#[trigger] ts[i]).0 == default_template() {
                Ok(ts)
            } else {
                Err((ErrorKind::MissingDefault, Seq::empty()))
            },
        }
    }
}

proof fn lemma_name_sound_in_prefix(es: Seq<Entry>, m: int, j: int)
    requires
        0 <= j < m <= es.len(),
    ensures
        name_is_sound(es.take(m), j) == name_is_sound(es, j),
{
    let d = es.take(m);
    assert(d[j] == es[j]);
    if name_is_sound(es, j) {
        assert forall|x: int| 0 <= x < j implies unicode_lowercase((#[trigger] d[x]).name@)
            != unicode_lowercase(d[j].name@) by {
            assert(d[x] == es[x]);
        }
    }
    if name_is_sound(d, j) {
        assert forall|x: int| 0 <= x < j implies unicode_lowercase((#[trigger] es[x]).name@)
            != unicode_lowercase(es[j].name@) by {
            assert(d[x] == es[x]);
        }
    }
}

proof fn lemma_listing_fault_is(es: Seq<Entry>, k: int)
    requires
        0 <= k <= es.len(),
        forall|j: int| 0 <= j < k ==> name_is_sound(es, j),
        k < es.len() ==> !name_is_sound(es, k),
    ensures
        listing_fault(es) == k,
    decreases es.len(),
{
    if es.len() > 0 {
        let d = es.drop_last();
        assert(d =~= es.take(es.len() - 1));
        let k2 = if k < es.len() - 1 { k } else { es.len() - 1 };
        assert forall|j: int| 0 <= j < k2 implies name_is_sound(d, j) by {
            lemma_name_sound_in_prefix(es, es.len() - 1, j);
        }
        if k2 < d.len() {
            lemma_name_sound_in_prefix(es, es.len() - 1, k2);
        }
        lemma_listing_fault_is(d, k2);
    }
}

/// The index of the first entry of a listing whose name is not sound.
fn listing_fault_of(es: &Vec<Entry>) -> (r: usize)
    ensures
        r == listing_fault(es@),
        r <= es@.len(),
{
    let n = es.len();
    let mut lows: Vec<String> = Vec::new();
    let mut i: usize = 0;
    while i < n
        invariant
            n == es@.len(),
            i <= n,
            lows@.len() == i,
            forall|j: int| 0 <= j < i ==> (#[trigger] lows@[j])@ == unicode_lowercase(es@[j].name@),
            forall|j: int| 0 <= j < i ==> name_is_sound(es@, j),
        decreases n - i,
    {
        if !portable_component(es[i].name.as_str()) {
            proof {
                lemma_listing_fault_is(es@, i as int);
            }
            return i;
        }
        let low = lowercase(es[i].name.as_str());
        let mut j: usize = 0;
        while j < i
            invariant
                n == es@.len(),
                i < n,
                j <= i,
                lows@.len() == i,
                low@ == unicode_lowercase(es@[i as int].name@),
                forall|x: int| 0 <= x < i ==> (#[trigger] lows@[x])@ == unicode_lowercase(es@[x].name@),
                forall|x: int| 0 <= x < i ==> name_is_sound(es@, x),
                forall|x: int| 0 <= x < j ==> unicode_lowercase((#[trigger] es@[x]).name@)
                    != unicode_lowercase(es@[i as int].name@),
            decreases i - j,
        {
            if lows[j] == low {
                proof {
                    assert(lows@[j as int]@ == unicode_lowercase(es@[j as int].name@));
                    lemma_listing_fault_is(es@, i as int);
                }
                return i;
            }
            assert(lows@[j as int]@ == unicode_lowercase(es@[j as int].name@));
            j = j + 1;
        }
        assert(name_is_sound(es@, i as int));
        lows.push(low);
        i = i + 1;
    }
    proof {
        lemma_listing_fault_is(es@, n as int);
    }
    n
}

/// Whether `name` is passed over in a catalog.
fn skipped_name(name: &str) -> (r: bool)
    ensures
        r == is_skipped_name(name@),
{
    let w1 = ['.', 'g', 'i', 't'];
    let w2 = ['b', 'u', 'i', 'l', 'd'];
    let w3 = ['t', 'a', 'r', 'g', 'e', 't'];
    assert(w1@ == seq!['.', 'g', 'i', 't']);
    assert(w2@ == seq!['b', 'u', 'i', 'l', 'd']);
    assert(w3@ == seq!['t', 'a', 'r', 'g', 'e', 't']);
    text_is(name, &w1) || text_is(name, &w2) || text_is(name, &w3)
}

/// The text `a` followed by `b`.
fn concat(a: &str, b: &str) -> (r: String)
    ensures
        r@ == a@ + b@,
{
    let mut s = String::from_str(a);
    s.append(b);
    s
}

/// The path `template/path` of an entry in the catalog.
fn path_in_catalog(template: &str, path: &str) -> (r: String)
    ensures
        r@ == catalog_path(template@, path@),
{
    let mut s = String::from_str(template);
    push_char(&mut s, '/');
    s.append(path);
    s
}

proof fn lemma_after_after<A>(a: Seq<A>, b: Seq<A>, r: Result<Seq<A>, (ErrorKind, Seq<char>)>)
    ensures
        after(a, after(b, r)) == after(a + b, r),
{
    if let Ok(g) = r {
        assert(a + (b + g) =~= (a + b) + g);
    }
}

/// Walk the entries `es` of the folder `dir` inside the template `template`.
fn walk_folder(es: &Vec<Entry>, template: &str, dir: &str) -> (r: Result<Vec<TemplateFile>, CliError>)
    ensures
        match walk(es@, template@, dir@, true) {
            Ok(fs) => (r matches Ok(v) && file_views(v@) == fs),
            Err(x) => (r matches Err(e) && e@ == x),
        },
    decreases es@,
{
    let k = listing_fault_of(es);
    if k < es.len() {
        let path = concat(dir, es[k].name.as_str());
        let detail = path_in_catalog(template, path.as_str());
        return Err(CliError { kind: ErrorKind::NonPortablePath, detail });
    }
    let ghost t = template@;
    let ghost d = dir@;
    let n = es.len();
    let mut out: Vec<TemplateFile> = Vec::new();
    let mut i: usize = 0;
    proof {
        assert(es@.skip(0) =~= es@);
        assert(file_views(out@) =~= Seq::<(Seq<char>, Seq<u8>)>::empty());
        lemma_after_empty(walk(es@, t, d, false));
    }
    while i < n
        invariant
            n == es@.len(),
            t == template@,
            d == dir@,
            i <= n,
            walk(es@, t, d, true) == after(file_views(out@), walk(es@.skip(i as int), t, d, false)),
        decreases n - i,
    {
        let e = &es[i];
        let ghost rest_seq = es@.skip(i as int);
        proof {
            assert(rest_seq[0] == es@[i as int]);
            assert(rest_seq.drop_first() =~= es@.skip(i + 1));
        }
        let ghost rest = walk(es@.skip(i + 1), t, d, false);
        let skipped = skipped_name(e.name.as_str());
        if !skipped {
            let path = concat(dir, e.name.as_str());
            match &e.node {
                Node::Folder(children) => {
                    proof {
                        assert(decreases_to!(es@ => es@[i as int]));
                        assert(decreases_to!(es@[i as int] => es@[i as int].node));
                        assert(decreases_to!(children => children@));
                    }
                    let mut sub = path.clone();
                    push_char(&mut sub, '/');
                    proof {
                        assert(path@ == d + es@[i as int].name@);
                        assert(sub@ == path@ + seq!['/']);
                        assert(es@[i as int].node == Node::Folder(*children));
                        assert(!is_skipped_name(rest_seq[0].name@));
                        assert(walk(rest_seq, t, d, false) == match walk(children@, t, sub@, true) {
                            Ok(fs) => after(fs, rest),
                            Err(x) => Err(x),
                        });
                    }
                    match walk_folder(children, template, sub.as_str()) {
                        Err(x) => {
                            return Err(x);
                        },
                        Ok(mut fs) => {
                            let ghost before = file_views(out@);
                            let ghost got = file_views(fs@);
                            out.append(&mut fs);
                            proof {
                                assert(file_views(out@) =~= before + got);
                                lemma_after_after(before, got, rest);
                            }
                        },
                    }
                },
                Node::File(bytes) => {
                    if tex_path(path.as_str()) && !is_valid_utf8(bytes.as_slice()) {
                        let detail = path_in_catalog(template, path.as_str());
                        return Err(CliError { kind: ErrorKind::TemplateNotUtf8, detail });
                    }
                    let ghost before = file_views(out@);
                    let file = TemplateFile { path, contents: vstd::slice::slice_to_vec(bytes.as_slice()) };
                    let ghost one = seq![file_view(file)];
                    out.push(file);
                    proof {
                        assert(file_views(out@) =~= before + one);
                        lemma_after_after(before, one, rest);
                    }
                },
                Node::Other => {
                    let detail = path_in_catalog(template, path.as_str());
                    return Err(CliError { kind: ErrorKind::UnsupportedTemplateFile, detail });
                },
            }
        }
        i = i + 1;
    }
    proof {
        assert(es@.skip(n as int) =~= Seq::<Entry>::empty());
        assert(file_views(out@) + Seq::<(Seq<char>, Seq<u8>)>::empty() =~= file_views(out@));
    }
    Ok(out)
}

proof fn lemma_after_empty<A>(r: Result<Seq<A>, (ErrorKind, Seq<char>)>)
    ensures
        after(Seq::<A>::empty(), r) == r,
{
    if let Ok(g) = r {
        assert(Seq::<A>::empty() + g =~= g);
    }
}

/// Whether some file is `main.tex`.
fn holds_main_tex(files: &Vec<TemplateFile>) -> (r: bool)
    ensures
        r == has_main_tex(file_views(files@)),
{
    let ghost fv = file_views(files@);
    let main = ['m', 'a', 'i', 'n', '.', 't', 'e', 'x'];
    assert(main@ == main_tex());
    let n = files.len();
    let mut k: usize = 0;
    while k < n
        invariant
            n == files@.len(),
            fv == file_views(files@),
            k <= n,
            main@ == main_tex(),
            forall|j: int| 0 <= j < k ==> (#[trigger] fv[j]).0 != main_tex(),
        decreases n - k,
    {
        assert(fv[k as int] == file_view(files@[k as int]));
        if text_is(files[k].path.as_str(), &main) {
            return true;
        }
        k = k + 1;
    }
    false
}

/// Read the template catalog whose top-level entries are `source`, listed in
/// the order of their names.
pub fn build_catalog(source: &Vec<Entry>) -> (r: Result<Vec<Template>, CliError>)
    ensures
        match catalog_of(source@) {
            Ok(ts) => (r matches Ok(v) && template_views(v@) == ts),
            Err(x) => (r matches Err(e) && e@ == x),
        },
{
    let k = listing_fault_of(source);
    if k < source.len() {
        return Err(CliError { kind: ErrorKind::NonPortablePath, detail: source[k].name.clone() });
    }
    let ghost src = source@;
    let n = source.len();
    let mut out: Vec<Template> = Vec::new();
    let mut i: usize = 0;
    proof {
        assert(src.skip(0) =~= src);
        assert(template_views(out@) =~= Seq::<(Seq<char>, Seq<(Seq<char>, Seq<u8>)>)>::empty());
        lemma_after_empty(read_templates(src));
    }
    while i < n
        invariant
            src == source@,
            n == src.len(),
            i <= n,
            listing_fault(src) == src.len(),
            read_templates(src) == after(template_views(out@), read_templates(src.skip(i as int))),
        decreases n - i,
    {
        let e = &source[i];
        let ghost rest_seq = src.skip(i as int);
        proof {
            assert(rest_seq[0] == src[i as int]);
            assert(rest_seq.drop_first() =~= src.skip(i + 1));
        }
        let ghost rest = read_templates(src.skip(i + 1));
        if !skipped_name(e.name.as_str()) {
            match &e.node {
                Node::File(_) => {},
                Node::Other => {
                    return Err(CliError::about(ErrorKind::UnsupportedTemplateEntry, e.name.as_str()));
                },
                Node::Folder(children) => {
                    if !report_name(e.name.as_str()) {
                        return Err(CliError::about(ErrorKind::InvalidTemplateName, e.name.as_str()));
                    }
                    let top = String::new();
                    proof {
                        assert(src[i as int].node == Node::Folder(*children));
                        assert(read_templates(rest_seq) == match walk(children@, e.name@, top@, true) {
                            Err(x) => Err(x),
                            Ok(fs) => if !has_main_tex(fs) {
                                Err((ErrorKind::MissingMainTex, e.name@))
                            } else {
                                after(seq![(e.name@, fs)], rest)
                            },
                        });
                    }
                    match walk_folder(children, e.name.as_str(), top.as_str()) {
                        Err(x) => {
                            return Err(x);
                        },
                        Ok(files) => {
                            if !holds_main_tex(&files) {
                                return Err(CliError::about(ErrorKind::MissingMainTex, e.name.as_str()));
                            }
                            let ghost before = template_views(out@);
                            let t = Template { name: e.name.clone(), files };
                            let ghost one = seq![template_view(t)];
                            out.push(t);
                            proof {
                                assert(template_views(out@) =~= before + one);
                                lemma_after_after(before, one, rest);
                            }
                        },
                    }
                },
            }
        }
        i = i + 1;
    }
    proof {
        assert(src.skip(n as int) =~= Seq::<Entry>::empty());
        assert(template_views(out@) + Seq::<(Seq<char>, Seq<(Seq<char>, Seq<u8>)>)>::empty()
            =~= template_views(out@));
    }
    let ghost tv = template_views(out@);
    let default = ['d', 'e', 'f', 'a', 'u', 'l', 't'];
    assert(default@ == default_template());
    let m = out.len();
    let mut d: usize = 0;
    while d < m
        invariant
            m == out@.len(),
            tv == template_views(out@),
            src == source@,
            listing_fault(src) == src.len(),
            read_templates(src) == Ok::<Seq<(Seq<char>, Seq<(Seq<char>, Seq<u8>)>)>, (ErrorKind, Seq<char>)>(tv),
            d <= m,
            default@ == default_template(),
            forall|j: int| 0 <= j < d ==> (#[trigger] tv[j]).0 != default_template(),
        decreases m - d,
    {
        assert(tv[d as int] == template_view(out@[d as int]));
        if text_is(out[d].name.as_str(), &default) {
            assert(tv[d as int].0 == default_template());
            return Ok(out);
        }
        d = d + 1;
    }
    Err(CliError::new(ErrorKind::MissingDefault))
}

/// Every `.tex` file among `fs` is UTF-8.
pub open spec fn all_renderable(fs: Seq<(Seq<char>, Seq<u8>)>) -> bool {
    forall|k: int| 0 <= k < fs.len() && is_tex_path((#[trigger] fs[k]).0) ==> valid_utf8(fs[k].1)
}

proof fn lemma_after_renderable(a: Seq<(Seq<char>, Seq<u8>)>, r: Result<Seq<(Seq<char>, Seq<u8>)>, (ErrorKind, Seq<char>)>)
    requires
        all_renderable(a),
        r matches Ok(g) ==> all_renderable(g),
    ensures
        after(a, r) matches Ok(h) ==> all_renderable(h),
{
    if let Ok(g) = r {
        let h = a + g;
        assert forall|k: int| 0 <= k < h.len() && is_tex_path((#[trigger] h[k]).0) implies valid_utf8(h[k].1) by {
            if k < a.len() {
                assert(h[k] == a[k]);
            } else {
                assert(h[k] == g[k - a.len()]);
            }
        }
    }
}

proof fn lemma_walk_renderable(es: Seq<Entry>, template: Seq<char>, dir: Seq<char>, fresh: bool)
    ensures
        walk(es, template, dir, fresh) matches Ok(fs) ==> all_renderable(fs),
    decreases es, if fresh { 1int } else { 0int },
{
    if fresh {
        lemma_walk_renderable(es, template, dir, false);
    } else if es.len() > 0 {
        let e = es[0];
        let path = dir + e.name@;
        lemma_walk_renderable(es.drop_first(), template, dir, false);
        let rest = walk(es.drop_first(), template, dir, false);
        if !is_skipped_name(e.name@) {
            match e.node {
                Node::Folder(children) => {
                    assert(decreases_to!(es => es[0]));
                    lemma_walk_renderable(children@, template, path + seq!['/'], true);
                    if let Ok(fs) = walk(children@, template, path + seq!['/'], true) {
                        lemma_after_renderable(fs, rest);
                    }
                },
                Node::File(bytes) => {
                    if !(is_tex_path(path) && !valid_utf8(bytes@)) {
                        let one = seq![(path, bytes@)];
                        assert forall|k: int| 0 <= k < one.len() && is_tex_path((#[trigger] one[k]).0) implies valid_utf8(one[k].1) by {
                            assert(one[k] == (path, bytes@));
                        }
                        lemma_after_renderable(one, rest);
                    }
                },
                Node::Other => {},
            }
        }
    }
}

/// What a template of the catalog must satisfy.
pub open spec fn is_sound_template(t: (Seq<char>, Seq<(Seq<char>, Seq<u8>)>)) -> bool {
    is_report_name(t.0) && has_main_tex(t.1) && all_renderable(t.1)
}

proof fn lemma_read_templates_sound(src: Seq<Entry>)
    ensures
        read_templates(src) matches Ok(ts) ==> forall|j: int|
            0 <= j < ts.len() ==> is_sound_template(#[trigger] ts[j]),
    decreases src.len(),
{
    if src.len() > 0 {
        let e = src[0];
        lemma_read_templates_sound(src.drop_first());
        if !is_skipped_name(e.name@) {
            if let Node::Folder(children) = e.node {
                lemma_walk_renderable(children@, e.name@, Seq::empty(), true);
                let walked = walk(children@, e.name@, Seq::empty(), true);
                let rest = read_templates(src.drop_first());
                if walked is Ok && rest is Ok && is_report_name(e.name@) && has_main_tex(
                    walked->Ok_0,
                ) {
                    let g = rest->Ok_0;
                    let h = seq![(e.name@, walked->Ok_0)] + g;
                    assert forall|j: int| 0 <= j < h.len() implies is_sound_template(#[trigger] h[j]) by {
                        if j > 0 {
                            assert(h[j] == g[j - 1]);
                        }
                    }
                }
            }
        }
    }
}

proof fn lemma_template_index_bounds(ts: Seq<Template>, name: Seq<char>)
    ensures
        0 <= template_index(ts, name) <= ts.len(),
    decreases ts.len(),
{
    if ts.len() > 0 {
        lemma_template_index_bounds(ts.drop_last(), name);
    }
}

proof fn lemma_template_index_found(ts: Seq<Template>, name: Seq<char>, j: int)
    requires
        0 <= j < ts.len(),
        ts[j].name@ == name,
    ensures
        0 <= template_index(ts, name) <= j,
        ts[template_index(ts, name)].name@ == name,
    decreases ts.len(),
{
    let d = ts.drop_last();
    lemma_template_index_bounds(d, name);
    if j < ts.len() - 1 {
        lemma_template_index_found(d, name, j);
        assert(d[template_index(d, name)] == ts[template_index(d, name)]);
    } else {
        if template_index(d, name) < d.len() {
            lemma_template_index_found_any(d, name);
            assert(d[template_index(d, name)] == ts[template_index(d, name)]);
        }
    }
}

proof fn lemma_template_index_found_any(ts: Seq<Template>, name: Seq<char>)
    requires
        template_index(ts, name) < ts.len(),
    ensures
        template_index(ts, name) >= 0,
        ts[template_index(ts, name)].name@ == name,
    decreases ts.len(),
{
    let d = ts.drop_last();
    lemma_template_index_bounds(d, name);
    if template_index(d, name) < d.len() {
        lemma_template_index_found_any(d, name);
        assert(d[template_index(d, name)] == ts[template_index(d, name)]);
    }
}

/// Every template of an accepted catalog can be asked for by its name, and the
/// template found under that name gives every report its files: its name is a
/// report name, all its `.tex` files are UTF-8 and it has a `main.tex`. The
/// `default` template is among them.
pub proof fn accepted_catalogs_serve_every_template(src: Seq<Entry>, ts: Seq<Template>, i: int)
    requires
        catalog_of(src) == Ok::<Seq<(Seq<char>, Seq<(Seq<char>, Seq<u8>)>)>, (ErrorKind, Seq<char>)>(
            template_views(ts),
        ),
        0 <= i < ts.len(),
    ensures
        is_report_name(ts[i].name@),
        template_index(ts, ts[i].name@) < ts.len(),
        ({
            let t = ts[template_index(ts, ts[i].name@)];
            &&& first_unrenderable(t.files@) == t.files@.len()
            &&& exists|k: int| 0 <= k < t.files@.len() && (#[trigger] t.files@[k]).path@ == main_tex()
        }),
        template_index(ts, default_template()) < ts.len(),
{
    let tv = template_views(ts);
    lemma_read_templates_sound(src);
    assert(read_templates(src) == Ok::<Seq<(Seq<char>, Seq<(Seq<char>, Seq<u8>)>)>, (ErrorKind, Seq<char>)>(tv));
    assert(is_sound_template(tv[i]));
    lemma_template_index_found(ts, ts[i].name@, i);
    let k = template_index(ts, ts[i].name@);
    let t = ts[k];
    assert(tv[k] == template_view(t));
    assert(is_sound_template(tv[k]));
    let fv = file_views(t.files@);
    assert forall|j: int| 0 <= j < t.files@.len() implies !is_unrenderable(#[trigger] t.files@[j]) by {
        assert(fv[j] == file_view(t.files@[j]));
    }
    lemma_first_unrenderable_is(t.files@, t.files@.len() as int);
    let m = choose|m: int| 0 <= m < fv.len() && (#[trigger] fv[m]).0 == main_tex();
    assert(fv[m] == file_view(t.files@[m]));
    let w = choose|w: int| 0 <= w < tv.len() && (#[trigger] tv[w]).0 == default_template();
    assert(tv[w] == template_view(ts[w]));
    lemma_template_index_found(ts, default_template(), w);
}

/// A file of a template folder is taken, with its path and its bytes
/// unchanged, unless it is named `.git`, `build` or `target`; a `.tex` file is
/// taken only where it is UTF-8. Other names, those that start with `.` among
/// them, are never passed over.
pub proof fn files_are_taken_unless_named_git_build_or_target(
    e: Entry,
    es: Seq<Entry>,
    template: Seq<char>,
    dir: Seq<char>,
    bytes: Vec<u8>,
)
    requires
        e.node == Node::File(bytes),
        e.name@ != seq!['.', 'g', 'i', 't'],
        e.name@ != seq!['b', 'u', 'i', 'l', 'd'],
        e.name@ != seq!['t', 'a', 'r', 'g', 'e', 't'],
        !(is_tex_path(dir + e.name@) && !valid_utf8(bytes@)),
    ensures
        walk(seq![e] + es, template, dir, false) == after(
            seq![(dir + e.name@, bytes@)],
            walk(es, template, dir, false),
        ),
{
    let l = seq![e] + es;
    assert(l[0] == e);
    assert(l.drop_first() =~= es);
}

/// Entries named `.git`, `build` or `target` are passed over, whatever they are.
pub proof fn git_build_and_target_are_passed_over(
    e: Entry,
    es: Seq<Entry>,
    template: Seq<char>,
    dir: Seq<char>,
)
    requires
        e.name@ == seq!['.', 'g', 'i', 't'] || e.name@ == seq!['b', 'u', 'i', 'l', 'd'] || e.name@
            == seq!['t', 'a', 'r', 'g', 'e', 't'],
    ensures
        walk(seq![e] + es, template, dir, false) == walk(es, template, dir, false),
{
    let l = seq![e] + es;
    assert(l[0] == e);
    assert(l.drop_first() =~= es);
}

/// A listing whose names are all portable and pairwise distinct in lower case
/// is walked without complaint about its names.
pub proof fn sound_listings_pass_the_name_check(es: Seq<Entry>, template: Seq<char>, dir: Seq<char>)
    requires
        forall|i: int| 0 <= i < es.len() ==> is_portable((#[trigger] es[i]).name@),
        forall|i: int, j: int|
            0 <= j < i < es.len() ==> unicode_lowercase((#[trigger] es[j]).name@) != unicode_lowercase(
                (#[trigger] es[i]).name@,
            ),
    ensures
        walk(es, template, dir, true) == walk(es, template, dir, false),
{
    assert forall|i: int| 0 <= i < es.len() implies name_is_sound(es, i) by {
        assert forall|j: int| 0 <= j < i implies unicode_lowercase((#[trigger] es[j]).name@)
            != unicode_lowercase(es[i].name@) by {}
    }
    lemma_listing_fault_is(es, es.len() as int);
}

/// A template must hold a file whose path is exactly `main.tex`, and an
/// accepted catalog holds a template named exactly `default`.
pub proof fn main_tex_and_default_are_required(
    fs: Seq<(Seq<char>, Seq<u8>)>,
    src: Seq<Entry>,
)
    ensures
        has_main_tex(fs) <==> exists|k: int|
            0 <= k < fs.len() && (#[trigger] fs[k]).0 == seq!['m', 'a', 'i', 'n', '.', 't', 'e', 'x'],
        catalog_of(src) matches Ok(ts) ==> exists|i: int|
            0 <= i < ts.len() && (#[trigger] ts[i]).0 == seq!['d', 'e', 'f', 'a', 'u', 'l', 't'],
{
}

/// A folder's files are those of its own entries, found under its name
/// followed by `/`; anything that is neither file nor folder is refused.
pub proof fn folders_are_walked_in_their_turn(
    e: Entry,
    es: Seq<Entry>,
    template: Seq<char>,
    dir: Seq<char>,
)
    requires
        !is_skipped_name(e.name@),
    ensures
        e.node matches Node::Folder(children) ==> walk(seq![e] + es, template, dir, false) == match walk(
            children@,
            template,
            dir + e.name@ + seq!['/'],
            true,
        ) {
            Ok(fs) => after(fs, walk(es, template, dir, false)),
            Err(x) => Err(x),
        },
        e.node is Other ==> walk(seq![e] + es, template, dir, false) == Err::<
            Seq<(Seq<char>, Seq<u8>)>,
            (ErrorKind, Seq<char>),
        >((ErrorKind::UnsupportedTemplateFile, template + seq!['/'] + dir + e.name@)),
{
    let l = seq![e] + es;
    assert(l[0] == e);
    assert(l.drop_first() =~= es);
    assert(template + seq!['/'] + (dir + e.name@) =~= template + seq!['/'] + dir + e.name@);
}

/// In a listing, a name that is not portable, or that equals an earlier name
/// in lower case, is refused with its path.
pub proof fn clashing_names_are_refused(a: Entry, b: Entry, template: Seq<char>, dir: Seq<char>)
    requires
        is_portable(a.name@),
        !is_portable(b.name@) || unicode_lowercase(a.name@) == unicode_lowercase(b.name@),
    ensures
        walk(seq![a, b], template, dir, true) == Err::<Seq<(Seq<char>, Seq<u8>)>, (ErrorKind, Seq<char>)>(
            (ErrorKind::NonPortablePath, template + seq!['/'] + dir + b.name@),
        ),
{
    let l = seq![a, b];
    assert(l[0] == a && l[1] == b);
    assert forall|j: int| 0 <= j < 0 implies unicode_lowercase((#[trigger] l[j]).name@)
        != unicode_lowercase(l[0].name@) by {}
    assert(name_is_sound(l, 0));
    assert(!name_is_sound(l, 1));
    lemma_listing_fault_is(l, 1);
    assert(template + seq!['/'] + (dir + b.name@) =~= template + seq!['/'] + dir + b.name@);
}

/// At the top of the catalog, files and `.git`, `build`, `target` are passed
/// over, anything that is neither file nor folder is refused with its name, and
/// a folder whose name is no report name is refused with its name.
pub proof fn top_level_entries_are_read_in_turn(e: Entry, es: Seq<Entry>)
    ensures
        is_skipped_name(e.name@) ==> read_templates(seq![e] + es) == read_templates(es),
        !is_skipped_name(e.name@) && e.node is File ==> read_templates(seq![e] + es) == read_templates(es),
        !is_skipped_name(e.name@) && e.node is Other ==> read_templates(seq![e] + es) == Err::<
            Seq<(Seq<char>, Seq<(Seq<char>, Seq<u8>)>)>,
            (ErrorKind, Seq<char>),
        >((ErrorKind::UnsupportedTemplateEntry, e.name@)),
        !is_skipped_name(e.name@) && e.node is Folder && !is_report_name(e.name@) ==> read_templates(
            seq![e] + es,
        ) == Err::<Seq<(Seq<char>, Seq<(Seq<char>, Seq<u8>)>)>, (ErrorKind, Seq<char>)>(
            (ErrorKind::InvalidTemplateName, e.name@),
        ),
{
    let l = seq![e] + es;
    assert(l[0] == e);
    assert(l.drop_first() =~= es);
}

} // verus!
