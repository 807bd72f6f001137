//! The decisions the command line makes before any file is touched.

use vstd::prelude::*;
use crate::error::{CliError, ErrorKind};
use crate::text::chars_of;

verus! {

/// The texts of some string slices.
pub open spec fn texts(args: Seq<&str>) -> Seq<Seq<char>> {
    args.map_values(|a: &str| a@)
}

pub open spec fn template_short() -> Seq<char> {
    seq!['-', 't']
}

pub open spec fn template_long() -> Seq<char> {
    seq!['-', '-', 't', 'e', 'm', 'p', 'l', 'a', 't', 'e']
}

/// The template used when `new` names none.
pub open spec fn default_template() -> Seq<char> {
    seq!['d', 'e', 'f', 'a', 'u', 'l', 't']
}

/// `-t` or `--template`.
pub open spec fn is_template_flag(a: Seq<char>) -> bool {
    a == template_short() || a == template_long()
}

pub open spec fn starts_with_dash(a: Seq<char>) -> bool {
    a.len() > 0 && a[0] == '-'
}

/// Reads the arguments of `new` from left to right, collecting positional
/// arguments after `pos` and the template option after `template`.
pub open spec fn scan_new(rest: Seq<Seq<char>>, pos: Seq<Seq<char>>, template: Option<Seq<char>>) -> Result<
    (Seq<Seq<char>>, Option<Seq<char>>),
    (ErrorKind, Seq<char>),
>
    decreases rest.len(),
{
    if rest.len() == 0 {
        Ok((pos, template))
    } else if is_template_flag(rest[0]) {
        if template is Some {
            Err((ErrorKind::DuplicateTemplateOption, Seq::empty()))
        } else if rest.len() < 2 {
            Err((ErrorKind::MissingTemplateName, Seq::empty()))
        } else {
            scan_new(rest.skip(2), pos, Some(rest[1]))
        }
    } else if starts_with_dash(rest[0]) {
        Err((ErrorKind::UnknownOption, rest[0]))
    } else {
        scan_new(rest.skip(1), pos.push(rest[0]), template)
    }
}

/// What `new NAME [TITLE] [--template NAME]` asks for: the report name, its
/// title (the name where none is given) and the template (`default` where none
/// is given), or why the arguments are refused.
pub open spec fn new_request(args: Seq<Seq<char>>) -> Result<
    (Seq<char>, Seq<char>, Seq<char>),
    (ErrorKind, Seq<char>),
> {
    match scan_new(args, Seq::empty(), None) {
        Err(e) => Err(e),
        Ok((pos, template)) => {
            let t = match template {
                Some(t) => t,
                None => default_template(),
            };
            if pos.len() == 1 {
                Ok((pos[0], pos[0], t))
            } else if pos.len() == 2 {
                Ok((pos[0], pos[1], t))
            } else {
                Err((ErrorKind::NewUsage, Seq::empty()))
            }
        },
    }
}

/// Whether the text of `a` is exactly `word`.
pub fn text_is(a: &str, word: &[char]) -> (r: bool)
    ensures
        r == (a@ == word@),
{
    let v = chars_of(a);
    if v.len() != word.len() {
        return false;
    }
    let mut i: usize = 0;
    while i < v.len()
        invariant
            v@ == a@,
            v@.len() == word@.len(),
            i <= v@.len(),
            forall|j: int| 0 <= j < i ==> v@[j] == word@[j],
        decreases v@.len() - i,
    {
        if v[i] != word[i] {
            return false;
        }
        i = i + 1;
    }
    proof {
        assert(v@ =~= word@);
    }
    true
}

/// Whether `a` starts with `-`.
pub fn dash_first(a: &str) -> (r: bool)
    ensures
        r == starts_with_dash(a@),
{
    let v = chars_of(a);
    v.len() > 0 && v[0] == '-'
}

/// Split the arguments of `new` into the report name, the title and the template.
pub fn parse_new<'a>(args: &[&'a str]) -> (r: Result<(&'a str, &'a str, &'a str), CliError>)
    ensures
        match r {
            Ok((name, title, template)) => new_request(texts(args@)) == Ok::<
                (Seq<char>, Seq<char>, Seq<char>),
                (ErrorKind, Seq<char>),
            >((name@, title@, template@)),
            Err(e) => new_request(texts(args@)) == Err::<
                (Seq<char>, Seq<char>, Seq<char>),
                (ErrorKind, Seq<char>),
            >(e@),
        },
{
    let ghost all = texts(args@);
    let mut positional: Vec<&'a str> = Vec::new();
    let mut template: Option<&'a str> = None;
    let n = args.len();
    let mut i: usize = 0;
    proof {
        assert(all.skip(0) =~= all);
        assert(texts(positional@) =~= Seq::<Seq<char>>::empty());
    }
    while i < n
        invariant
            n == args@.len(),
            all == texts(args@),
            i <= n,
            scan_new(all, Seq::empty(), None) == scan_new(
                all.skip(i as int),
                texts(positional@),
                match template {
                    Some(t) => Some(t@),
                    None => None,
                },
            ),
        decreases n - i,
    {
        let arg = args[i];
        let ghost rest = all.skip(i as int);
        assert(rest[0] == arg@);
        if text_is(arg, &['-', 't']) || text_is(arg, &['-', '-', 't', 'e', 'm', 'p', 'l', 'a', 't', 'e']) {
            if template.is_some() {
                return Err(CliError::new(ErrorKind::DuplicateTemplateOption));
            }
            if i + 1 >= n {
                return Err(CliError::new(ErrorKind::MissingTemplateName));
            }
            template = Some(args[i + 1]);
            proof {
                assert(rest[1] == args@[i + 1]@);
                assert(rest.skip(2) =~= all.skip(i + 2));
            }
            i = i + 2;
        } else if dash_first(arg) {
            return Err(CliError::about(ErrorKind::UnknownOption, arg));
        } else {
            let ghost before = positional@;
            positional.push(arg);
            proof {
                assert(texts(positional@) =~= texts(before).push(arg@));
                assert(rest.skip(1) =~= all.skip(i + 1));
            }
            i = i + 1;
        }
    }
    proof {
        assert(all.skip(n as int) =~= Seq::<Seq<char>>::empty());
    }
    let template_name: &'a str = match template {
        Some(t) => t,
        None => {
            proof {
                reveal_strlit("default");
            }
            "default"
        },
    };
    proof {
        if template is None {
            assert(template_name@ =~= default_template());
        }
    }
    if positional.len() == 1 {
        Ok((positional[0], positional[0], template_name))
    } else if positional.len() == 2 {
        Ok((positional[0], positional[1], template_name))
    } else {
        Err(CliError::new(ErrorKind::NewUsage))
    }
}

/// One command-line argument: its text, with any bytes that are not valid
/// Unicode shown as U+FFFD (as `OsStr::to_string_lossy` gives it), and whether
/// it is valid Unicode.
#[derive(Debug)]
pub struct Arg {
    pub text: String,
    pub unicode: bool,
}

impl View for Arg {
    type V = (Seq<char>, bool);

    open spec fn view(&self) -> (Seq<char>, bool) {
        (self.text@, self.unicode)
    }
}

/// The views of some arguments.
pub open spec fn arg_views(args: Seq<Arg>) -> Seq<(Seq<char>, bool)> {
    args.map_values(|a: Arg| a@)
}

/// An argument that is, as Unicode text, exactly `word`.
pub open spec fn arg_is(a: (Seq<char>, bool), word: Seq<char>) -> bool {
    a.1 && a.0 == word
}

pub open spec fn is_help_word(a: (Seq<char>, bool)) -> bool {
    ||| arg_is(a, seq!['h', 'e', 'l', 'p'])
    ||| arg_is(a, seq!['h'])
    ||| arg_is(a, seq!['-', '-', 'h', 'e', 'l', 'p'])
    ||| arg_is(a, seq!['-', 'h'])
}

pub open spec fn is_root_word(a: (Seq<char>, bool)) -> bool {
    arg_is(a, seq!['-', '-', 'r', 'o', 'o', 't']) || arg_is(a, seq!['-', 'r'])
}

pub open spec fn is_build_word(a: (Seq<char>, bool)) -> bool {
    arg_is(a, seq!['b', 'u', 'i', 'l', 'd']) || arg_is(a, seq!['b'])
}

pub open spec fn is_new_word(a: (Seq<char>, bool)) -> bool {
    arg_is(a, seq!['n', 'e', 'w']) || arg_is(a, seq!['n'])
}

pub open spec fn is_templates_word(a: (Seq<char>, bool)) -> bool {
    arg_is(a, seq!['t', 'e', 'm', 'p', 'l', 'a', 't', 'e', 's']) || arg_is(a, seq!['t'])
}

pub open spec fn is_list_word(a: (Seq<char>, bool)) -> bool {
    arg_is(a, seq!['l', 'i', 's', 't']) || arg_is(a, seq!['l', 's']) || arg_is(a, seq!['l'])
}

pub open spec fn is_all_word(a: (Seq<char>, bool)) -> bool {
    arg_is(a, seq!['-', '-', 'a', 'l', 'l']) || arg_is(a, seq!['-', 'a'])
}

/// How an invocation begins.
#[derive(Clone, Copy, Debug, PartialEq, Eq, Structural)]
pub enum Start {
    /// Show the help text.
    Help,
    /// The second argument is the root directory; the command starts at the third.
    Root,
    /// Work in the current directory; the command starts at the first argument.
    Here,
}

/// How the arguments begin: help, an explicit root, or the current directory.
pub open spec fn start_of(args: Seq<(Seq<char>, bool)>) -> Result<Start, (ErrorKind, Seq<char>)> {
    if args.len() == 0 || is_help_word(args[0]) {
        Ok(Start::Help)
    } else if is_root_word(args[0]) {
        if args.len() < 3 {
            Err((ErrorKind::RootNeedsPathAndCommand, Seq::empty()))
        } else {
            Ok(Start::Root)
        }
    } else {
        Ok(Start::Here)
    }
}

/// Whether `a` is, as Unicode text, exactly `word`.
pub fn arg_is_word(a: &Arg, word: &[char]) -> (r: bool)
    ensures
        r == arg_is(a@, word@),
{
    a.unicode && text_is(a.text.as_str(), word)
}

fn help_word(a: &Arg) -> (r: bool)
    ensures
        r == is_help_word(a@),
{
    let w1 = ['h', 'e', 'l', 'p'];
    let w2 = ['h'];
    let w3 = ['-', '-', 'h', 'e', 'l', 'p'];
    let w4 = ['-', 'h'];
    assert(w1@ == seq!['h', 'e', 'l', 'p']);
    assert(w2@ == seq!['h']);
    assert(w3@ == seq!['-', '-', 'h', 'e', 'l', 'p']);
    assert(w4@ == seq!['-', 'h']);
    arg_is_word(a, &w1) || arg_is_word(a, &w2) || arg_is_word(a, &w3) || arg_is_word(a, &w4)
}

/// Decide how an invocation begins.
pub fn classify_start(args: &[Arg]) -> (r: Result<Start, CliError>)
    ensures
        match r {
            Ok(s) => start_of(arg_views(args@)) == Ok::<Start, (ErrorKind, Seq<char>)>(s),
            Err(e) => start_of(arg_views(args@)) == Err::<Start, (ErrorKind, Seq<char>)>(e@),
        },
{
    if args.len() == 0 || help_word(&args[0]) {
        return Ok(Start::Help);
    }
    if arg_is_word(&args[0], &['-', '-', 'r', 'o', 'o', 't']) || arg_is_word(&args[0], &['-', 'r']) {
        if args.len() < 3 {
            return Err(CliError::new(ErrorKind::RootNeedsPathAndCommand));
        }
        return Ok(Start::Root);
    }
    Ok(Start::Here)
}

/// A command the arguments ask for.
#[derive(Debug)]
pub enum Command<'a> {
    Help,
    /// Compile reports; the directory arguments follow the command word.
    Build,
    New { name: &'a str, title: &'a str, template: &'a str },
    Templates,
    List,
}

/// What a [`Command`] stands for.
pub enum Request {
    Help,
    Build,
    New(Seq<char>, Seq<char>, Seq<char>),
    Templates,
    List,
}

impl<'a> View for Command<'a> {
    type V = Request;

    open spec fn view(&self) -> Request {
        match self {
            Command::Help => Request::Help,
            Command::Build => Request::Build,
            Command::New { name, title, template } => Request::New(name@, title@, template@),
            Command::Templates => Request::Templates,
            Command::List => Request::List,
        }
    }
}

/// The command that the arguments (after any root option) ask for, or why
/// they are refused. `build` takes any arguments; every other command needs all
/// of its arguments to be valid Unicode.
pub open spec fn command_of(args: Seq<(Seq<char>, bool)>) -> Result<Request, (ErrorKind, Seq<char>)> {
    if is_build_word(args[0]) {
        Ok(Request::Build)
    } else if exists|i: int| 0 <= i < args.len() && !(#[trigger] args[i]).1 {
        Err((ErrorKind::NotUnicode, Seq::empty()))
    } else if args.len() == 1 && is_help_word(args[0]) {
        Ok(Request::Help)
    } else if is_new_word(args[0]) {
        match new_request(args.skip(1).map_values(|a: (Seq<char>, bool)| a.0)) {
            Ok((name, title, template)) => Ok(Request::New(name, title, template)),
            Err(e) => Err(e),
        }
    } else if args.len() == 1 && is_templates_word(args[0]) {
        Ok(Request::Templates)
    } else if args.len() == 1 && is_list_word(args[0]) {
        Ok(Request::List)
    } else {
        Err((ErrorKind::InvalidArguments, Seq::empty()))
    }
}

/// Decide which command the arguments ask for.
pub fn parse_command<'a>(args: &'a [Arg]) -> (r: Result<Command<'a>, CliError>)
    requires
        args@.len() > 0,
    ensures
        match r {
            Ok(c) => command_of(arg_views(args@)) == Ok::<Request, (ErrorKind, Seq<char>)>(c@),
            Err(e) => command_of(arg_views(args@)) == Err::<Request, (ErrorKind, Seq<char>)>(e@),
        },
{
    let ghost views = arg_views(args@);
    let first = &args[0];
    assert(views[0] == first@);
    let b1 = ['b', 'u', 'i', 'l', 'd'];
    let b2 = ['b'];
    assert(b1@ == seq!['b', 'u', 'i', 'l', 'd']);
    assert(b2@ == seq!['b']);
    if arg_is_word(first, &b1) || arg_is_word(first, &b2) {
        return Ok(Command::Build);
    }
    let n = args.len();
    let mut i: usize = 0;
    while i < n
        invariant
            n == args@.len(),
            views == arg_views(args@),
            !is_build_word(views[0]),
            i <= n,
            forall|j: int| 0 <= j < i ==> (#[trigger] views[j]).1,
        decreases n - i,
    {
        if !args[i].unicode {
            assert(!views[i as int].1);
            assert(!is_build_word(views[0]));
            return Err(CliError::new(ErrorKind::NotUnicode));
        }
        i = i + 1;
    }
    assert(!exists|i: int| 0 <= i < views.len() && !(#[trigger] views[i]).1);
    if n == 1 && help_word(first) {
        return Ok(Command::Help);
    }
    let n1 = ['n', 'e', 'w'];
    let n2 = ['n'];
    assert(n1@ == seq!['n', 'e', 'w']);
    assert(n2@ == seq!['n']);
    if arg_is_word(first, &n1) || arg_is_word(first, &n2) {
        let mut rest: Vec<&'a str> = Vec::new();
        let mut k: usize = 1;
        while k < n
            invariant
                n == args@.len(),
                views == arg_views(args@),
                1 <= k <= n,
                texts(rest@) == views.subrange(1, k as int).map_values(
                    |a: (Seq<char>, bool)| a.0,
                ),
            decreases n - k,
        {
            let ghost before = rest@;
            rest.push(args[k].text.as_str());
            proof {
                assert(texts(rest@) =~= texts(before).push(args@[k as int].text@));
                assert(views.subrange(1, k + 1).map_values(|a: (Seq<char>, bool)| a.0)
                    =~= views.subrange(1, k as int).map_values(|a: (Seq<char>, bool)| a.0).push(
                    views[k as int].0,
                ));
            }
            k = k + 1;
        }
        proof {
            assert(views.subrange(1, n as int) =~= views.skip(1));
        }
        return match parse_new(rest.as_slice()) {
            Ok((name, title, template)) => Ok(Command::New { name, title, template }),
            Err(e) => Err(e),
        };
    }
    let t1 = ['t', 'e', 'm', 'p', 'l', 'a', 't', 'e', 's'];
    let t2 = ['t'];
    assert(t1@ == seq!['t', 'e', 'm', 'p', 'l', 'a', 't', 'e', 's']);
    assert(t2@ == seq!['t']);
    if n == 1 && (arg_is_word(first, &t1) || arg_is_word(first, &t2)) {
        return Ok(Command::Templates);
    }
    let l1 = ['l', 'i', 's', 't'];
    let l2 = ['l', 's'];
    let l3 = ['l'];
    assert(l1@ == seq!['l', 'i', 's', 't']);
    assert(l2@ == seq!['l', 's']);
    assert(l3@ == seq!['l']);
    if n == 1 && (arg_is_word(first, &l1) || arg_is_word(first, &l2) || arg_is_word(first, &l3)) {
        return Ok(Command::List);
    }
    Err(CliError::new(ErrorKind::InvalidArguments))
}

/// Which report directories `build` compiles.
#[derive(Debug)]
pub enum BuildPlan {
    /// The root directory itself.
    Current,
    /// Every child report folder of the root.
    All,
    /// The directories named by these arguments (indices into the build
    /// arguments), each taken relative to the root.
    Paths(Vec<usize>),
}

/// What a [`BuildPlan`] stands for.
pub enum BuildRequest {
    Current,
    All,
    Paths(Seq<usize>),
}

impl View for BuildPlan {
    type V = BuildRequest;

    open spec fn view(&self) -> BuildRequest {
        match self {
            BuildPlan::Current => BuildRequest::Current,
            BuildPlan::All => BuildRequest::All,
            BuildPlan::Paths(v) => BuildRequest::Paths(v@),
        }
    }
}

pub open spec fn separator() -> Seq<char> {
    seq!['-', '-']
}

/// Reads the build arguments from index `i` on: after `--` every argument is a
/// directory; before it `--all` is refused, as is any other argument that
/// starts with `-`; an empty argument is refused anywhere.
pub open spec fn scan_build(args: Seq<(Seq<char>, bool)>, i: int, literal: bool, paths: Seq<usize>) -> Result<
    Seq<usize>,
    (ErrorKind, Seq<char>),
>
    decreases args.len() - i,
{
    if i >= args.len() || i < 0 {
        if paths.len() == 0 {
            Err((ErrorKind::NothingAfterSeparator, Seq::empty()))
        } else {
            Ok(paths)
        }
    } else if !literal && arg_is(args[i], separator()) {
        scan_build(args, i + 1, true, paths)
    } else if !literal && is_all_word(args[i]) {
        Err((ErrorKind::AllWithPaths, Seq::empty()))
    } else if !literal && starts_with_dash(args[i].0) {
        Err((ErrorKind::UnknownBuildOption, args[i].0))
    } else if args[i].0.len() == 0 {
        Err((ErrorKind::EmptyPath, Seq::empty()))
    } else {
        scan_build(args, i + 1, literal, paths.push(i as usize))
    }
}

/// What the arguments of `build` ask for: the root itself when there are none,
/// every report folder for a lone `--all`, and otherwise the named directories.
pub open spec fn build_request(args: Seq<(Seq<char>, bool)>) -> Result<BuildRequest, (ErrorKind, Seq<char>)> {
    if args.len() == 0 {
        Ok(BuildRequest::Current)
    } else if args.len() == 1 && is_all_word(args[0]) {
        Ok(BuildRequest::All)
    } else {
        match scan_build(args, 0, false, Seq::empty()) {
            Ok(p) => Ok(BuildRequest::Paths(p)),
            Err(e) => Err(e),
        }
    }
}

fn all_word(a: &Arg) -> (r: bool)
    ensures
        r == is_all_word(a@),
{
    let w1 = ['-', '-', 'a', 'l', 'l'];
    let w2 = ['-', 'a'];
    assert(w1@ == seq!['-', '-', 'a', 'l', 'l']);
    assert(w2@ == seq!['-', 'a']);
    arg_is_word(a, &w1) || arg_is_word(a, &w2)
}

/// Decide which directories `build` compiles.
pub fn plan_build(args: &[Arg]) -> (r: Result<BuildPlan, CliError>)
    ensures
        match r {
            Ok(p) => build_request(arg_views(args@)) == Ok::<BuildRequest, (ErrorKind, Seq<char>)>(p@),
            Err(e) => build_request(arg_views(args@)) == Err::<BuildRequest, (ErrorKind, Seq<char>)>(e@),
        },
{
    let ghost views = arg_views(args@);
    let n = args.len();
    if n == 0 {
        return Ok(BuildPlan::Current);
    }
    assert(views[0] == args@[0]@);
    if n == 1 && all_word(&args[0]) {
        return Ok(BuildPlan::All);
    }
    let mut literal = false;
    let mut paths: Vec<usize> = Vec::new();
    let mut i: usize = 0;
    let sep = ['-', '-'];
    assert(sep@ == separator());
    while i < n
        invariant
            n == args@.len(),
            views == arg_views(args@),
            sep@ == separator(),
            n > 0,
            !(n == 1 && is_all_word(views[0])),
            i <= n,
            scan_build(views, 0, false, Seq::empty()) == scan_build(views, i as int, literal, paths@),
        decreases n - i,
    {
        let a = &args[i];
        assert(views[i as int] == a@);
        if !literal && arg_is_word(a, &sep) {
            literal = true;
        } else if !literal && all_word(a) {
            return Err(CliError::new(ErrorKind::AllWithPaths));
        } else if !literal && dash_first(a.text.as_str()) {
            return Err(CliError::about(ErrorKind::UnknownBuildOption, a.text.as_str()));
        } else if a.text.as_str().is_empty() {
            return Err(CliError::new(ErrorKind::EmptyPath));
        } else {
            paths.push(i);
        }
        i = i + 1;
    }
    if paths.len() == 0 {
        return Err(CliError::new(ErrorKind::NothingAfterSeparator));
    }
    Ok(BuildPlan::Paths(paths))
}

/// An argument of `new` that is read as a positional argument.
pub open spec fn is_plain_arg(a: Seq<char>) -> bool {
    !is_template_flag(a) && !starts_with_dash(a)
}

proof fn lemma_scan_plain_prefix(
    a: Seq<Seq<char>>,
    b: Seq<Seq<char>>,
    pos: Seq<Seq<char>>,
    template: Option<Seq<char>>,
)
    requires
        forall|i: int| 0 <= i < a.len() ==> is_plain_arg(#[trigger] a[i]),
    ensures
        scan_new(a + b, pos, template) == scan_new(b, pos + a, template),
    decreases a.len(),
{
    if a.len() == 0 {
        assert(a + b =~= b);
        assert(pos + a =~= pos);
    } else {
        assert((a + b)[0] == a[0]);
        assert(is_plain_arg(a[0]));
        assert((a + b).skip(1) =~= a.skip(1) + b);
        lemma_scan_plain_prefix(a.skip(1), b, pos.push(a[0]), template);
        assert(pos.push(a[0]) + a.skip(1) =~= pos + a);
    }
}

proof fn lemma_scan_with_option(p: Seq<Seq<char>>, f: Seq<char>, t: Seq<char>, k: int)
    requires
        forall|i: int| 0 <= i < p.len() ==> is_plain_arg(#[trigger] p[i]),
        is_template_flag(f),
        0 <= k <= p.len(),
    ensures
        scan_new(p.take(k) + seq![f, t] + p.skip(k), Seq::empty(), None) == Ok::<
            (Seq<Seq<char>>, Option<Seq<char>>),
            (ErrorKind, Seq<char>),
        >((p, Some(t))),
{
    let a = p.take(k);
    let b = seq![f, t] + p.skip(k);
    assert(p.take(k) + seq![f, t] + p.skip(k) =~= a + b);
    assert forall|i: int| 0 <= i < a.len() implies is_plain_arg(#[trigger] a[i]) by {
        assert(a[i] == p[i]);
    }
    lemma_scan_plain_prefix(a, b, Seq::empty(), None);
    assert(Seq::<Seq<char>>::empty() + a =~= a);
    assert(b[0] == f);
    assert(b[1] == t);
    assert(b.skip(2) =~= p.skip(k));
    let c = p.skip(k);
    assert forall|i: int| 0 <= i < c.len() implies is_plain_arg(#[trigger] c[i]) by {
        assert(c[i] == p[i + k]);
    }
    lemma_scan_plain_prefix(c, Seq::empty(), a, Some(t));
    assert(c + Seq::<Seq<char>>::empty() =~= c);
    assert(a + c =~= p);
}

/// The template option of `new` may stand before, between or after the name
/// and the title: wherever it is placed, `new` asks for the same report.
pub proof fn template_option_may_stand_anywhere(p: Seq<Seq<char>>, f: Seq<char>, t: Seq<char>, k: int)
    requires
        forall|i: int| 0 <= i < p.len() ==> is_plain_arg(#[trigger] p[i]),
        is_template_flag(f),
        0 <= k <= p.len(),
    ensures
        new_request(p.take(k) + seq![f, t] + p.skip(k)) == new_request(p + seq![f, t]),
{
    lemma_scan_with_option(p, f, t, k);
    lemma_scan_with_option(p, f, t, p.len() as int);
    assert(p.take(p.len() as int) =~= p);
    assert(p.skip(p.len() as int) =~= Seq::<Seq<char>>::empty());
    assert(p + seq![f, t] =~= p.take(p.len() as int) + seq![f, t] + p.skip(p.len() as int));
}

/// `-t` and `--template` are two spellings of one option.
pub proof fn template_option_spellings_agree(p: Seq<Seq<char>>, t: Seq<char>, k: int)
    requires
        forall|i: int| 0 <= i < p.len() ==> is_plain_arg(#[trigger] p[i]),
        0 <= k <= p.len(),
    ensures
        new_request(p.take(k) + seq![template_short(), t] + p.skip(k)) == new_request(
            p.take(k) + seq![template_long(), t] + p.skip(k),
        ),
{
    lemma_scan_with_option(p, template_short(), t, k);
    lemma_scan_with_option(p, template_long(), t, k);
}

/// The indices `a..b`.
pub open spec fn index_range(a: int, b: int) -> Seq<usize> {
    Seq::new((b - a) as nat, |j: int| (a + j) as usize)
}

proof fn lemma_scan_build_paths(
    args: Seq<(Seq<char>, bool)>,
    i: int,
    k: int,
    literal: bool,
    paths: Seq<usize>,
)
    requires
        0 <= i <= k <= args.len(),
        forall|j: int|
            i <= j < k ==> (literal || !starts_with_dash((#[trigger] args[j]).0)) && args[j].0.len()
                > 0,
    ensures
        scan_build(args, i, literal, paths) == scan_build(args, k, literal, paths + index_range(i, k)),
    decreases k - i,
{
    if i == k {
        assert(paths + index_range(i, k) =~= paths);
    } else {
        assert(args[i].0.len() > 0);
        if !literal {
            assert(!starts_with_dash(args[i].0));
            assert(!arg_is(args[i], separator()));
            assert(!is_all_word(args[i]));
        }
        lemma_scan_build_paths(args, i + 1, k, literal, paths.push(i as usize));
        assert(paths.push(i as usize) + index_range(i + 1, k) =~= paths + index_range(i, k));
    }
}

/// `--all` cannot be combined with directory arguments: where it follows only
/// directories, `build` is refused.
pub proof fn all_cannot_join_directories(args: Seq<(Seq<char>, bool)>, k: int)
    requires
        args.len() >= 2,
        0 <= k < args.len(),
        is_all_word(args[k]),
        forall|j: int| 0 <= j < k ==> !starts_with_dash((#[trigger] args[j]).0) && args[j].0.len() > 0,
    ensures
        build_request(args) == Err::<BuildRequest, (ErrorKind, Seq<char>)>(
            (ErrorKind::AllWithPaths, Seq::empty()),
        ),
{
    lemma_scan_build_paths(args, 0, k, false, Seq::empty());
    let a = args[k].0;
    if arg_is(args[k], seq!['-', '-', 'a', 'l', 'l']) {
        assert(a.len() == 5);
    } else {
        assert(a == seq!['-', 'a']);
        assert(a[1] == 'a');
    }
    assert(!arg_is(args[k], separator()));
}

/// After `--` every argument names a directory, even one that starts with `-`:
/// `build` compiles each argument but the separator, in order.
pub proof fn separator_makes_the_rest_directories(args: Seq<(Seq<char>, bool)>, k: int)
    requires
        args.len() >= 2,
        0 <= k < args.len(),
        arg_is(args[k], separator()),
        forall|j: int| 0 <= j < k ==> !starts_with_dash((#[trigger] args[j]).0) && args[j].0.len() > 0,
        forall|j: int| k < j < args.len() ==> (#[trigger] args[j]).0.len() > 0,
    ensures
        build_request(args) == Ok::<BuildRequest, (ErrorKind, Seq<char>)>(
            BuildRequest::Paths(index_range(0, k) + index_range(k + 1, args.len() as int)),
        ),
{
    lemma_scan_build_paths(args, 0, k, false, Seq::empty());
    let a = args[k].0;
    assert(a == seq!['-', '-']);
    assert(a.len() == 2 && a[1] == '-');
    assert(a != seq!['-', '-', 'a', 'l', 'l']);
    assert(seq!['-', 'a'][1] == 'a');
    assert(a != seq!['-', 'a']);
    assert(!is_all_word(args[k]));
    assert(Seq::<usize>::empty() + index_range(0, k) =~= index_range(0, k));
    lemma_scan_build_paths(args, k + 1, args.len() as int, true, index_range(0, k));
    let all = index_range(0, k) + index_range(k + 1, args.len() as int);
    assert(all.len() == args.len() - 1);
    if args.len() == 2 && k == 0 {
        assert(!is_all_word(args[0]));
    }
}

proof fn lemma_scan_build_names_arguments(
    args: Seq<(Seq<char>, bool)>,
    i: int,
    literal: bool,
    paths: Seq<usize>,
)
    requires
        0 <= i,
        args.len() <= usize::MAX,
        forall|x: int| 0 <= x < paths.len() ==> (#[trigger] paths[x]) < i && paths[x] < args.len()
            && args[paths[x] as int].0.len() > 0,
        forall|x: int, y: int| 0 <= x < y < paths.len() ==> paths[x] < paths[y],
    ensures
        scan_build(args, i, literal, paths) matches Ok(p) ==> {
            &&& p.len() > 0
            &&& forall|x: int| 0 <= x < p.len() ==> (#[trigger] p[x]) < args.len() && args[p[x] as int].0.len() > 0
            &&& forall|x: int, y: int| 0 <= x < y < p.len() ==> p[x] < p[y]
        },
    decreases args.len() - i,
{
    if i < args.len() {
        if !literal && arg_is(args[i], separator()) {
            lemma_scan_build_names_arguments(args, i + 1, true, paths);
        } else if !literal && is_all_word(args[i]) {
        } else if !literal && starts_with_dash(args[i].0) {
        } else if args[i].0.len() == 0 {
        } else {
            let q = paths.push(i as usize);
            assert forall|x: int| 0 <= x < q.len() implies (#[trigger] q[x]) < i + 1 && q[x] < args.len()
                && args[q[x] as int].0.len() > 0 by {
                if x < paths.len() {
                    assert(q[x] == paths[x]);
                }
            }
            assert forall|x: int, y: int| 0 <= x < y < q.len() implies q[x] < q[y] by {
                if y < paths.len() {
                    assert(q[x] == paths[x] && q[y] == paths[y]);
                } else {
                    assert(q[x] == paths[x]);
                }
            }
            lemma_scan_build_names_arguments(args, i + 1, literal, q);
        }
    }
}

/// The directories `build` compiles are named by non-empty arguments, each at
/// most once and in the order given.
pub proof fn build_paths_are_distinct_nonempty_arguments(args: Seq<(Seq<char>, bool)>)
    requires
        args.len() <= usize::MAX,
    ensures
        build_request(args) matches Ok(BuildRequest::Paths(p)) ==> {
            &&& p.len() > 0
            &&& forall|x: int| 0 <= x < p.len() ==> (#[trigger] p[x]) < args.len() && args[p[x] as int].0.len() > 0
            &&& forall|x: int, y: int| 0 <= x < y < p.len() ==> p[x] < p[y]
        },
{
    if args.len() > 0 && !(args.len() == 1 && is_all_word(args[0])) {
        lemma_scan_build_names_arguments(args, 0, false, Seq::empty());
    }
}

/// `--root PATH COMMAND...` (or `-r`) works in PATH whatever the command and
/// however many arguments it has; the option is refused exactly when the path
/// or the command is missing.
pub proof fn root_option_needs_a_path_and_a_command(args: Seq<(Seq<char>, bool)>)
    requires
        args.len() > 0,
        args[0] == (seq!['-', '-', 'r', 'o', 'o', 't'], true) || args[0] == (seq!['-', 'r'], true),
    ensures
        args.len() >= 3 ==> start_of(args) == Ok::<Start, (ErrorKind, Seq<char>)>(Start::Root),
        args.len() < 3 ==> start_of(args) == Err::<Start, (ErrorKind, Seq<char>)>(
            (ErrorKind::RootNeedsPathAndCommand, Seq::empty()),
        ),
{
    let a = args[0].0;
    assert(a[0] == '-');
    assert(seq!['h', 'e', 'l', 'p'][0] == 'h');
    assert(seq!['h'][0] == 'h');
    if a.len() == 6 {
        assert(a[1] == '-' && a[2] == 'r');
        assert(seq!['-', '-', 'h', 'e', 'l', 'p'][2] == 'h');
    } else {
        assert(a.len() == 2 && a[1] == 'r');
        assert(seq!['-', 'h'][1] == 'h');
    }
    assert(!is_help_word(args[0]));
    assert(is_root_word(args[0]));
}

/// `build` with no argument compiles the root itself, and only then: any
/// arguments that are non-empty and do not start with `-` name the
/// directories to compile, each in its place.
pub proof fn plain_build_arguments_are_directories(args: Seq<(Seq<char>, bool)>)
    requires
        args.len() <= usize::MAX,
        forall|i: int| 0 <= i < args.len() ==> (#[trigger] args[i]).0.len() > 0 && args[i].0[0] != '-',
    ensures
        args.len() == 0 ==> build_request(args) == Ok::<BuildRequest, (ErrorKind, Seq<char>)>(
            BuildRequest::Current,
        ),
        args.len() > 0 ==> (build_request(args) matches Ok(BuildRequest::Paths(p)) && p.len()
            == args.len() && forall|k: int| 0 <= k < p.len() ==> p[k] == k),
        build_request(args) matches Ok(BuildRequest::Current) ==> args.len() == 0,
{
    if args.len() > 0 {
        assert(args[0].0[0] != '-');
        assert(!is_all_word(args[0]));
        lemma_scan_build_paths(args, 0, args.len() as int, false, Seq::empty());
        let p = Seq::<usize>::empty() + index_range(0, args.len() as int);
        assert(p.len() == args.len());
        assert forall|k: int| 0 <= k < p.len() implies p[k] == k by {
            assert(p[k] == index_range(0, args.len() as int)[k]);
        }
    }
}

/// `new NAME` takes the name as title and the `default` template; `new NAME
/// TITLE` takes that title; `-t`/`--template NAME` names the template; any other
/// number of positional arguments is refused.
pub proof fn new_fills_in_title_and_template(n: Seq<char>, t: Seq<char>, x: Seq<char>)
    requires
        n.len() > 0 && n[0] != '-',
        t.len() > 0 && t[0] != '-',
    ensures
        new_request(seq![n]) == Ok::<(Seq<char>, Seq<char>, Seq<char>), (ErrorKind, Seq<char>)>(
            (n, n, seq!['d', 'e', 'f', 'a', 'u', 'l', 't']),
        ),
        new_request(seq![n, t]) == Ok::<(Seq<char>, Seq<char>, Seq<char>), (ErrorKind, Seq<char>)>(
            (n, t, seq!['d', 'e', 'f', 'a', 'u', 'l', 't']),
        ),
        new_request(seq![n, seq!['-', 't'], x]) == Ok::<
            (Seq<char>, Seq<char>, Seq<char>),
            (ErrorKind, Seq<char>),
        >((n, n, x)),
        new_request(seq![n, t, seq!['-', '-', 't', 'e', 'm', 'p', 'l', 'a', 't', 'e'], x]) == Ok::<
            (Seq<char>, Seq<char>, Seq<char>),
            (ErrorKind, Seq<char>),
        >((n, t, x)),
        new_request(seq![n, t, n]) == Err::<(Seq<char>, Seq<char>, Seq<char>), (ErrorKind, Seq<char>)>(
            (ErrorKind::NewUsage, Seq::empty()),
        ),
        new_request(Seq::empty()) == Err::<
            (Seq<char>, Seq<char>, Seq<char>),
            (ErrorKind, Seq<char>),
        >((ErrorKind::NewUsage, Seq::empty())),
{
    assert(!is_template_flag(n) && !starts_with_dash(n));
    assert(!is_template_flag(t) && !starts_with_dash(t));
    let e: Seq<Seq<char>> = Seq::empty();
    let a1 = seq![n];
    assert(a1[0] == n);
    assert(a1.skip(1) =~= e);
    assert(e.push(n) =~= seq![n]);
    assert(scan_new(e, seq![n], None) == Ok::<(Seq<Seq<char>>, Option<Seq<char>>), (ErrorKind, Seq<char>)>((seq![n], None)));
    assert(scan_new(a1, e, None) == scan_new(e, seq![n], None));
    let a2 = seq![n, t];
    assert(a2[0] == n);
    assert(a2.skip(1) =~= seq![t]);
    assert(seq![t][0] == t);
    assert(seq![t].skip(1) =~= e);
    assert(seq![n].push(t) =~= seq![n, t]);
    assert(scan_new(e, seq![n, t], None) == Ok::<(Seq<Seq<char>>, Option<Seq<char>>), (ErrorKind, Seq<char>)>((seq![n, t], None)));
    assert(scan_new(seq![t], seq![n], None) == scan_new(e, seq![n, t], None));
    assert(scan_new(a2, e, None) == scan_new(seq![t], seq![n], None));
    let a3 = seq![n, seq!['-', 't'], x];
    let p1 = seq![n];
    assert(p1[0] == n);
    lemma_scan_with_option(p1, seq!['-', 't'], x, 1);
    assert(p1.take(1) + seq![seq!['-', 't'], x] + p1.skip(1) =~= a3);
    let long = seq!['-', '-', 't', 'e', 'm', 'p', 'l', 'a', 't', 'e'];
    let a4 = seq![n, t, long, x];
    let p2 = seq![n, t];
    assert(p2[0] == n && p2[1] == t);
    lemma_scan_with_option(p2, long, x, 2);
    assert(p2.take(2) + seq![long, x] + p2.skip(2) =~= a4);
    let a5 = seq![n, t, n];
    assert(a5[0] == n && a5[1] == t && a5[2] == n);
    lemma_scan_plain_prefix(a5, e, e, None);
    assert(a5 + e =~= a5);
    assert(e + a5 =~= a5);
}

/// Arguments of `new` are refused as they are read: a second template option,
/// a template option with nothing after it, and any other argument that starts
/// with `-` (which is named in the refusal).
pub proof fn new_refuses_bad_options(n: Seq<char>, x: Seq<char>, y: Seq<char>, o: Seq<char>)
    requires
        o.len() > 0 && o[0] == '-',
        o != seq!['-', 't'],
        o != seq!['-', '-', 't', 'e', 'm', 'p', 'l', 'a', 't', 'e'],
    ensures
        new_request(seq![seq!['-', 't'], x, seq!['-', 't'], y]) == Err::<
            (Seq<char>, Seq<char>, Seq<char>),
            (ErrorKind, Seq<char>),
        >((ErrorKind::DuplicateTemplateOption, Seq::empty())),
        new_request(seq![seq!['-', 't']]) == Err::<
            (Seq<char>, Seq<char>, Seq<char>),
            (ErrorKind, Seq<char>),
        >((ErrorKind::MissingTemplateName, Seq::empty())),
        new_request(seq![o, n]) == Err::<(Seq<char>, Seq<char>, Seq<char>), (ErrorKind, Seq<char>)>(
            (ErrorKind::UnknownOption, o),
        ),
{
    let a = seq![seq!['-', 't'], x, seq!['-', 't'], y];
    assert(a[0] == seq!['-', 't'] && a[1] == x);
    assert(a.skip(2) =~= seq![seq!['-', 't'], y]);
    assert(a.skip(2)[0] == seq!['-', 't']);
    assert(scan_new(a, Seq::empty(), None) == scan_new(a.skip(2), Seq::empty(), Some(x)));
    assert(!is_template_flag(o));
}

/// No arguments, or a first argument `help`, `h`, `--help` or `-h`, asks for
/// help, whatever follows.
pub proof fn help_words_ask_for_help(w: Seq<char>, rest: Seq<(Seq<char>, bool)>)
    requires
        w == seq!['h', 'e', 'l', 'p'] || w == seq!['h'] || w == seq!['-', '-', 'h', 'e', 'l', 'p'] || w
            == seq!['-', 'h'],
    ensures
        start_of(Seq::empty()) == Ok::<Start, (ErrorKind, Seq<char>)>(Start::Help),
        start_of(seq![(w, true)] + rest) == Ok::<Start, (ErrorKind, Seq<char>)>(Start::Help),
{
    assert((seq![(w, true)] + rest)[0] == (w, true));
}

/// `build` and `b` take any arguments, Unicode or not; `templates`/`t` and
/// `list`/`ls`/`l` stand alone; `new`/`n` reads the rest as the arguments of
/// `new`.
pub proof fn command_words_are_recognised(w: Seq<char>, rest: Seq<(Seq<char>, bool)>)
    ensures
        (w == seq!['b', 'u', 'i', 'l', 'd'] || w == seq!['b']) ==> command_of(seq![(w, true)] + rest)
            == Ok::<Request, (ErrorKind, Seq<char>)>(Request::Build),
        (w == seq!['t', 'e', 'm', 'p', 'l', 'a', 't', 'e', 's'] || w == seq!['t']) ==> command_of(
            seq![(w, true)],
        ) == Ok::<Request, (ErrorKind, Seq<char>)>(Request::Templates),
        (w == seq!['l', 'i', 's', 't'] || w == seq!['l', 's'] || w == seq!['l']) ==> command_of(
            seq![(w, true)],
        ) == Ok::<Request, (ErrorKind, Seq<char>)>(Request::List),
        ((w == seq!['n', 'e', 'w'] || w == seq!['n']) && forall|i: int|
            0 <= i < rest.len() ==> (#[trigger] rest[i]).1) ==> command_of(seq![(w, true)] + rest)
            == match new_request(rest.map_values(|a: (Seq<char>, bool)| a.0)) {
            Ok((name, title, template)) => Ok::<Request, (ErrorKind, Seq<char>)>(
                Request::New(name, title, template),
            ),
            Err(e) => Err(e),
        },
{
    let a = seq![(w, true)] + rest;
    assert(a[0] == (w, true));
    assert(a.skip(1) =~= rest);
    let one = seq![(w, true)];
    assert(one[0] == (w, true));
    if w == seq!['t', 'e', 'm', 'p', 'l', 'a', 't', 'e', 's'] || w == seq!['t'] || w == seq![
        'l',
        'i',
        's',
        't',
    ] || w == seq!['l', 's'] || w == seq!['l'] {
        assert(w[0] != 'b' && w[0] != 'n' && w[0] != 'h' && w[0] != '-');
        assert(!is_build_word(one[0]));
        assert(!is_help_word(one[0]));
        assert(!is_new_word(one[0]));
        if w == seq!['l', 'i', 's', 't'] || w == seq!['l', 's'] || w == seq!['l'] {
            assert(w[0] == 'l');
            assert(!is_templates_word(one[0]));
        }
    }
    if (w == seq!['n', 'e', 'w'] || w == seq!['n']) && forall|i: int|
        0 <= i < rest.len() ==> (#[trigger] rest[i]).1 {
        assert(w[0] == 'n');
        assert(!is_build_word(a[0]));
        assert forall|i: int| 0 <= i < a.len() implies (#[trigger] a[i]).1 by {
            if i > 0 {
                assert(a[i] == rest[i - 1]);
            }
        }
        if a.len() == 1 {
            assert(!is_help_word(a[0]));
        }
    }
}

/// The build options written out: `--all` or `-a` asks for every report
/// folder, and `--` ends the options.
pub proof fn build_option_words_are_exactly(a: (Seq<char>, bool))
    ensures
        is_all_word(a) <==> (a == (seq!['-', '-', 'a', 'l', 'l'], true) || a == (seq!['-', 'a'], true)),
        arg_is(a, separator()) <==> a == (seq!['-', '-'], true),
{
}

/// An invocation that starts with anything but a help word or the root option
/// works in the current directory.
pub proof fn other_invocations_work_here(args: Seq<(Seq<char>, bool)>)
    requires
        args.len() > 0,
        !args[0].1 || (args[0].0.len() > 0 && args[0].0[0] != '-' && args[0].0[0] != 'h'),
    ensures
        start_of(args) == Ok::<Start, (ErrorKind, Seq<char>)>(Start::Here),
{
    if args[0].1 {
        assert(seq!['h'][0] == 'h');
        assert(seq!['h', 'e', 'l', 'p'][0] == 'h');
        assert(seq!['-', 'h'][0] == '-');
        assert(seq!['-', '-', 'h', 'e', 'l', 'p'][0] == '-');
        assert(seq!['-', '-', 'r', 'o', 'o', 't'][0] == '-');
        assert(seq!['-', 'r'][0] == '-');
        assert(!is_help_word(args[0]));
        assert(!is_root_word(args[0]));
    }
}

/// `build` refuses, at the first argument that is none of `--`, `--all`,
/// `-a` but starts with `-`, an unknown option (named in the refusal); an empty
/// argument; and a lone `--`.
pub proof fn build_refuses_bad_arguments(o: Seq<char>, rest: Seq<(Seq<char>, bool)>, u: bool)
    requires
        o.len() > 0 && o[0] == '-',
        o != seq!['-', '-'],
        o != seq!['-', '-', 'a', 'l', 'l'],
        o != seq!['-', 'a'],
    ensures
        build_request(seq![(o, u)] + rest) == Err::<BuildRequest, (ErrorKind, Seq<char>)>(
            (ErrorKind::UnknownBuildOption, o),
        ),
        build_request(seq![(Seq::<char>::empty(), u)] + rest) == Err::<
            BuildRequest,
            (ErrorKind, Seq<char>),
        >((ErrorKind::EmptyPath, Seq::empty())),
        build_request(seq![(seq!['-', '-'], true)]) == Err::<BuildRequest, (ErrorKind, Seq<char>)>(
            (ErrorKind::NothingAfterSeparator, Seq::empty()),
        ),
{
    let a = seq![(o, u)] + rest;
    assert(a[0] == (o, u));
    assert(!arg_is(a[0], separator()));
    assert(!is_all_word(a[0]));
    let b = seq![(Seq::<char>::empty(), u)] + rest;
    assert(b[0] == (Seq::<char>::empty(), u));
    assert(!arg_is(b[0], separator()));
    assert(!is_all_word(b[0]));
    let c = seq![(seq!['-', '-'], true)];
    assert(c[0] == (seq!['-', '-'], true));
    let dd = seq!['-', '-'];
    assert(dd.len() == 2 && dd[1] == '-');
    assert(seq!['-', '-', 'a', 'l', 'l'].len() == 5);
    assert(dd != seq!['-', '-', 'a', 'l', 'l']);
    assert(seq!['-', 'a'][1] == 'a');
    assert(dd != seq!['-', 'a']);
    assert(!is_all_word(c[0]));
    assert(scan_build(c, 1, true, Seq::empty()) == Err::<Seq<usize>, (ErrorKind, Seq<char>)>(
        (ErrorKind::NothingAfterSeparator, Seq::empty()),
    ));
}

} // verus!
