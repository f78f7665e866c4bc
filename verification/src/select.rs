//! Choosing which Typst to run: versions named on the command line, and the plan that
//! a command line leads to.

use vstd::prelude::*;

use crate::args::{Cli, Commands};
use crate::cache::read_cache::{cache_view, Cache};
use crate::config::{options_view, Opt};
use crate::process::{resolve_env, resolved_env, strings_view};
use crate::cache::lookup::path_for_version;
use crate::text::{chars_of, parse_u32, parse_u32_spec, run_end, scan_run, CharClass};
use crate::cache::{
    char_at_is, prefix_of, triplet_view, version_text, TypstVersion, VersionPrefix,
    VersionView,
};

verus! {

/// The first raw-named entry whose name is exactly `s`.
pub open spec fn named_match(c: Seq<(Seq<char>, VersionView)>, s: Seq<char>) -> Option<VersionView>
    decreases c.len(),
{
    if c.len() == 0 {
        None
    } else if prefix_of(c[0].1) == VersionPrefix::Raw && version_text(c[0].1) == s {
        Some(c[0].1)
    } else {
        named_match(c.drop_first(), s)
    }
}

/// The highest patch number among the numbered entries of version `major.minor`.
pub open spec fn max_patch(c: Seq<(Seq<char>, VersionView)>, major: u32, minor: u32) -> Option<u32>
    decreases c.len(),
{
    if c.len() == 0 {
        None
    } else {
        let rest = max_patch(c.drop_first(), major, minor);
        let e = c[0].1;
        if e.raw is None && e.major == major && e.minor == minor {
            match rest {
                Some(p) => Some(if e.patch >= p { e.patch } else { p }),
                None => Some(e.patch),
            }
        } else {
            rest
        }
    }
}

/// The version that a command-line argument names, given the cache: the raw name of an
/// entry when the argument is exactly that name; otherwise, after leading whitespace,
/// `major.minor` optionally followed by `.patch` (anything after is ignored). Without a
/// readable patch number, the highest patch of `major.minor` in the cache is taken, and
/// patch 0 when the cache has none.
pub open spec fn scanned_version(c: Seq<(Seq<char>, VersionView)>, s: Seq<char>) -> Option<VersionView> {
    match named_match(c, s) {
        Some(v) => Some(v),
        None => {
            let i = run_end(s, 0, CharClass::Whitespace);
            let e1 = run_end(s, i, CharClass::Digit);
            if !char_at_is(s, e1, '.') {
                None
            } else {
                let e2 = run_end(s, e1 + 1, CharClass::Digit);
                let p0 = if char_at_is(s, e2, '.') {
                    e2 + 1
                } else {
                    e2
                };
                let e3 = run_end(s, p0, CharClass::Digit);
                match (
                    parse_u32_spec(s.subrange(i, e1)),
                    parse_u32_spec(s.subrange(e1 + 1, e2)),
                ) {
                    (Some(a), Some(b)) => {
                        let patch = match parse_u32_spec(s.subrange(p0, e3)) {
                            Some(p) => p,
                            None => match max_patch(c, a, b) {
                                Some(p) => p,
                                None => 0,
                            },
                        };
                        Some(triplet_view(a, b, patch))
                    },
                    _ => None,
                }
            }
        },
    }
}

/// The first raw-named entry named exactly `s`.
fn find_named(s: &String, cache: &Cache) -> (r: Option<TypstVersion>)
    ensures
        crate::cache::read_cache::opt_version_view(r) == named_match(cache_view(cache@), s@),
{
    let ghost c = cache_view(cache@);
    let mut k: usize = 0;
    assert(c.skip(0) == c);
    while k < cache.len()
        invariant
            k <= cache@.len(),
            c == cache_view(cache@),
            named_match(c, s@) == named_match(c.skip(k as int), s@),
        decreases cache@.len() - k,
    {
        assert(c.skip(k as int)[0] == c[k as int]);
        let v = &cache[k].1;
        if v.get_prefix() == VersionPrefix::Raw {
            let text = v.get_string();
            if text == *s {
                return Some(v.duplicate());
            }
        }
        assert(c.skip(k as int).drop_first() == c.skip(k + 1));
        k = k + 1;
    }
    assert(c.skip(k as int).len() == 0);
    None
}

/// The highest patch number of `major.minor` among the numbered cache entries.
fn highest_patch(cache: &Cache, major: u32, minor: u32) -> (r: Option<u32>)
    ensures
        r == max_patch(cache_view(cache@), major, minor),
{
    let ghost c = cache_view(cache@);
    let mut best: Option<u32> = None;
    let mut k: usize = cache.len();
    assert(c.skip(c.len() as int).len() == 0);
    while k > 0
        invariant
            k <= cache@.len(),
            c == cache_view(cache@),
            best == max_patch(c.skip(k as int), major, minor),
        decreases k,
    {
        k = k - 1;
        assert(c.skip(k as int).drop_first() == c.skip(k + 1));
        assert(c.skip(k as int)[0] == c[k as int]);
        let v = &cache[k].1;
        if v.raw.is_none() && v.major == major && v.minor == minor {
            best = match best {
                Some(p) => Some(if v.patch >= p { v.patch } else { p }),
                None => Some(v.patch),
            };
        }
    }
    assert(c.skip(0) == c);
    best
}

/// The version that a command-line argument names (see `scanned_version`).
pub fn cli_scan_version(s: &str, cache: &Cache) -> (r: Option<TypstVersion>)
    ensures
        crate::cache::read_cache::opt_version_view(r) == scanned_version(cache_view(cache@), s@),
{
    let owned = s.to_owned();
    if let Some(v) = find_named(&owned, cache) {
        return Some(v);
    }
    let cs = chars_of(s);
    let t = cs.as_slice();
    let i = scan_run(t, 0, CharClass::Whitespace);
    let e1 = scan_run(t, i, CharClass::Digit);
    let major = parse_u32(t, i, e1);
    if !(e1 < cs.len() && cs[e1] == '.') {
        return None;
    }
    let e2 = scan_run(t, e1 + 1, CharClass::Digit);
    let minor = parse_u32(t, e1 + 1, e2);
    let p0 = if e2 < cs.len() && cs[e2] == '.' {
        e2 + 1
    } else {
        e2
    };
    let e3 = scan_run(t, p0, CharClass::Digit);
    let patch = parse_u32(t, p0, e3);
    match (major, minor) {
        (Some(a), Some(b)) => {
            let p = match patch {
                Some(p) => p,
                None => match highest_patch(cache, a, b) {
                    Some(p) => p,
                    None => 0,
                },
            };
            Some(TypstVersion::new(a, b, p))
        },
        _ => None,
    }
}


/// What a command-line argument says about the version to run.
pub enum VersionMatch {
    /// The argument names no version.
    NotAVersion,
    /// The argument names a version, installed at the path.
    Installed(String, TypstVersion),
    /// The argument names a version that no cached binary has.
    Missing(TypstVersion),
}

/// A version match as a value.
pub enum VersionMatchView {
    NotAVersion,
    Installed(Seq<char>, VersionView),
    Missing(VersionView),
}

impl View for VersionMatch {
    type V = VersionMatchView;

    open spec fn view(&self) -> VersionMatchView {
        match self {
            VersionMatch::NotAVersion => VersionMatchView::NotAVersion,
            VersionMatch::Installed(p, v) => VersionMatchView::Installed(p@, v@),
            VersionMatch::Missing(v) => VersionMatchView::Missing(v@),
        }
    }
}

/// The version an argument names and the first cached binary of that version.
pub open spec fn version_match(c: Seq<(Seq<char>, VersionView)>, s: Seq<char>) -> VersionMatchView {
    match scanned_version(c, s) {
        None => VersionMatchView::NotAVersion,
        Some(v) => match path_for_version(c, v) {
            Some(p) => VersionMatchView::Installed(p, v),
            None => VersionMatchView::Missing(v),
        },
    }
}

/// Reads a version from a command-line argument and finds a binary of it.
pub fn match_version(s: &str, cache: &Cache) -> (r: VersionMatch)
    ensures
        r@ == version_match(cache_view(cache@), s@),
{
    match cli_scan_version(s, cache) {
        None => VersionMatch::NotAVersion,
        Some(version) => match crate::cache::lookup::binary(&version, cache) {
            Some(bin) => VersionMatch::Installed(bin, version),
            None => VersionMatch::Missing(version),
        },
    }
}


/// The binary to run.
pub enum Binary {
    /// The configured default binary.
    Default,
    /// A binary found in the cache.
    Path(String),
}

/// Where the extra environment comes from.
pub enum EnvSource {
    /// These lines.
    Lines(Vec<String>),
    /// The options of the default binary's cached version; when `required`, that binary
    /// must be in the cache, and otherwise no extra environment is used.
    OfDefault { required: bool },
}

/// What a command line leads to.
pub enum Plan {
    /// Run a binary with arguments and extra environment.
    Run { binary: Binary, args: Vec<String>, env: EnvSource },
    /// Rediscover the installed binaries.
    Discover,
    /// List the cached binaries.
    List,
    /// The command line names a version that is not installed.
    Missing(TypstVersion),
}

/// A plan as a value: for `Run`, `binary` is `None` for the default binary and `env`
/// is `None` for the default binary's environment.
pub enum PlanView {
    Run { binary: Option<Seq<char>>, args: Seq<Seq<char>>, env: Option<Seq<Seq<char>>>, env_required: bool },
    Discover,
    List,
    Missing(VersionView),
}

impl View for Plan {
    type V = PlanView;

    open spec fn view(&self) -> PlanView {
        match self {
            Plan::Run { binary, args, env } => PlanView::Run {
                binary: match binary {
                    Binary::Default => None,
                    Binary::Path(p) => Some(p@),
                },
                args: strings_view(args@),
                env: match env {
                    EnvSource::Lines(l) => Some(strings_view(l@)),
                    EnvSource::OfDefault { .. } => None,
                },
                env_required: match env {
                    EnvSource::Lines(_) => false,
                    EnvSource::OfDefault { required } => *required,
                },
            },
            Plan::Discover => PlanView::Discover,
            Plan::List => PlanView::List,
            Plan::Missing(v) => PlanView::Missing(v@),
        }
    }
}

/// The arguments of a preview: `watch`, the given arguments, and the output file to
/// open.
pub open spec fn preview_args_spec(rest: Seq<Seq<char>>) -> Seq<Seq<char>> {
    seq!["watch"@] + rest + seq!["/tmp/typface_preview.pdf"@, "--open"@]
}

/// The arguments for `typst watch` that writes a preview and opens it.
pub fn preview_args(rest: Vec<String>) -> (r: Vec<String>)
    ensures
        strings_view(r@) == preview_args_spec(strings_view(rest@)),
        r@.len() == rest@.len() + 3,
        r@[0]@ == "watch"@,
        forall|i: int| 0 <= i < rest@.len() ==> (#[trigger] r@[i + 1])@ == rest@[i]@,
        r@[rest@.len() + 1int]@ == "/tmp/typface_preview.pdf"@,
        r@[rest@.len() + 2int]@ == "--open"@,
{
    let mut r: Vec<String> = Vec::new();
    r.push("watch".to_owned());
    let mut k: usize = 0;
    while k < rest.len()
        invariant
            k <= rest@.len(),
            strings_view(r@) == seq!["watch"@] + strings_view(rest@).take(k as int),
        decreases rest@.len() - k,
    {
        let ghost prev = r@;
        r.push(rest[k].clone());
        assert(strings_view(r@) =~= strings_view(prev).push(rest@[k as int]@));
        assert(strings_view(rest@).take(k + 1) == strings_view(rest@).take(k as int).push(
            rest@[k as int]@,
        ));
        k = k + 1;
    }
    assert(strings_view(rest@).take(k as int) == strings_view(rest@));
    r.push("/tmp/typface_preview.pdf".to_owned());
    r.push("--open".to_owned());
    assert(strings_view(r@) =~= preview_args_spec(strings_view(rest@)));
    proof {
        law_preview_args(strings_view(rest@));
        assert forall|i: int| 0 <= i < rest@.len() implies (#[trigger] r@[i + 1])@ == rest@[i]@ by {
            assert(strings_view(r@)[i + 1] == r@[i + 1]@);
            assert(strings_view(rest@)[i] == rest@[i]@);
        }
        assert(strings_view(r@)[0] == r@[0]@);
        assert(strings_view(r@)[rest@.len() + 1int] == r@[rest@.len() + 1int]@);
        assert(strings_view(r@)[rest@.len() + 2int] == r@[rest@.len() + 2int]@);
    }
    r
}

/// The arguments of a preview are `watch`, then every given argument in its order, then
/// the output file `/tmp/typface_preview.pdf` and `--open`.
pub proof fn law_preview_args(rest: Seq<Seq<char>>)
    ensures
        preview_args_spec(rest).len() == rest.len() + 3,
        preview_args_spec(rest)[0] == "watch"@,
        forall|i: int| 0 <= i < rest.len() ==> #[trigger] preview_args_spec(rest)[i + 1] == rest[i],
        preview_args_spec(rest)[rest.len() + 1int] == "/tmp/typface_preview.pdf"@,
        preview_args_spec(rest)[rest.len() + 2int] == "--open"@,
{
}

/// The arguments passed on, as a preview wants them or unchanged.
pub open spec fn passed_args(preview: bool, args: Seq<Seq<char>>) -> Seq<Seq<char>> {
    if preview {
        preview_args_spec(args)
    } else {
        args
    }
}

/// Running Typst with `args`: when the first argument names an installed version, that
/// binary with the rest of the arguments and the version's environment; when it names a
/// version that is not installed, nothing runs; otherwise the default binary with all the
/// arguments and the default binary's environment (which a preview requires).
pub open spec fn run_plan(
    c: Seq<(Seq<char>, VersionView)>,
    opt: Seq<(Seq<char>, Seq<(Seq<char>, Seq<char>)>)>,
    args: Seq<Seq<char>>,
    preview: bool,
) -> PlanView {
    let m = if args.len() > 0 {
        version_match(c, args[0])
    } else {
        VersionMatchView::NotAVersion
    };
    match m {
        VersionMatchView::Installed(p, v) => PlanView::Run {
            binary: Some(p),
            args: passed_args(preview, args.drop_first()),
            env: Some(resolved_env(opt, v)),
            env_required: false,
        },
        VersionMatchView::Missing(v) => PlanView::Missing(v),
        VersionMatchView::NotAVersion => PlanView::Run {
            binary: None,
            args: passed_args(preview, args),
            env: None,
            env_required: preview,
        },
    }
}

/// Runs Typst with `args` (see `run_plan`).
fn plan_run(cache: &Cache, opt: &Opt, args: Vec<String>, preview: bool) -> (p: Plan)
    ensures
        p@ == run_plan(cache_view(cache@), options_view(opt@), strings_view(args@), preview),
{
    let ghost sa = strings_view(args@);
    if args.len() > 0 {
        let m = match_version(args[0].as_str(), cache);
        match m {
            VersionMatch::Installed(bin, version) => {
                let mut rest: Vec<String> = Vec::new();
                let mut k: usize = 1;
                while k < args.len()
                    invariant
                        1 <= k <= args@.len(),
                        sa == strings_view(args@),
                        strings_view(rest@) == sa.subrange(1, k as int),
                    decreases args@.len() - k,
                {
                    let ghost prev = rest@;
                    rest.push(args[k].clone());
                    assert(strings_view(rest@) =~= strings_view(prev).push(args@[k as int]@));
                    assert(sa.subrange(1, k + 1) == sa.subrange(1, k as int).push(sa[k as int]));
                    k = k + 1;
                }
                assert(sa.subrange(1, k as int) == sa.drop_first());
                let env = resolve_env(opt, &version);
                let out_args = if preview {
                    preview_args(rest)
                } else {
                    rest
                };
                return Plan::Run { binary: Binary::Path(bin), args: out_args, env: EnvSource::Lines(env) };
            },
            VersionMatch::Missing(version) => {
                return Plan::Missing(version);
            },
            VersionMatch::NotAVersion => {},
        }
    }
    let out_args = if preview {
        preview_args(args)
    } else {
        args
    };
    Plan::Run { binary: Binary::Default, args: out_args, env: EnvSource::OfDefault { required: preview } }
}

/// What a command line leads to: `--` runs the default binary with all the arguments;
/// `preview` and no subcommand run Typst as `run_plan` says (a preview through `watch`);
/// `discover` and `list` are passed on.
pub open spec fn plan_spec(
    cli: Cli,
    c: Seq<(Seq<char>, VersionView)>,
    opt: Seq<(Seq<char>, Seq<(Seq<char>, Seq<char>)>)>,
) -> PlanView {
    match cli.command {
        Some(Commands::Defer(r)) => PlanView::Run {
            binary: None,
            args: strings_view(r.remaining@),
            env: None,
            env_required: false,
        },
        Some(Commands::Preview(r)) => run_plan(c, opt, strings_view(r.remaining@), true),
        Some(Commands::Discover) => PlanView::Discover,
        Some(Commands::List) => PlanView::List,
        None => run_plan(c, opt, strings_view(cli.remaining.remaining@), false),
    }
}

/// Decides what a command line leads to (see `plan_spec`).
pub fn plan(cli: Cli, cache: &Cache, opt: &Opt) -> (p: Plan)
    ensures
        p@ == plan_spec(cli, cache_view(cache@), options_view(opt@)),
{
    match cli.command {
        Some(Commands::Defer(r)) => Plan::Run {
            binary: Binary::Default,
            args: r.remaining,
            env: EnvSource::OfDefault { required: false },
        },
        Some(Commands::Preview(r)) => plan_run(cache, opt, r.remaining, true),
        Some(Commands::Discover) => Plan::Discover,
        Some(Commands::List) => Plan::List,
        None => plan_run(cache, opt, cli.remaining.remaining, false),
    }
}

/// The extra environment of a binary: that of its cached version, if it has one.
pub fn env_for_binary(binary: &str, cache: &Cache, opt: &Opt) -> (r: Option<Vec<String>>)
    ensures
        match r {
            Some(e) => crate::cache::lookup::version_for_path(cache_view(cache@), binary@) matches Some(
                v,
            ) && strings_view(e@) == resolved_env(options_view(opt@), v),
            None => crate::cache::lookup::version_for_path(cache_view(cache@), binary@) is None,
        },
{
    match crate::cache::lookup::version(binary, cache) {
        Some(v) => Some(resolve_env(opt, &v)),
        None => None,
    }
}

} // verus!
