//! Properties that relate the operations of the library.

use vstd::prelude::*;

use crate::cache::lookup::{path_for_version, version_for_path};
use crate::config::{env_view, options_view, opt_wf, text_lt, Opts};
use crate::process::{env_lines, key_version, lookup_version, resolved_env};
use crate::args::{Cli, Commands};
use crate::cache::discover::discovered_version_spec;
use crate::config::config_dir_spec;
use crate::process::strings_view;
use crate::select::{
    max_patch, named_match, plan_spec, scanned_version, version_match, PlanView, VersionMatchView,
};
use crate::text::{decimal, lemma_decimal, lemma_parse_decimal, lemma_run_end_block, CharClass};
use crate::cache::{
    key_of, lemma_triplet_text_reads_back, raw_view, same_version, triplet_text, triplet_view,
    version_from_text, VersionView,
};

verus! {

/// Two versions are equal exactly when the parts that their hash covers are equal, so
/// equal versions hash alike.
pub proof fn law_eq_matches_hash(a: VersionView, b: VersionView)
    ensures
        same_version(a, b) <==> key_of(a) == key_of(b),
{
}

/// Version equality is an equivalence: reflexive, symmetric and transitive.
pub proof fn law_eq_is_equivalence(a: VersionView, b: VersionView, c: VersionView)
    ensures
        same_version(a, a),
        same_version(a, b) ==> same_version(b, a),
        same_version(a, b) && same_version(b, c) ==> same_version(a, c),
{
}

/// The text of a numbered version reads back as that version.
pub proof fn law_triplet_text_reads_back(a: u32, b: u32, c: u32)
    ensures
        version_from_text(triplet_text(a, b, c)) == triplet_view(a, b, c),
{
    lemma_triplet_text_reads_back(Seq::<char>::empty(), a, b, c);
    assert(Seq::<char>::empty() + triplet_text(a, b, c) == triplet_text(a, b, c));
}

/// The environment chosen for a numbered version does not depend on its patch number.
pub proof fn law_env_ignores_patch(
    opt: Seq<(Seq<char>, Seq<(Seq<char>, Seq<char>)>)>,
    major: u32,
    minor: u32,
    p: u32,
    q: u32,
)
    ensures
        resolved_env(opt, triplet_view(major, minor, p)) == resolved_env(
            opt,
            triplet_view(major, minor, q),
        ),
    decreases opt.len(),
{
    assert(lookup_version(triplet_view(major, minor, p)) == lookup_version(
        triplet_view(major, minor, q),
    ));
    if opt.len() > 0 {
        law_env_ignores_patch(opt.drop_first(), major, minor, p, q);
    }
}

/// A configuration key `a.b` names version `a.b.0`, and so applies to every patch of
/// `a.b`.
pub proof fn law_key_names_minor_version(a: u32, b: u32)
    ensures
        key_version(decimal(a as nat) + seq!['.'] + decimal(b as nat)) == triplet_view(a, b, 0),
{
    let d1 = decimal(a as nat);
    let d2 = decimal(b as nat);
    lemma_decimal(a as nat);
    lemma_decimal(b as nat);
    lemma_parse_decimal(a);
    lemma_parse_decimal(b);
    let k = d1 + seq!['.'] + d2;
    lemma_find_char_block(k, 0, d1.len() as int, '.');
    assert(k[d1.len() as int] == '.');
    assert(k.subrange(0, d1.len() as int) == d1);
    lemma_find_char_block(k, d1.len() as int + 1, d2.len() as int, '.');
    assert(k.subrange(d1.len() as int + 1, k.len() as int) == d2);
}

/// Positions without `c` are skipped when searching for `c`.
proof fn lemma_find_char_block(s: Seq<char>, i: int, n: int, c: char)
    requires
        0 <= i,
        0 <= n,
        i + n <= s.len(),
        forall|k: int| i <= k < i + n ==> crate::text::is_digit(#[trigger] s[k]),
        crate::text::is_digit(c) == false,
        i + n == s.len() || s[i + n] == c,
    ensures
        crate::process::find_char(s, i, c) == i + n,
    decreases n,
{
    if n > 0 {
        lemma_find_char_block(s, i + 1, n - 1, c);
    }
}

/// A version named on the command line as `a.b.c` is that version, unless a raw-named
/// binary has exactly that text as its name.
pub proof fn law_cli_full_version(c: Seq<(Seq<char>, VersionView)>, a: u32, b: u32, p: u32)
    requires
        named_match(c, triplet_text(a, b, p)) is None,
    ensures
        scanned_version(c, triplet_text(a, b, p)) == Some(triplet_view(a, b, p)),
{
    let s = triplet_text(a, b, p);
    lemma_triplet_text_reads_back(Seq::<char>::empty(), a, b, p);
    assert(Seq::<char>::empty() + s == s);
}


/// A version named on the command line as `a.b` is the highest patch of `a.b` among the
/// cached numbered binaries, and `a.b.0` when there is none (unless a raw-named binary is
/// named exactly `a.b`).
pub proof fn law_cli_minor_version(c: Seq<(Seq<char>, VersionView)>, a: u32, b: u32)
    requires
        named_match(c, decimal(a as nat) + seq!['.'] + decimal(b as nat)) is None,
    ensures
        scanned_version(c, decimal(a as nat) + seq!['.'] + decimal(b as nat)) == Some(
            triplet_view(
                a,
                b,
                match max_patch(c, a, b) {
                    Some(p) => p,
                    None => 0,
                },
            ),
        ),
{
    let d1 = decimal(a as nat);
    let d2 = decimal(b as nat);
    lemma_decimal(a as nat);
    lemma_decimal(b as nat);
    lemma_parse_decimal(a);
    lemma_parse_decimal(b);
    let s = d1 + seq!['.'] + d2;
    assert(s[0] == d1[0]);
    let e1 = d1.len() as int;
    assert forall|k: int| 0 <= k < e1 implies crate::text::in_class(CharClass::Digit, #[trigger] s[k]) by {
        assert(s[k] == d1[k]);
    }
    lemma_run_end_block(s, 0, e1, CharClass::Digit);
    assert(s.subrange(0, e1) == d1);
    assert(s[e1] == '.');
    assert forall|k: int| e1 + 1 <= k < s.len() implies crate::text::in_class(CharClass::Digit, #[trigger] s[k]) by {
        assert(s[k] == d2[k - e1 - 1]);
    }
    lemma_run_end_block(s, e1 + 1, d2.len() as int, CharClass::Digit);
    assert(s.subrange(e1 + 1, s.len() as int) == d2);
    assert(s.subrange(s.len() as int, s.len() as int) == Seq::<char>::empty());
}

/// The highest patch of `a.b` is the patch of some numbered `a.b` entry and no such
/// entry has a higher one; there is none exactly when no such entry exists.
pub proof fn law_max_patch(c: Seq<(Seq<char>, VersionView)>, a: u32, b: u32)
    ensures
        match max_patch(c, a, b) {
            Some(p) => (exists|i: int|
                0 <= i < c.len() && c[i].1.raw is None && c[i].1.major == a && c[i].1.minor == b
                    && c[i].1.patch == p) && (forall|i: int|
                0 <= i < c.len() && c[i].1.raw is None && c[i].1.major == a && c[i].1.minor == b
                    ==> c[i].1.patch <= p),
            None => forall|i: int|
                0 <= i < c.len() ==> !(c[i].1.raw is None && c[i].1.major == a && c[i].1.minor
                    == b),
        },
    decreases c.len(),
{
    if c.len() > 0 {
        let rest = c.drop_first();
        law_max_patch(rest, a, b);
        assert forall|i: int| 0 < i < c.len() implies c[i] == rest[i - 1] by {}
        match max_patch(rest, a, b) {
            Some(p) => {
                let j = choose|j: int|
                    0 <= j < rest.len() && rest[j].1.raw is None && rest[j].1.major == a
                        && rest[j].1.minor == b && rest[j].1.patch == p;
                assert(c[j + 1] == rest[j]);
            },
            None => {},
        }
    }
}

/// Looking up the binary of a version and then the version of that binary gives the
/// same version back, when every path occurs once in the cache.
pub proof fn law_lookup_round_trip(c: Seq<(Seq<char>, VersionView)>, v: VersionView)
    requires
        forall|i: int, j: int| 0 <= i < j < c.len() ==> c[i].0 != c[j].0,
    ensures
        path_for_version(c, v) matches Some(p) ==> (version_for_path(c, p) matches Some(w)
            && same_version(w, v)),
    decreases c.len(),
{
    if c.len() > 0 {
        let rest = c.drop_first();
        assert forall|i: int, j: int| 0 <= i < j < rest.len() implies rest[i].0 != rest[j].0 by {
            assert(rest[i] == c[i + 1] && rest[j] == c[j + 1]);
        }
        law_lookup_round_trip(rest, v);
        if !same_version(c[0].1, v) {
            if let Some(p) = path_for_version(rest, v) {
                lemma_path_for_version(rest, v);
                let j = choose|j: int| 0 <= j < rest.len() && rest[j].0 == p && same_version(rest[j].1, v);
                assert(c[j + 1] == rest[j]);
                assert(c[0].0 != p);
            }
        }
    }
}

/// A path that a version lookup gives is that of an entry of the same version, and the
/// lookup finds nothing only when no entry has that version.
proof fn lemma_path_for_version(c: Seq<(Seq<char>, VersionView)>, v: VersionView)
    ensures
        match path_for_version(c, v) {
            Some(p) => exists|j: int| 0 <= j < c.len() && c[j].0 == p && same_version(c[j].1, v),
            None => forall|j: int| 0 <= j < c.len() ==> !same_version(#[trigger] c[j].1, v),
        },
    decreases c.len(),
{
    if c.len() > 0 {
        let rest = c.drop_first();
        lemma_path_for_version(rest, v);
        assert forall|j: int| 0 < j < c.len() implies c[j] == rest[j - 1] by {}
        if !same_version(c[0].1, v) {
            if let Some(p) = path_for_version(rest, v) {
                let j = choose|j: int| 0 <= j < rest.len() && rest[j].0 == p && same_version(rest[j].1, v);
                assert(c[j + 1] == rest[j]);
            }
        }
    }
}

/// Within a view of per-version options: the key at `i` occurs at no earlier position.
proof fn lemma_raw_key_first(o: Seq<(Seq<char>, Seq<(Seq<char>, Seq<char>)>)>, i: int)
    requires
        0 <= i < o.len(),
        forall|j: int| 0 <= j < i ==> o[j].0 != o[i].0,
        key_version(o[i].0).raw is Some,
    ensures
        resolved_env(o, raw_view(o[i].0)) == env_lines(o[i].1),
    decreases i,
{
    let k = o[i].0;
    assert(lookup_version(raw_view(k)) == raw_view(k));
    if i == 0 {
        assert(key_version(k) == raw_view(k));
    } else {
        let j0 = o[0].0;
        assert(!same_version(key_version(j0), raw_view(k))) by {
            if key_version(j0).raw is Some {
                assert(key_version(j0) == raw_view(j0));
            }
        }
        let rest = o.drop_first();
        assert forall|j: int| 0 <= j < i - 1 implies (#[trigger] rest[j]).0 != rest[i - 1].0 by {
            assert(rest[j] == o[j + 1]);
        }
        lemma_raw_key_first(rest, i - 1);
    }
}

/// A configuration key that is not a version number applies to the raw version of that
/// name: since each key occurs once, its own options are the ones chosen.
pub proof fn law_raw_key_selects_its_options(opt: Seq<(String, Opts)>, i: int)
    requires
        opt_wf(opt),
        0 <= i < opt.len(),
        key_version(opt[i].0@).raw is Some,
    ensures
        resolved_env(options_view(opt), raw_view(opt[i].0@)) == env_lines(env_view(opt[i].1.env@)),
{
    let o = options_view(opt);
    assert forall|j: int| 0 <= j < i implies o[j].0 != o[i].0 by {
        assert(opt[j].0@ != opt[i].0@);
    }
    lemma_raw_key_first(o, i);
}

/// The chosen environment is that of one configuration entry, or empty.
proof fn lemma_resolved_env_is_an_entry(o: Seq<(Seq<char>, Seq<(Seq<char>, Seq<char>)>)>, v: VersionView)
    ensures
        resolved_env(o, v) == Seq::<Seq<char>>::empty() || exists|i: int|
            0 <= i < o.len() && resolved_env(o, v) == env_lines(#[trigger] o[i].1),
    decreases o.len(),
{
    if o.len() > 0 && !same_version(key_version(o[0].0), lookup_version(v)) {
        let rest = o.drop_first();
        lemma_resolved_env_is_an_entry(rest, v);
        if resolved_env(rest, v) != Seq::<Seq<char>>::empty() {
            let i = choose|i: int| 0 <= i < rest.len() && resolved_env(rest, v) == env_lines(#[trigger] rest[i].1);
            assert(o[i + 1] == rest[i]);
        }
    }
}

/// The environment variables chosen for a version come in strictly ascending order of
/// their names, so none is set twice, when each options entry keeps its variables as a
/// sorted map does.
pub proof fn law_env_in_name_order(opt: Seq<(String, Opts)>, v: VersionView)
    requires
        opt_wf(opt),
    ensures
        resolved_env(options_view(opt), v) == Seq::<Seq<char>>::empty() || exists|e: Seq<(Seq<char>, Seq<char>)>|
            resolved_env(options_view(opt), v) == env_lines(e) && forall|a: int, b: int|
                0 <= a < b < e.len() ==> text_lt(#[trigger] e[a].0, #[trigger] e[b].0),
{
    let o = options_view(opt);
    lemma_resolved_env_is_an_entry(o, v);
    if resolved_env(o, v) != Seq::<Seq<char>>::empty() {
        let i = choose|i: int| 0 <= i < o.len() && resolved_env(o, v) == env_lines(#[trigger] o[i].1);
        let e = o[i].1;
        assert(opt[i].1.wf());
        assert(e == env_view(opt[i].1.env@));
        assert forall|a: int, b: int| 0 <= a < b < e.len() implies text_lt(#[trigger] e[a].0, #[trigger] e[b].0) by {
            assert(e[a].0 == opt[i].1.env@[a].0@);
            assert(e[b].0 == opt[i].1.env@[b].0@);
        }
    }
}

/// A version named on the command line is installed at a path only when a cached
/// binary of that same version sits at that path; it is missing exactly when no cached
/// binary has it.
pub proof fn law_version_match(c: Seq<(Seq<char>, VersionView)>, s: Seq<char>)
    ensures
        match version_match(c, s) {
            VersionMatchView::NotAVersion => scanned_version(c, s) is None,
            VersionMatchView::Installed(p, v) => scanned_version(c, s) == Some(v) && exists|i: int|
                0 <= i < c.len() && c[i].0 == p && same_version(c[i].1, v),
            VersionMatchView::Missing(v) => scanned_version(c, s) == Some(v) && forall|i: int|
                0 <= i < c.len() ==> !same_version(#[trigger] c[i].1, v),
        },
{
    if let Some(v) = scanned_version(c, s) {
        lemma_path_for_version(c, v);
    }
}

/// When the first argument of a run or of a preview names an installed version, that
/// version's binary runs with the other arguments in their order (for a preview, inside
/// `watch`) and with exactly the environment configured for that version, whether the
/// version is raw-named or numbered.
pub proof fn law_installed_version_runs_with_its_env(
    cli: Cli,
    c: Seq<(Seq<char>, VersionView)>,
    opt: Seq<(Seq<char>, Seq<(Seq<char>, Seq<char>)>)>,
    p: Seq<char>,
    v: VersionView,
)
    ensures
        match cli.command {
            None => {
                let args = strings_view(cli.remaining.remaining@);
                args.len() > 0 && version_match(c, args[0]) == VersionMatchView::Installed(p, v)
                    ==> plan_spec(cli, c, opt) == (PlanView::Run {
                    binary: Some(p),
                    args: args.drop_first(),
                    env: Some(resolved_env(opt, v)),
                    env_required: false,
                })
            },
            Some(Commands::Preview(r)) => {
                let args = strings_view(r.remaining@);
                args.len() > 0 && version_match(c, args[0]) == VersionMatchView::Installed(p, v)
                    ==> plan_spec(cli, c, opt) == (PlanView::Run {
                    binary: Some(p),
                    args: seq!["watch"@] + args.drop_first() + seq![
                        "/tmp/typface_preview.pdf"@,
                        "--open"@,
                    ],
                    env: Some(resolved_env(opt, v)),
                    env_required: false,
                })
            },
            _ => true,
        },
{
}

/// When the first argument of a run or of a preview names a version that no cached
/// binary has, nothing is run and that version is reported missing; the default binary
/// is never run in its place.
pub proof fn law_missing_version_runs_nothing(
    cli: Cli,
    c: Seq<(Seq<char>, VersionView)>,
    opt: Seq<(Seq<char>, Seq<(Seq<char>, Seq<char>)>)>,
    v: VersionView,
)
    ensures
        match cli.command {
            None => {
                let args = strings_view(cli.remaining.remaining@);
                args.len() > 0 && version_match(c, args[0]) == VersionMatchView::Missing(v)
                    ==> plan_spec(cli, c, opt) == PlanView::Missing(v)
            },
            Some(Commands::Preview(r)) => {
                let args = strings_view(r.remaining@);
                args.len() > 0 && version_match(c, args[0]) == VersionMatchView::Missing(v)
                    ==> plan_spec(cli, c, opt) == PlanView::Missing(v)
            },
            _ => true,
        },
{
}

/// When the first argument names no version (or there is none), the default binary runs
/// with every argument (for a preview, inside `watch`, and then the default binary must
/// be a cached one for its environment); `--` always runs the default binary with every
/// following argument.
pub proof fn law_no_version_runs_default(
    cli: Cli,
    c: Seq<(Seq<char>, VersionView)>,
    opt: Seq<(Seq<char>, Seq<(Seq<char>, Seq<char>)>)>,
)
    ensures
        match cli.command {
            None => {
                let args = strings_view(cli.remaining.remaining@);
                args.len() == 0 || version_match(c, args[0]) == VersionMatchView::NotAVersion
                    ==> plan_spec(cli, c, opt) == (PlanView::Run {
                    binary: None,
                    args: args,
                    env: None,
                    env_required: false,
                })
            },
            Some(Commands::Preview(r)) => {
                let args = strings_view(r.remaining@);
                args.len() == 0 || version_match(c, args[0]) == VersionMatchView::NotAVersion
                    ==> plan_spec(cli, c, opt) == (PlanView::Run {
                    binary: None,
                    args: seq!["watch"@] + args + seq!["/tmp/typface_preview.pdf"@, "--open"@],
                    env: None,
                    env_required: true,
                })
            },
            Some(Commands::Defer(r)) => plan_spec(cli, c, opt) == (PlanView::Run {
                binary: None,
                args: strings_view(r.remaining@),
                env: None,
                env_required: false,
            }),
            Some(Commands::Discover) => plan_spec(cli, c, opt) == PlanView::Discover,
            Some(Commands::List) => plan_spec(cli, c, opt) == PlanView::List,
        },
{
}

/// A binary that the configuration names gets that name as its raw version, whatever
/// running it would report; an unnamed binary gets a version only from a run that
/// exited with status 0 and printed valid UTF-8.
pub proof fn law_configured_name_wins(named: Option<Seq<char>>, status: Option<i32>, stdout: Seq<u8>)
    ensures
        named matches Some(n) ==> discovered_version_spec(named, status, stdout) == Some(raw_view(n)),
        named is None && discovered_version_spec(named, status, stdout) is Some ==> status == Some(0i32)
            && vstd::utf8::valid_utf8(stdout),
{
}

/// The configuration directory is `typface/` inside `$XDG_CONFIG_HOME` when that is set,
/// and inside `$HOME/.config/` otherwise.
pub proof fn law_config_dir(xdg: Seq<char>, home: Seq<char>)
    ensures
        xdg.len() > 0 && xdg.last() != '/' ==> config_dir_spec(Some(xdg), Some(home)) == xdg + "/typface/"@,
        xdg.len() > 0 && xdg.last() == '/' ==> config_dir_spec(Some(xdg), Some(home)) == xdg + "typface/"@,
        config_dir_spec(None, Some(home)) == home + "/.config/typface/"@,
{
    reveal_strlit("/.config/");
    reveal_strlit("/.config/typface/");
    reveal_strlit("typface/");
    reveal_strlit("/typface/");
    let b = home + "/.config/"@;
    assert(b.last() == '/');
    assert(b + "typface/"@ =~= home + "/.config/typface/"@);
    assert(xdg + seq!['/'] + "typface/"@ =~= xdg + "/typface/"@);
    assert(xdg + Seq::<char>::empty() + "typface/"@ =~= xdg + "typface/"@);
}

/// An argument that is exactly the name of a raw-named cached binary names that
/// binary's version (its first entry), before any reading of the argument as a number.
pub proof fn law_raw_name_on_command_line(c: Seq<(Seq<char>, VersionView)>, i: int)
    requires
        0 <= i < c.len(),
        c[i].1.raw is Some,
        forall|j: int| 0 <= j < i ==> (#[trigger] c[j]).1.raw != c[i].1.raw,
    ensures
        scanned_version(c, c[i].1.raw->0) == Some(c[i].1),
{
    lemma_named_match_first(c, i);
}

/// The first raw-named entry of a name is the one `named_match` finds.
proof fn lemma_named_match_first(c: Seq<(Seq<char>, VersionView)>, i: int)
    requires
        0 <= i < c.len(),
        c[i].1.raw is Some,
        forall|j: int| 0 <= j < i ==> (#[trigger] c[j]).1.raw != c[i].1.raw,
    ensures
        named_match(c, c[i].1.raw->0) == Some(c[i].1),
    decreases i,
{
    if i > 0 {
        let rest = c.drop_first();
        assert forall|j: int| 0 <= j < i - 1 implies (#[trigger] rest[j]).1.raw != rest[i - 1].1.raw by {
            assert(rest[j] == c[j + 1]);
        }
        lemma_named_match_first(rest, i - 1);
        assert(c[0].1.raw != c[i].1.raw);
    }
}

} // verus!
