use typface::args::{Cli, Commands, Remaining};
use typface::cache::read_cache::Cache;
use typface::config::{Opt, Opts};
use typface::listing::list_report;
use typface::select::{
    cli_scan_version, env_for_binary, match_version, plan, preview_args, Binary, EnvSource,
    Plan, VersionMatch,
};
use typface::cache::TypstVersion;

fn cache() -> Cache {
    vec![
        ("/bin/typst-a".to_string(), TypstVersion::new(0, 13, 0)),
        ("/bin/typst-b".to_string(), TypstVersion::new(0, 13, 1)),
        ("/bin/typst-debug".to_string(), TypstVersion::raw("debug".into())),
        ("/bin/typst-c".to_string(), TypstVersion::new(0, 14, 2)),
        ("/bin/typst-x".to_string(), TypstVersion::raw("0.9".into())),
        ("/bin/typst-d".to_string(), TypstVersion::new(0, 13, 1)),
    ]
}

fn opt() -> Opt {
    vec![("0.13".to_string(), Opts { env: vec![("F".to_string(), "1".to_string())] })]
}

fn strs(v: &[&str]) -> Vec<String> {
    v.iter().map(|s| s.to_string()).collect()
}

#[test]
fn scan_full_and_short_versions() {
    let c = cache();
    let v = cli_scan_version("0.13.0", &c).unwrap();
    assert!(v == TypstVersion::new(0, 13, 0));
    let v = cli_scan_version("0.13", &c).unwrap();
    assert!(v == TypstVersion::new(0, 13, 1));
    let v = cli_scan_version("  0.14", &c).unwrap();
    assert!(v == TypstVersion::new(0, 14, 2));
    let v = cli_scan_version("0.13.7", &c).unwrap();
    assert!(v == TypstVersion::new(0, 13, 7));
    // a two-part version with no cached patch still names a version: patch 0
    let v = cli_scan_version("0.15", &c).unwrap();
    assert!(v == TypstVersion::new(0, 15, 0));
    // Unicode whitespace before the numbers is skipped
    let v = cli_scan_version("\u{3000}\u{2009}0.14", &c).unwrap();
    assert!(v == TypstVersion::new(0, 14, 2));
    assert!(cli_scan_version("main.typ", &c).is_none());
    assert!(cli_scan_version("13", &c).is_none());
    assert!(cli_scan_version(".13", &c).is_none());
}

#[test]
fn scan_named_versions_first() {
    let c = cache();
    assert_eq!(cli_scan_version("debug", &c).unwrap().raw.as_deref(), Some("debug"));
    // a raw name that looks like a version is matched by name
    assert_eq!(cli_scan_version("0.9", &c).unwrap().raw.as_deref(), Some("0.9"));
}

#[test]
fn scan_patch_overflow_falls_back_to_highest() {
    let c = cache();
    let v = cli_scan_version("0.13.99999999999", &c).unwrap();
    assert!(v == TypstVersion::new(0, 13, 1));
}

#[test]
fn match_versions() {
    let c = cache();
    match match_version("0.13", &c) {
        VersionMatch::Installed(p, v) => {
            assert_eq!(p, "/bin/typst-b");
            assert!(v == TypstVersion::new(0, 13, 1));
        }
        _ => panic!("expected an installed version"),
    }
    match match_version("0.15", &c) {
        VersionMatch::Missing(v) => assert!(v == TypstVersion::new(0, 15, 0)),
        _ => panic!("expected a missing version"),
    }
    match match_version("0.13.5", &c) {
        VersionMatch::Missing(v) => assert!(v == TypstVersion::new(0, 13, 5)),
        _ => panic!("expected a missing version"),
    }
    assert!(matches!(match_version("doc.typ", &c), VersionMatch::NotAVersion));
}

#[test]
fn preview_arguments() {
    assert_eq!(
        preview_args(strs(&["doc.typ"])),
        strs(&["watch", "doc.typ", "/tmp/typface_preview.pdf", "--open"])
    );
}

fn cli(command: Option<Commands>, rest: &[&str]) -> Cli {
    Cli { command, remaining: Remaining { remaining: strs(rest) } }
}

#[test]
fn plan_with_version() {
    let c = cache();
    match plan(cli(None, &["0.13", "compile", "a.typ"]), &c, &opt()) {
        Plan::Run { binary: Binary::Path(p), args, env: EnvSource::Lines(env) } => {
            assert_eq!(p, "/bin/typst-b");
            assert_eq!(args, strs(&["compile", "a.typ"]));
            assert_eq!(env, strs(&["F=1"]));
        }
        _ => panic!("unexpected plan"),
    }
}

#[test]
fn plan_without_version() {
    let c = cache();
    match plan(cli(None, &["compile", "a.typ"]), &c, &opt()) {
        Plan::Run { binary: Binary::Default, args, env: EnvSource::OfDefault { required } } => {
            assert_eq!(args, strs(&["compile", "a.typ"]));
            assert!(!required);
        }
        _ => panic!("unexpected plan"),
    }
    match plan(cli(None, &[]), &c, &opt()) {
        Plan::Run { binary: Binary::Default, args, .. } => assert!(args.is_empty()),
        _ => panic!("unexpected plan"),
    }
}

#[test]
fn plan_missing_version() {
    // "0.12" names version 0.12.0, which is not installed
    match plan(cli(None, &["0.12", "compile"]), &cache(), &opt()) {
        Plan::Missing(v) => assert!(v == TypstVersion::new(0, 12, 0)),
        _ => panic!("unexpected plan"),
    }
    match plan(cli(None, &["0.12.3", "compile"]), &cache(), &opt()) {
        Plan::Missing(v) => assert!(v == TypstVersion::new(0, 12, 3)),
        _ => panic!("unexpected plan"),
    }
}

#[test]
fn plan_subcommands() {
    let c = cache();
    match plan(cli(Some(Commands::Defer(Remaining { remaining: strs(&["0.13", "x"]) })), &[]), &c, &opt()) {
        Plan::Run { binary: Binary::Default, args, env: EnvSource::OfDefault { required: false } } => {
            assert_eq!(args, strs(&["0.13", "x"]))
        }
        _ => panic!("unexpected plan"),
    }
    match plan(cli(Some(Commands::Preview(Remaining { remaining: strs(&["0.14", "d.typ"]) })), &[]), &c, &opt()) {
        Plan::Run { binary: Binary::Path(p), args, env: EnvSource::Lines(env) } => {
            assert_eq!(p, "/bin/typst-c");
            assert_eq!(args, strs(&["watch", "d.typ", "/tmp/typface_preview.pdf", "--open"]));
            assert!(env.is_empty());
        }
        _ => panic!("unexpected plan"),
    }
    match plan(cli(Some(Commands::Preview(Remaining { remaining: strs(&["d.typ"]) })), &[]), &c, &opt()) {
        Plan::Run { binary: Binary::Default, args, env: EnvSource::OfDefault { required: true } } => {
            assert_eq!(args, strs(&["watch", "d.typ", "/tmp/typface_preview.pdf", "--open"]));
        }
        _ => panic!("unexpected plan"),
    }
    assert!(matches!(plan(cli(Some(Commands::Discover), &[]), &c, &opt()), Plan::Discover));
    assert!(matches!(plan(cli(Some(Commands::List), &[]), &c, &opt()), Plan::List));
}

#[test]
fn environment_of_a_binary() {
    let c = cache();
    assert_eq!(env_for_binary("/bin/typst-a", &c, &opt()), Some(strs(&["F=1"])));
    assert_eq!(env_for_binary("/bin/typst-c", &c, &opt()), Some(vec![]));
    assert_eq!(env_for_binary("/usr/bin/typst", &c, &opt()), None);
}

#[test]
fn listing_report() {
    let c = cache();
    let text = list_report("/usr/bin/typst", &c);
    let expected = "Default: /usr/bin/typst\n\n\
Named:\n  debug (/bin/typst-debug)\n  0.9   (/bin/typst-x)\n\
\nVersioned:\n  0.14.2 (/bin/typst-c)\n  0.13.1 (/bin/typst-b)\n  0.13.1 (/bin/typst-d)\n  0.13.0 (/bin/typst-a)\n";
    assert_eq!(text, expected);
}

#[test]
fn listing_of_empty_cache() {
    assert_eq!(list_report("/t", &Vec::new()), "Default: /t\n\n");
}

#[test]
fn listing_pads_by_bytes() {
    let c: Cache = vec![
        ("/p".to_string(), TypstVersion::raw("é".into())),
        ("/q".to_string(), TypstVersion::raw("ab".into())),
    ];
    // "é" is two bytes, so the width is 2 and "é" (one character) gets one space
    assert_eq!(list_report("/d", &c), "Default: /d\n\nNamed:\n  é  (/p)\n  ab (/q)\n");
}
