use typface::config::{cache_file, config_dir, config_file, Opt, Opts};
use typface::process::{keep_nul_free, launch_env, resolve_env, version_of_key};
use typface::cache::TypstVersion;

fn opts(pairs: &[(&str, &str)]) -> Opts {
    Opts { env: pairs.iter().map(|(k, v)| (k.to_string(), v.to_string())).collect() }
}

fn sample_opt() -> Opt {
    vec![
        ("debug".to_string(), opts(&[("TYPST_FEATURES", "html,bundle,a11y-extras")])),
        ("0.15".to_string(), opts(&[("A", "1"), ("B", "2")])),
        ("0.14".to_string(), opts(&[("TYPST_FEATURES", "html,a11y-extras")])),
    ]
}

#[test]
fn env_of_numbered_version_ignores_patch() {
    let o = sample_opt();
    assert_eq!(resolve_env(&o, &TypstVersion::new(0, 14, 2)), vec!["TYPST_FEATURES=html,a11y-extras"]);
    assert_eq!(resolve_env(&o, &TypstVersion::new(0, 14, 0)), vec!["TYPST_FEATURES=html,a11y-extras"]);
    assert_eq!(resolve_env(&o, &TypstVersion::new(0, 15, 7)), vec!["A=1", "B=2"]);
}

#[test]
fn env_of_raw_version() {
    let o = sample_opt();
    assert_eq!(
        resolve_env(&o, &TypstVersion::raw("debug".into())),
        vec!["TYPST_FEATURES=html,bundle,a11y-extras"]
    );
    assert!(resolve_env(&o, &TypstVersion::raw("release".into())).is_empty());
}

#[test]
fn env_without_match_is_empty() {
    let o = sample_opt();
    assert!(resolve_env(&o, &TypstVersion::new(0, 13, 0)).is_empty());
    assert!(resolve_env(&Vec::new(), &TypstVersion::new(0, 14, 0)).is_empty());
}

#[test]
fn first_matching_key_wins() {
    let o: Opt = vec![
        ("0.14.9".to_string(), opts(&[("FIRST", "1")])),
        ("0.14".to_string(), opts(&[("SECOND", "1")])),
    ];
    assert_eq!(resolve_env(&o, &TypstVersion::new(0, 14, 3)), vec!["FIRST=1"]);
}

#[test]
fn keys_name_versions() {
    let k = version_of_key(&"0.14".to_string());
    assert!(k == TypstVersion::new(0, 14, 0));
    let k = version_of_key(&"+0.+14.x".to_string());
    assert!(k == TypstVersion::new(0, 14, 0));
    assert!(version_of_key(&"0".to_string()) == TypstVersion::raw("0".into()));
    assert!(version_of_key(&"0.".to_string()) == TypstVersion::raw("0.".into()));
    assert!(version_of_key(&"0.14x".to_string()) == TypstVersion::raw("0.14x".into()));
    assert!(version_of_key(&"99999999999.1".to_string()) == TypstVersion::raw("99999999999.1".into()));
}

#[test]
fn config_directory() {
    assert_eq!(config_dir(Some("/x/"), Some("/home/u")), "/x/typface/");
    assert_eq!(config_dir(None, Some("/home/u")), "/home/u/.config/typface/");
    assert_eq!(config_dir(None, None), "~//.config/typface/");
    assert_eq!(cache_file(None, Some("/h")), "/h/.config/typface/cache");
    assert_eq!(config_file(Some("/c/"), None), "/c/typface/config.toml");
    assert_eq!(config_dir(Some(""), Some("/h")), "typface/");
    assert_eq!(config_dir(Some("/home/cady/.config"), Some("/home/cady")), "/home/cady/.config/typface/");
    assert_eq!(
        config_file(Some("/home/cady/.config"), None),
        "/home/cady/.config/typface/config.toml"
    );
}

#[test]
fn nul_strings_are_dropped() {
    let v = vec!["a".to_string(), "b\0c".to_string(), "".to_string()];
    assert_eq!(keep_nul_free(v), vec!["a".to_string(), "".to_string()]);
}

#[test]
fn process_environment() {
    let current = vec![("PATH".to_string(), "/bin".to_string()), ("X".to_string(), "a\0b".to_string())];
    let extra = vec!["TYPST_FEATURES=html".to_string(), "BAD=\0".to_string()];
    assert_eq!(launch_env(&current, extra), vec!["PATH=/bin", "TYPST_FEATURES=html"]);
}
