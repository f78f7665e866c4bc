use typface::cache::read_cache::{decode_cache, encode_cache, Cache};
use typface::cache::TypstVersion;
use typface::config::{Discover, Opt, Opts};
use typface::process::resolve_env;

#[test]
fn numbered_text_reads_back() {
    for v in [TypstVersion::new(0, 13, 1), TypstVersion::new(4294967295, 0, 12), TypstVersion::new(10, 20, 30)] {
        let back = TypstVersion::parse_str(&v.get_string());
        assert!(back == v);
        assert!(back.raw.is_none());
    }
}

#[test]
fn equality_is_an_equivalence() {
    let vs = [
        TypstVersion::new(0, 1, 2),
        TypstVersion::new(0, 1, 3),
        TypstVersion::raw("a".into()),
        TypstVersion::raw("0.1.2".into()),
    ];
    for a in &vs {
        assert!(a == a);
        for b in &vs {
            assert_eq!(a == b, b == a);
            assert_eq!(a == b, a.hash_key() == b.hash_key());
            for c in &vs {
                if a == b && b == c {
                    assert!(a == c);
                }
            }
        }
    }
}

#[test]
fn cache_written_twice_is_stable() {
    let c: Cache = vec![
        ("/x".into(), TypstVersion::new(1, 2, 3)),
        ("/y".into(), TypstVersion::raw("nightly".into())),
    ];
    let once = encode_cache(&c);
    let twice = encode_cache(&decode_cache(&once));
    assert_eq!(once, twice);
}

#[test]
fn nul_in_raw_name_does_not_read_back() {
    let c: Cache = vec![("/x".into(), TypstVersion::raw("a\0b".into()))];
    let back = decode_cache(&encode_cache(&c));
    // the NUL splits the name: "a" is read as the name and "b" as the path
    assert_eq!(back.len(), 1);
    assert_eq!(back[0].0, "b");
    assert_eq!(back[0].1.raw.as_deref(), Some("a"));
}

#[test]
fn discover_default_names_nothing() {
    assert!(Discover::default().named.is_empty());
}

#[test]
fn raw_key_selects_its_options() {
    let o: Opt = vec![
        ("release".to_string(), Opts { env: vec![("R".into(), "1".into())] }),
        ("debug".to_string(), Opts { env: vec![("A".into(), "x".into()), ("B".into(), "y".into())] }),
    ];
    assert_eq!(resolve_env(&o, &TypstVersion::raw("debug".into())), vec!["A=x", "B=y"]);
    assert_eq!(resolve_env(&o, &TypstVersion::raw("release".into())), vec!["R=1"]);
}
