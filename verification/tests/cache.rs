use typface::cache::read_cache::{decode_cache, encode_cache, scan_cache_version, Cache};
use typface::cache::lookup::{binary, version};
use typface::cache::TypstVersion;

fn sample() -> Cache {
    let mut with_commit = TypstVersion::new(0, 13, 1);
    with_commit.commit = Some("8ace67d9".to_string());
    vec![
        ("/usr/bin/typst".to_string(), with_commit),
        ("/home/u/.local/bin/typst-debug".to_string(), TypstVersion::raw("debug".to_string())),
        ("/opt/typst-0.14/typst".to_string(), TypstVersion::new(0, 14, 0)),
    ]
}

#[test]
fn encode_layout() {
    let c = vec![("/a".to_string(), TypstVersion::new(0, 1, 2))];
    assert_eq!(encode_cache(&c), b"v0.1.2\0/a\0".to_vec());
    let r = vec![("/b".to_string(), TypstVersion::raw("dev".into()))];
    assert_eq!(encode_cache(&r), b"rdev\0/b\0".to_vec());
}

#[test]
fn read_back_what_was_written() {
    let c = sample();
    let back = decode_cache(&encode_cache(&c));
    assert_eq!(back.len(), 3);
    for ((p1, v1), (p2, v2)) in c.iter().zip(back.iter()) {
        assert_eq!(p1, p2);
        assert!(v1 == v2);
        assert_eq!(v1.get_string(), v2.get_string());
        assert!(v2.commit.is_none());
    }
}

#[test]
fn unicode_paths_read_back() {
    let c = vec![("/home/ü/bin/typst-黑".to_string(), TypstVersion::raw("名前".into()))];
    let back = decode_cache(&encode_cache(&c));
    assert_eq!(back[0].0, "/home/ü/bin/typst-黑");
    assert_eq!(back[0].1.raw.as_deref(), Some("名前"));
}

#[test]
fn bad_entries_are_skipped() {
    let mut b = Vec::new();
    b.extend_from_slice(b"x1.2.3\0/bad-tag\0");
    b.extend_from_slice(b"v1.2\0/bad-triplet\0");
    b.extend_from_slice(b"v1.2.3\0\xff\xfe\0");
    b.extend_from_slice(b"v4.5.6junk\0/good\0");
    let c = decode_cache(&b);
    assert_eq!(c.len(), 1);
    assert_eq!(c[0].0, "/good");
    assert_eq!((c[0].1.major, c[0].1.minor, c[0].1.patch), (4, 5, 6));
}

#[test]
fn unterminated_last_field_loses_its_last_byte() {
    let c = decode_cache(b"v1.2.3\0/usr/bin/typstX");
    assert_eq!(c.len(), 1);
    assert_eq!(c[0].0, "/usr/bin/typst");
    // a version field with nothing after it is dropped
    assert_eq!(decode_cache(b"v1.2.3\0").len(), 0);
    assert_eq!(decode_cache(b"").len(), 0);
}

#[test]
fn scan_version_field() {
    assert!(scan_cache_version(b"") .is_none());
    assert!(scan_cache_version(b"q") .is_none());
    assert_eq!(scan_cache_version(b"r").unwrap().raw.as_deref(), Some(""));
    let v = scan_cache_version(b"v0.12.0").unwrap();
    assert_eq!((v.major, v.minor, v.patch), (0, 12, 0));
    assert!(scan_cache_version(b"v0.12").is_none());
    assert!(scan_cache_version(b"r\xc3").is_none());
}

#[test]
fn lookup_version_of_binary() {
    let c = sample();
    let v = version("/opt/typst-0.14/typst", &c).unwrap();
    assert_eq!((v.major, v.minor, v.patch), (0, 14, 0));
    let first = version("/usr/bin/typst", &c).unwrap();
    assert_eq!(first.commit.as_deref(), Some("8ace67d9"));
    assert!(version("/usr/bin/typst2", &c).is_none());
}

#[test]
fn lookup_binary_of_version() {
    let c = sample();
    assert_eq!(binary(&TypstVersion::new(0, 13, 1), &c).as_deref(), Some("/usr/bin/typst"));
    assert_eq!(
        binary(&TypstVersion::raw("debug".into()), &c).as_deref(),
        Some("/home/u/.local/bin/typst-debug")
    );
    assert!(binary(&TypstVersion::new(0, 13, 2), &c).is_none());
}

#[test]
fn lookup_round_trip() {
    let c = sample();
    for (_, v) in &c {
        let p = binary(v, &c).unwrap();
        assert!(version(&p, &c).unwrap() == *v);
    }
}
