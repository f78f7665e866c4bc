use std::collections::hash_map::DefaultHasher;
use std::hash::{Hash, Hasher};

fn hash_of(v: &TypstVersion) -> u64 {
    let mut h = DefaultHasher::new();
    v.hash(&mut h);
    h.finish()
}

use typface::cache::{TripletError, TypstVersion, VersionPrefix};

fn chars(s: &str) -> Vec<char> {
    s.chars().collect()
}

#[test]
fn new_is_numbered() {
    let v = TypstVersion::new(0, 13, 1);
    assert_eq!(v.get_prefix(), VersionPrefix::Versioned);
    assert_eq!(v.get_string(), "0.13.1");
    assert!(v.raw.is_none());
    assert!(v.commit.is_none());
}

#[test]
fn raw_is_named() {
    let v = TypstVersion::raw("debug".to_string());
    assert_eq!(v.get_prefix(), VersionPrefix::Raw);
    assert_eq!(v.get_string(), "debug");
    assert_eq!((v.major, v.minor, v.patch), (0, 0, 0));
}

#[test]
fn get_string_large_numbers() {
    assert_eq!(TypstVersion::new(4294967295, 10, 100).get_string(), "4294967295.10.100");
    assert_eq!(TypstVersion::new(0, 0, 0).get_string(), "0.0.0");
}

#[test]
fn parse_triplet_reads_numbers_and_position() {
    let s = chars("v12.3.45xyz");
    assert_eq!(TypstVersion::parse_triplet(&s, 1), Ok((12, 3, 45, 8)));
}

#[test]
fn parse_triplet_errors() {
    assert_eq!(TypstVersion::parse_triplet(&chars("x.1.2"), 0), Err(TripletError::Major));
    assert_eq!(TypstVersion::parse_triplet(&chars("1-1.2"), 0), Err(TripletError::MissingMajorDot));
    assert_eq!(TypstVersion::parse_triplet(&chars("1..2"), 0), Err(TripletError::Minor));
    assert_eq!(TypstVersion::parse_triplet(&chars("1.2"), 0), Err(TripletError::MissingMinorDot));
    assert_eq!(TypstVersion::parse_triplet(&chars("1.2."), 0), Err(TripletError::Patch));
}

#[test]
fn parse_triplet_overflow() {
    assert_eq!(
        TypstVersion::parse_triplet(&chars("4294967296.0.0"), 0),
        Err(TripletError::Major)
    );
    assert_eq!(
        TypstVersion::parse_triplet(&chars("4294967295.0.0"), 0),
        Ok((4294967295, 0, 0, 14))
    );
}

#[test]
fn from_str_numbered_or_raw() {
    let v: TypstVersion = "0.14.2".parse().unwrap();
    assert_eq!(v.raw, None);
    assert_eq!((v.major, v.minor, v.patch), (0, 14, 2));
    let w: TypstVersion = "0.14".parse().unwrap();
    assert_eq!(w.raw.as_deref(), Some("0.14"));
    let x = TypstVersion::parse_str("1.2.3-rc1");
    assert_eq!(x.raw, None);
    assert_eq!((x.major, x.minor, x.patch), (1, 2, 3));
}

#[test]
fn prefix_tags() {
    assert_eq!("r".parse::<VersionPrefix>(), Ok(VersionPrefix::Raw));
    assert_eq!("v".parse::<VersionPrefix>(), Ok(VersionPrefix::Versioned));
    assert_eq!("rv".parse::<VersionPrefix>(), Err(()));
    assert_eq!("".parse::<VersionPrefix>(), Err(()));
    assert_eq!(VersionPrefix::Raw.symbol(), 'r');
    assert_eq!(VersionPrefix::Versioned.symbol(), 'v');
}

#[test]
fn equality_of_versions() {
    let mut a = TypstVersion::new(0, 13, 1);
    a.commit = Some("abc".to_string());
    assert!(a == TypstVersion::new(0, 13, 1));
    assert!(a != TypstVersion::new(0, 13, 2));
    assert!(TypstVersion::raw("x".into()) == TypstVersion::raw("x".into()));
    assert!(TypstVersion::raw("x".into()) != TypstVersion::raw("y".into()));
    // a raw version and a numbered version are never equal, whatever the numbers
    assert!(TypstVersion::raw("0.0.0".into()) != TypstVersion::new(0, 0, 0));
    let mut r = TypstVersion::raw("x".into());
    r.major = 7;
    assert!(r == TypstVersion::raw("x".into()));
}

#[test]
fn hash_agrees_with_equality() {
    let mut a = TypstVersion::new(0, 13, 1);
    a.commit = Some("abc".to_string());
    let mut r = TypstVersion::raw("x".into());
    r.major = 7;
    assert_eq!(a.hash_key(), TypstVersion::new(0, 13, 1).hash_key());
    assert_eq!(r.hash_key(), (Some("x".to_string()), 0, 0, 0));
    assert_eq!(hash_of(&a), hash_of(&TypstVersion::new(0, 13, 1)));
    assert_eq!(hash_of(&r), hash_of(&TypstVersion::raw("x".into())));
    assert_ne!(hash_of(&TypstVersion::raw("x".into())), hash_of(&TypstVersion::raw("y".into())));
}

#[test]
fn clone_keeps_everything() {
    let mut a = TypstVersion::new(1, 2, 3);
    a.commit = Some("ff".into());
    let b = a.clone();
    assert_eq!(b.commit.as_deref(), Some("ff"));
    assert_eq!((b.major, b.minor, b.patch), (1, 2, 3));
}
