use typface::cache::discover::{discovered_version, may_be_typst, typst_cli_version, version_from_output, ReportError};
use typface::cache::TripletError;

#[test]
fn reads_typst_report() {
    let v = typst_cli_version("typst 0.13.1 (8ace67d9)\n").unwrap();
    assert_eq!((v.major, v.minor, v.patch), (0, 13, 1));
    assert_eq!(v.commit.as_deref(), Some("8ace67d9"));
    assert!(v.raw.is_none());
    assert_eq!(typst_cli_version("typst 0.14.0-rc.1 (abc)").unwrap_err(), ReportError::NoCommit);
    let w = typst_cli_version("typst\t0.14.0  (deadBEEF) more").unwrap();
    assert_eq!((w.major, w.minor, w.patch), (0, 14, 0));
    assert_eq!(w.commit.as_deref(), Some("deadBEEF"));
    let e = typst_cli_version("typst 0.12.0 ()").unwrap();
    assert_eq!(e.commit.as_deref(), Some(""));
}

#[test]
fn report_errors() {
    assert_eq!(typst_cli_version("tpyst 0.13.1 (abc)").unwrap_err(), ReportError::NotTypst);
    assert_eq!(
        typst_cli_version("typst version 0.13.1 (abc)").unwrap_err(),
        ReportError::Triplet(TripletError::Major)
    );
    assert_eq!(typst_cli_version("typst 0.13.1").unwrap_err(), ReportError::NoCommit);
    assert_eq!(typst_cli_version("typst 0.13.1 (abcg)").unwrap_err(), ReportError::NoCommit);
    assert_eq!(typst_cli_version("typst 0.13.1 [abc]").unwrap_err(), ReportError::NoCommit);
}

#[test]
fn output_of_a_run() {
    let v = version_from_output(Some(0), b"typst 0.13.1 (8ace67d9)\n").unwrap();
    assert_eq!((v.major, v.minor, v.patch), (0, 13, 1));
    assert!(version_from_output(Some(1), b"typst 0.13.1 (8ace67d9)\n").is_none());
    assert!(version_from_output(None, b"typst 0.13.1 (8ace67d9)\n").is_none());
    assert!(version_from_output(Some(0), b"typst 0.13.1 (8ace\xff)\n").is_none());
    assert!(version_from_output(Some(0), b"python 3.12").is_none());
}

#[test]
fn candidates() {
    assert!(may_be_typst(true, Some("typst")));
    assert!(may_be_typst(true, Some("typst-0.14")));
    assert!(!may_be_typst(false, Some("typst")));
    assert!(!may_be_typst(true, Some("typ")));
    assert!(!may_be_typst(true, Some("mytypst")));
    assert!(!may_be_typst(true, None));
}

#[test]
fn configured_names_win() {
    let v = discovered_version(Some("debug".to_string()), None, b"").unwrap();
    assert_eq!(v.raw.as_deref(), Some("debug"));
    let w = discovered_version(Some("release".to_string()), Some(0), b"typst 0.13.1 (abc)").unwrap();
    assert_eq!(w.raw.as_deref(), Some("release"));
    let x = discovered_version(None, Some(0), b"typst 0.13.1 (abc)").unwrap();
    assert_eq!((x.major, x.minor, x.patch), (0, 13, 1));
    assert!(discovered_version(None, None, b"").is_none());
}
