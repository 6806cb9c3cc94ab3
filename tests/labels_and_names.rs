use anon_targets::error::AttrError;
use anon_targets::file_name::{verify_file_name, FileName, FileNameBuf, FileNameError};
use anon_targets::label::{create_name, parse_target_label};

#[test]
fn anon_target_name() {
    assert_eq!(
        parse_target_label("//foo:bar").unwrap().to_label_string(),
        "//foo:bar"
    );
    assert_eq!(
        parse_target_label("cell//foo/bar:baz")
            .unwrap()
            .to_label_string(),
        "cell//foo/bar:baz"
    );
    assert!(parse_target_label("foo").is_err());
    assert!(parse_target_label("//foo:").is_err());
}

#[test]
fn parse_label_parts() {
    let l = parse_target_label("//foo:bar").unwrap();
    assert_eq!(l.cell, "");
    assert_eq!(l.package, "foo");
    assert_eq!(l.name, "bar");
    let l = parse_target_label("foo/bar:baz").unwrap();
    assert_eq!(l.cell, "");
    assert_eq!(l.package, "foo/bar");
    assert_eq!(l.name, "baz");
    let l = parse_target_label("//:root").unwrap();
    assert_eq!(l.package, "");
    assert_eq!(l.name, "root");
}

#[test]
fn parse_label_rejects() {
    for bad in ["foo", "//foo:", "//foo", "", "//foo//bar:baz", "//foo/:bar", "//foo:bar:baz", "c d//x:y"] {
        match parse_target_label(bad) {
            Err(AttrError::NotTargetLabel(s)) => assert_eq!(s, bad),
            other => panic!("{:?} gave {:?}", bad, other),
        }
    }
}

#[test]
fn create_name_in_anon_cell() {
    let l = create_name("my_rule").unwrap();
    assert_eq!(l.to_label_string(), "anon//:my_rule");
    assert!(parse_target_label(&l.to_label_string()).is_ok());
    match create_name("bad name") {
        Err(AttrError::InvalidTargetName(s)) => assert_eq!(s, "bad name"),
        other => panic!("{:?}", other),
    }
}

#[test]
fn file_name_validity() {
    assert!(FileName::new("foo").is_ok());
    assert!(matches!(FileName::new(""), Err(FileNameError::Empty)));
    assert!(matches!(FileName::new("."), Err(FileNameError::Dot)));
    assert!(matches!(FileName::new(".."), Err(FileNameError::DotDot)));
    assert!(FileName::new(".x").is_ok());
    assert!(FileName::new("...").is_ok());
    match FileName::new("foo/bar") {
        Err(FileNameError::Slashes(s)) => assert_eq!(s, "foo/bar"),
        other => panic!("{:?}", other),
    }
    assert!(FileName::new("foo/").is_err());
    assert!(FileName::new("foo\\bar").is_err());
    assert!(verify_file_name("ok.txt").is_ok());
}

#[test]
fn file_name_stem_and_extension() {
    let f = FileName::new("foo.rs").unwrap();
    assert_eq!(f.as_str(), "foo.rs");
    assert_eq!(f.file_stem(), Some("foo"));
    assert_eq!(f.extension(), Some("rs"));
    let f = FileName::new(".x").unwrap();
    assert_eq!(f.file_stem(), Some(".x"));
    assert_eq!(f.extension(), None);
    let f = FileName::new("a.b.c").unwrap();
    assert_eq!(f.file_stem(), Some("a.b"));
    assert_eq!(f.extension(), Some("c"));
    let f = FileName::new("noext").unwrap();
    assert_eq!(f.file_stem(), Some("noext"));
    assert_eq!(f.extension(), None);
    let f = FileName::new("foo.").unwrap();
    assert_eq!(f.file_stem(), Some("foo"));
    assert_eq!(f.extension(), Some(""));
}

#[test]
fn file_name_buf() {
    let f = FileName::unchecked_new("x.y");
    let b = f.to_file_name_buf();
    assert_eq!(b.as_str(), "x.y");
    assert!(f == FileName::new("x.y").unwrap());
    assert!(FileNameBuf::try_from("a/b".to_owned()).is_err());
    let b = FileNameBuf::try_from("ab".to_owned()).unwrap();
    assert_eq!(b.into_inner(), "ab");
    assert_eq!(FileNameBuf::unchecked_new("z".to_owned()).as_str(), "z");
}
