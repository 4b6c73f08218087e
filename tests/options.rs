use zip_dirs::error::ZipError;
use zip_dirs::option::{parse_zip_type, Dirs, ZipType};

#[test]
fn zip_type_names() {
    assert!(matches!(parse_zip_type("async_zip"), Ok(ZipType::AsyncZip)));
    assert!(matches!(parse_zip_type("self_async_zip"), Ok(ZipType::Zipper)));
    assert!(matches!(parse_zip_type("zip"), Ok(ZipType::Zip)));
}

#[test]
fn unknown_zip_type_is_refused() {
    match parse_zip_type("tar") {
        Err(ZipError::UnsupportedZipType(s)) => assert_eq!("tar", s),
        other => panic!("unexpected {:?}", other),
    }
    assert!(parse_zip_type("").is_err());
    assert!(parse_zip_type("Zip").is_err());
    assert!(parse_zip_type("zip ").is_err());
}

#[test]
fn dirs_are_split_and_trimmed() {
    let d = Dirs::parse(" a , b/c,,\td ");
    assert_eq!(&vec!["a".to_string(), "b/c".to_string(), "d".to_string()], d.dirs());
}

#[test]
fn empty_dirs_list() {
    assert!(Dirs::parse("").dirs().is_empty());
    assert!(Dirs::parse(" , ,").dirs().is_empty());
}

#[test]
fn dirs_from_str() {
    let d: Dirs = "x,y".parse().unwrap();
    assert_eq!(&vec!["x".to_string(), "y".to_string()], d.dirs());
}

#[test]
fn unicode_white_space_is_trimmed() {
    let d = Dirs::parse("\u{3000}a\u{a0},\u{2028}\r\n");
    assert_eq!(&vec!["a".to_string()], d.dirs());
    let d = Dirs::parse("\u{200b}x");
    assert_eq!(&vec!["\u{200b}x".to_string()], d.dirs());
}

#[test]
fn inner_white_space_is_kept() {
    let d = Dirs::parse(" my dir ,x");
    assert_eq!(&vec!["my dir".to_string(), "x".to_string()], d.dirs());
}
