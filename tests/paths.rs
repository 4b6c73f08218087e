use zip_dirs::error::ZipError;
use zip_dirs::path::PathMatcher;

fn matcher(home: &str, cwd: &str) -> PathMatcher {
    match PathMatcher::new(Some(home.to_string()), cwd.to_string()) {
        Ok(m) => m,
        Err(e) => panic!("matcher refused: {:?}", e),
    }
}

#[test]
fn absolutize_from_should_work() {
    let m = matcher("/home/u", "/work");
    let path = m.absolute_path(Some("/ss/bb"), "src/async_zip");
    assert_eq!("/ss/bb/src/async_zip", path);

    let path = m.absolute_path(Some("/ss/bb"), "/src/async_zip");
    assert_eq!("/src/async_zip", path);
}

#[test]
fn is_exclude_should_work() {
    let m = matcher("/home/u", "/home/u/Rust/zip_dirs");
    let path1 = "./src/async_zip";
    let path2 = "~/Rust/zip_dirs/src/async_zip";
    let path3 = "../async_zip";
    let path4 = "./src/async_zip";

    let ok = m.is_exclude(Some("."), &vec![path1.to_string()], path2);
    assert!(ok);

    let ok = m.is_exclude(Some("."), &vec![path1.to_string()], path3);
    assert!(!ok);

    let ok = m.is_exclude(None, &vec![path1.to_string()], path4);
    assert!(ok);
}

#[test]
fn dots_are_collapsed() {
    let m = matcher("/home/u", "/work");
    assert_eq!("/a/c", m.absolute_path(None, "/a/b/../c"));
    assert_eq!("/work/x", m.absolute_path(Some("."), "./y/../x"));
    assert_eq!("/home/u/y", m.absolute_path(None, "y"));
    assert_eq!("/home/u", m.absolute_path(None, "~"));
    assert_eq!("/home/u/d", m.absolute_path(Some("/elsewhere"), "~/d"));
}

#[test]
fn tilde_inside_a_name_is_no_home_marker() {
    let m = matcher("/home/u", "/work");
    assert_eq!("/work/~x", m.absolute_path(Some("."), "~x"));
}

#[test]
fn exclusion_by_path_identity() {
    let m = matcher("/home/u", "/proj");
    let ex = vec!["./src/foo".to_string()];
    assert!(m.is_exclude(Some("."), &ex, "./src/foo"));
    assert!(m.is_exclude(Some("."), &ex, "/proj/src/foo"));
    assert!(m.is_exclude(Some("."), &ex, "src/bar/../foo"));
    assert!(!m.is_exclude(Some("."), &ex, "../foo"));
    assert!(!m.is_exclude(Some("."), &ex, "./src/foo/inner"));
}

#[test]
fn empty_exclusion_set_excludes_nothing() {
    let m = matcher("/home/u", "/proj");
    assert!(!m.is_exclude(Some("."), &Vec::new(), "."));
}

#[test]
fn matcher_needs_absolute_home_and_cwd() {
    assert!(matches!(
        PathMatcher::new(None, "/w".to_string()),
        Err(ZipError::PathResolution)
    ));
    assert!(matches!(
        PathMatcher::new(Some("home".to_string()), "/w".to_string()),
        Err(ZipError::PathResolution)
    ));
    assert!(matches!(
        PathMatcher::new(Some("/h".to_string()), "w".to_string()),
        Err(ZipError::PathResolution)
    ));
    let m = matcher("/h", "/w");
    assert_eq!("/h", m.home());
    assert_eq!("/w", m.cwd());
}
