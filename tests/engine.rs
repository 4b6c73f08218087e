use zip_dirs::option::ZipType;
use zip_dirs::path::PathMatcher;
use zip_dirs::zip_core::{archive_path, AsyncZip, DirsZipEngine, Entry, Zip, ZipCore, Zipper};

fn matcher() -> PathMatcher {
    PathMatcher::new(Some("/home/u".to_string()), "/r".to_string()).unwrap()
}

fn entry(name: &str, path: &str, is_dir: bool) -> Entry {
    Entry { name: name.to_string(), path: path.to_string(), is_dir }
}

#[test]
fn hidden_excluded_and_empty_scenario() {
    let engine = DirsZipEngine::new(AsyncZip, "/r", vec!["/r/b".to_string()], matcher());
    let entries = vec![
        entry("a", "/r/a", true),
        entry(".git", "/r/.git", true),
        entry("b", "/r/b", true),
    ];
    let plan = engine.plan(&entries);
    assert_eq!(vec!["/r/a".to_string()], plan);
    assert_eq!("/r/a.zip", archive_path(&plan[0]));
}

#[test]
fn only_hidden_or_excluded_gives_nothing() {
    let engine = DirsZipEngine::new(Zip, "/r", vec!["b".to_string(), "./c".to_string()], matcher());
    let entries = vec![
        entry(".git", "/r/.git", true),
        entry("b", "/r/b", true),
        entry("c", "c", true),
        entry("notes.txt", "/r/notes.txt", false),
    ];
    assert!(engine.plan(&entries).is_empty());
}

#[test]
fn every_plain_directory_is_planned_in_order() {
    let engine = DirsZipEngine::new(Zipper, "/r", Vec::new(), matcher());
    let entries = vec![
        entry("z", "/r/z", true),
        entry("f", "/r/f", false),
        entry("a", "/r/a", true),
    ];
    assert_eq!(vec!["/r/z".to_string(), "/r/a".to_string()], engine.plan(&entries));
    assert!(engine.plan(&Vec::new()).is_empty());
}

#[test]
fn skip_decisions() {
    let engine = DirsZipEngine::new(AsyncZip, "/r", vec!["/r/x".to_string()], matcher());
    assert!(engine.skip(&entry(".hidden", "/r/.hidden", true)));
    assert!(engine.skip(&entry("file", "/r/file", false)));
    assert!(engine.skip(&entry("x", "/r/x", true)));
    assert!(engine.skip(&entry("x", "/r/y/../x", true)));
    assert!(!engine.skip(&entry("y", "/r/y", true)));
}

#[test]
fn planning_twice_gives_the_same_plan() {
    let engine = DirsZipEngine::new(AsyncZip, "/r", vec!["/r/b".to_string()], matcher());
    let entries = vec![entry("a", "/r/a", true), entry("b", "/r/b", true), entry("c", "/r/c", true)];
    assert_eq!(engine.plan(&entries), engine.plan(&entries));
}

#[test]
fn archive_path_appends_extension() {
    assert_eq!("/r/a.zip", archive_path("/r/a"));
    assert_eq!("/r/a.b.zip", archive_path("/r/a.b"));
    assert_eq!(".zip", archive_path(""));
}

#[test]
fn strategies_report_their_kind() {
    assert_eq!(ZipType::AsyncZip, AsyncZip.kind());
    assert_eq!(ZipType::Zip, Zip.kind());
    assert_eq!(ZipType::Zipper, Zipper.kind());
    let engine = DirsZipEngine::new(Zipper, "/r", Vec::new(), matcher());
    assert_eq!(ZipType::Zipper, engine.inner().kind());
    assert_eq!("/r", engine.path());
}
