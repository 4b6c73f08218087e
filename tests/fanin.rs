use zip_dirs::error::ZipError;
use zip_dirs::fanin::{entry_name, FanIn, Step, Walk};
use zip_dirs::zip_core::Entry;

fn entry(path: &str, is_dir: bool) -> Entry {
    let name = path.rsplit('/').next().unwrap().to_string();
    Entry { name, path: path.to_string(), is_dir }
}

#[test]
fn walk_is_breadth_first() {
    let mut w = Walk::new("/d");
    assert!(!w.is_done());
    assert_eq!(Some("/d".to_string()), w.next_dir());
    w.absorb(&vec![entry("/d/s", true), entry("/d/f1", false), entry("/d/t", true)]);
    assert_eq!(Some("/d/s".to_string()), w.next_dir());
    w.absorb(&vec![entry("/d/s/u", true), entry("/d/s/f2", false)]);
    assert_eq!(Some("/d/t".to_string()), w.next_dir());
    w.absorb(&Vec::new());
    assert_eq!(Some("/d/s/u".to_string()), w.next_dir());
    w.absorb(&vec![entry("/d/s/u/f3", false)]);
    assert!(w.is_done());
    assert_eq!(None, w.next_dir());
    assert_eq!(
        &vec!["/d/f1".to_string(), "/d/s/f2".to_string(), "/d/s/u/f3".to_string()],
        w.files()
    );
}

#[test]
fn entry_names_are_relative() {
    assert_eq!(Some("f".to_string()), entry_name("/d", "/d/f"));
    assert_eq!(Some("s/u/f".to_string()), entry_name("/d", "/d/s/u/f"));
    assert_eq!(None, entry_name("/d", "/d"));
    assert_eq!(None, entry_name("/d", "/d/"));
    assert_eq!(None, entry_name("/d", "/dx/f"));
    assert_eq!(None, entry_name("/d", "/e/f"));
}

#[test]
fn all_files_written() {
    let mut w = FanIn::new(2);
    assert!(matches!(w.on_read("b".to_string()), Step::Append(n) if n == "b"));
    assert!(matches!(w.on_read("a".to_string()), Step::Append(n) if n == "a"));
    assert!(matches!(w.on_closed(), Step::Finish(Ok(2))));
    assert!(matches!(w.on_read("c".to_string()), Step::Ignore));
    assert!(matches!(w.on_closed(), Step::Ignore));
    assert_eq!(&vec!["b".to_string(), "a".to_string()], w.names());
}

#[test]
fn empty_directory_finishes_at_once() {
    let mut w = FanIn::new(0);
    assert!(matches!(w.on_closed(), Step::Finish(Ok(0))));
}

#[test]
fn read_failure_is_reported() {
    let mut w = FanIn::new(3);
    assert!(matches!(w.on_read("a".to_string()), Step::Append(_)));
    assert!(matches!(w.on_read_failed("/d/x".to_string()), Step::Ignore));
    assert!(matches!(w.on_read("c".to_string()), Step::Append(_)));
    match w.on_closed() {
        Step::Finish(Err(ZipError::Read(f))) => assert_eq!(vec!["/d/x".to_string()], f),
        other => panic!("unexpected {:?}", other),
    }
}

#[test]
fn missing_payload_is_reported() {
    let mut w = FanIn::new(2);
    let _ = w.on_read("a".to_string());
    match w.on_closed() {
        Step::Finish(Err(ZipError::Channel { expected, received })) => {
            assert_eq!(2, expected);
            assert_eq!(1, received);
        }
        other => panic!("unexpected {:?}", other),
    }
}

#[test]
fn write_failure_finishes_the_archive() {
    let mut w = FanIn::new(2);
    let _ = w.on_read("a".to_string());
    match w.on_write_failed("a".to_string()) {
        Step::Finish(Err(ZipError::ArchiveWrite(n))) => assert_eq!("a", n),
        other => panic!("unexpected {:?}", other),
    }
    assert!(matches!(w.on_read("b".to_string()), Step::Ignore));
    assert!(matches!(w.on_closed(), Step::Ignore));
}

#[test]
fn arrival_order_does_not_change_entries() {
    let mut x = FanIn::new(2);
    let mut y = FanIn::new(2);
    let _ = x.on_read("p".to_string());
    let _ = x.on_read("q".to_string());
    let _ = y.on_read("q".to_string());
    let _ = y.on_read("p".to_string());
    let mut nx = x.names().clone();
    let mut ny = y.names().clone();
    nx.sort();
    ny.sort();
    assert_eq!(nx, ny);
    assert!(matches!(x.on_closed(), Step::Finish(Ok(2))));
    assert!(matches!(y.on_closed(), Step::Finish(Ok(2))));
}
