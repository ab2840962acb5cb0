use bpx_tools::package::{PackError, UnpackAction, UnpackError, UnpackEvent, Unpacker};

fn entry(name: &str, size: u64) -> UnpackEvent {
    UnpackEvent::Entry { name: String::from(name), size }
}

fn path_of(a: UnpackAction) -> String {
    match a {
        UnpackAction::Extract { path, .. } => path,
        _ => panic!("expected an entry to write"),
    }
}

#[test]
fn pack_unpack() {
    // a packed file keeps its name: unpacking writes it under that name
    let mut u = Unpacker::new(false);
    assert_eq!(path_of(u.step(entry("bpxdump", 1024))), "bpxdump");
}

#[test]
fn unnamed_and_named_entries() {
    let mut u = Unpacker::new(false);
    assert_eq!(path_of(u.step(entry("", 3))), "unnamed_file_1");
    assert_eq!(path_of(u.step(entry("a.txt", 3))), "a.txt");
    let mut u = Unpacker::new(false);
    assert_eq!(path_of(u.step(entry("a.txt", 3))), "a.txt");
    assert_eq!(path_of(u.step(entry("", 3))), "unnamed_file_1");
}

#[test]
fn unnamed_counter_increases() {
    let mut u = Unpacker::new(false);
    assert_eq!(path_of(u.step(entry("", 1))), "unnamed_file_1");
    assert_eq!(path_of(u.step(entry("dir/x", 1))), "dir/x");
    assert_eq!(path_of(u.step(entry("", 1))), "unnamed_file_2");
    assert_eq!(u.unnamed_count(), 2);
    let mut again = Unpacker::new(false);
    assert_eq!(path_of(again.step(entry("", 1))), "unnamed_file_1");
}

#[test]
fn verbose_progress_line() {
    let mut u = Unpacker::new(true);
    match u.step(entry("", 12)) {
        UnpackAction::Extract { path, progress } => {
            assert_eq!(path, "unnamed_file_1");
            assert_eq!(progress.as_deref(), Some("Unpacking object name unnamed_file_1 with 12 byte(s)...\n"));
        },
        _ => panic!("expected an entry to write"),
    }
    let mut quiet = Unpacker::new(false);
    assert!(matches!(quiet.step(entry("a", 1)), UnpackAction::Extract { progress: None, .. }));
}

#[test]
fn failure_stops_unpack() {
    let mut u = Unpacker::new(false);
    assert_eq!(path_of(u.step(entry("a", 1))), "a");
    let err = UnpackError::Io(std::io::Error::new(std::io::ErrorKind::Other, "disk full"));
    match u.step(UnpackEvent::Failure(err)) {
        UnpackAction::Abort(e) => assert_eq!(e.message(), "IO error: disk full"),
        _ => panic!("expected an abort"),
    }
    assert!(u.is_halted());
    assert!(matches!(u.step(entry("b", 1)), UnpackAction::Halted));
    assert!(matches!(u.step(entry("", 1)), UnpackAction::Halted));
}

#[test]
fn unpack_and_pack_messages() {
    let e = UnpackError::Strings(bpx::error::Error::Truncation("string"));
    assert!(e.message().starts_with("Strings error: unexpected EOF while reading string"));
    let e = UnpackError::Bpxp(bpx::error::Error::MissingProp("y"));
    assert_eq!(e.message(), "BPXP error: BPXSD - missing property y");
    let e = PackError::Bpx(bpx::error::Error::MissingProp("z"));
    assert_eq!(e.message(), "BPX error: BPXSD - missing property z");
    let e = PackError::Bpxp(bpx::error::Error::MissingProp("z"));
    assert_eq!(e.message(), "BPXP error: BPXSD - missing property z");
    let e = PackError::Io(std::io::Error::new(std::io::ErrorKind::Other, "no"));
    assert_eq!(e.message(), "IO error: no");
}
