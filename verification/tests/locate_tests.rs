use qif_interop::error::Error;
use qif_interop::fspath::FsPath;
use qif_interop::locate::{find_qif, find_qif_dir};

fn path(parts: &[&str]) -> FsPath {
    FsPath {
        parts: parts.iter().map(|p| p.as_bytes().to_vec()).collect(),
    }
}

fn parts_of(p: &FsPath) -> Vec<Vec<u8>> {
    p.parts.clone()
}

#[test]
fn reference_found_at_second_ancestor() {
    // A file three directories below a "qifs" sibling that sits at the
    // second ancestor level: the result is that qifs directory joined
    // with the canonical name plus ".qif".
    let file = path(&["interop", "suite", "deep", "case.out.1"]);
    let qifs_parents = vec![path(&["interop", "suite"])];
    match find_qif(&file, &qifs_parents) {
        Ok(Some(q)) => assert_eq!(parts_of(&q), parts_of(&path(&["interop", "suite", "qifs", "case.qif"]))),
        _ => panic!("expected a located reference"),
    }
}

#[test]
fn nearest_ancestor_wins() {
    let file = path(&["a", "b", "c", "f.out"]);
    let qifs_parents = vec![path(&["a"]), path(&["a", "b", "c"])];
    match find_qif(&file, &qifs_parents) {
        Ok(Some(q)) => assert_eq!(parts_of(&q), parts_of(&path(&["a", "b", "c", "qifs", "f.qif"]))),
        _ => panic!("expected a located reference"),
    }
}

#[test]
fn no_reference_within_four_levels() {
    // The only listed ancestor is five levels up: out of reach, so
    // the lookup finds nothing, and that is not an error.
    let file = path(&["r", "s", "t", "u", "v", "w", "f.out"]);
    let qifs_parents = vec![path(&["r", "s"])];
    assert!(matches!(find_qif(&file, &qifs_parents), Ok(None)));
}

#[test]
fn no_listed_ancestor_at_all() {
    let file = path(&["x", "y", "f.out"]);
    let qifs_parents: Vec<FsPath> = Vec::new();
    assert!(matches!(find_qif(&file, &qifs_parents), Ok(None)));
}

#[test]
fn empty_path_is_bad_filename() {
    let file = path(&[]);
    let qifs_parents: Vec<FsPath> = Vec::new();
    assert!(matches!(find_qif(&file, &qifs_parents), Err(Error::BadFilename)));
}

#[test]
fn stem_stops_at_first_dot() {
    let file = path(&["d", "name.out.2.bin"]);
    let qifs_parents = vec![path(&["d"])];
    match find_qif(&file, &qifs_parents) {
        Ok(Some(q)) => assert_eq!(q.parts.last().unwrap(), &b"name.qif".to_vec()),
        _ => panic!("expected a located reference"),
    }
}

#[test]
fn qif_dir_is_ancestor_plus_qifs() {
    let file = path(&["top", "mid", "f.out"]);
    let qifs_parents = vec![path(&["top"])];
    match find_qif_dir(&file, &qifs_parents) {
        Some(d) => assert_eq!(parts_of(&d), parts_of(&path(&["top", "qifs"]))),
        None => panic!("expected a qifs directory"),
    }
}
