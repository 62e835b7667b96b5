use qif_interop::fspath::{bytes_eq, contains_bytes, ends_with_bytes, stem_bytes, FsPath};

#[test]
fn bytes_eq_compares_contents() {
    assert!(bytes_eq(&b"abc".to_vec(), &b"abc".to_vec()));
    assert!(!bytes_eq(&b"abc".to_vec(), &b"abd".to_vec()));
    assert!(!bytes_eq(&b"abc".to_vec(), &b"ab".to_vec()));
    assert!(bytes_eq(&Vec::new(), &Vec::new()));
}

#[test]
fn contains_finds_substring_anywhere() {
    assert!(contains_bytes(&b"case.out.0".to_vec(), &b".out".to_vec()));
    assert!(contains_bytes(&b".out".to_vec(), &b".out".to_vec()));
    assert!(contains_bytes(&b"x.outy".to_vec(), &b".out".to_vec()));
    assert!(!contains_bytes(&b"case.qif".to_vec(), &b".out".to_vec()));
    assert!(!contains_bytes(&b".ou".to_vec(), &b".out".to_vec()));
    assert!(contains_bytes(&b"anything".to_vec(), &Vec::new()));
}

#[test]
fn ends_with_checks_suffix_only() {
    assert!(ends_with_bytes(&b"case.qif".to_vec(), &b".qif".to_vec()));
    assert!(!ends_with_bytes(&b"case.qif.out".to_vec(), &b".qif".to_vec()));
    assert!(!ends_with_bytes(&b"qif".to_vec(), &b".qif".to_vec()));
}

#[test]
fn stem_is_prefix_before_first_dot() {
    assert_eq!(stem_bytes(&b"name.out.2".to_vec()), b"name".to_vec());
    assert_eq!(stem_bytes(&b"plain".to_vec()), b"plain".to_vec());
    assert_eq!(stem_bytes(&b".hidden".to_vec()), b"".to_vec());
    assert_eq!(stem_bytes(&Vec::new()), Vec::<u8>::new());
}

#[test]
fn path_eq_compares_all_components() {
    let a = FsPath { parts: vec![b"x".to_vec(), b"y".to_vec()] };
    let b = FsPath { parts: vec![b"x".to_vec(), b"y".to_vec()] };
    let c = FsPath { parts: vec![b"x".to_vec()] };
    let d = FsPath { parts: vec![b"x".to_vec(), b"z".to_vec()] };
    assert!(a.path_eq(&b));
    assert!(!a.path_eq(&c));
    assert!(!a.path_eq(&d));
}

#[test]
fn file_name_is_last_component() {
    let a = FsPath { parts: vec![b"x".to_vec(), b"y.out".to_vec()] };
    assert_eq!(a.file_name(), Some(&b"y.out".to_vec()));
    let empty = FsPath { parts: Vec::new() };
    assert!(empty.file_name().is_none());
}
