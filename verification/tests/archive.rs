use arena_core::archive::{pack_archive, unpack_archive, FileSet};
use arena_core::AppError;

#[test]
fn round_trip_two_files() {
    let mut fs = FileSet::new();
    assert!(fs.insert("main.py".to_string(), b"print(1)".to_vec()));
    assert!(fs.insert("helper.py".to_string(), b"x=1".to_vec()));
    let payload = pack_archive(&fs).unwrap();
    let out = unpack_archive(payload.as_str()).unwrap();
    assert_eq!(out.len(), 2);
    assert_eq!(out.get("main.py").unwrap().as_slice(), b"print(1)");
    assert_eq!(out.get("helper.py").unwrap().as_slice(), b"x=1");
    assert!(out.get("absent.py").is_none());
}

#[test]
fn round_trip_is_order_independent() {
    let mut first = FileSet::new();
    assert!(first.insert("a.txt".to_string(), b"alpha".to_vec()));
    assert!(first.insert("b.txt".to_string(), b"beta".to_vec()));
    let mut second = FileSet::new();
    assert!(second.insert("b.txt".to_string(), b"beta".to_vec()));
    assert!(second.insert("a.txt".to_string(), b"alpha".to_vec()));
    let out_first = unpack_archive(pack_archive(&first).unwrap().as_str()).unwrap();
    let out_second = unpack_archive(pack_archive(&second).unwrap().as_str()).unwrap();
    assert_eq!(out_first.len(), 2);
    assert_eq!(out_second.len(), 2);
    for name in ["a.txt", "b.txt"] {
        assert_eq!(
            out_first.get(name).unwrap().as_slice(),
            out_second.get(name).unwrap().as_slice()
        );
    }
}

#[test]
fn empty_file_set_packs() {
    let fs = FileSet::new();
    let payload = pack_archive(&fs).unwrap();
    let out = unpack_archive(payload.as_str()).unwrap();
    assert_eq!(out.len(), 0);
}

#[test]
fn binary_content_survives() {
    let mut fs = FileSet::new();
    let content: Vec<u8> = (0u16..=255).map(|b| b as u8).collect();
    assert!(fs.insert("blob.bin".to_string(), content.clone()));
    let payload = pack_archive(&fs).unwrap();
    let out = unpack_archive(payload.as_str()).unwrap();
    assert_eq!(out.get("blob.bin").unwrap().as_slice(), content.as_slice());
}

#[test]
fn insert_rejects_duplicate_name() {
    let mut fs = FileSet::new();
    assert!(fs.insert("main.py".to_string(), b"first".to_vec()));
    assert!(!fs.insert("main.py".to_string(), b"second".to_vec()));
    assert_eq!(fs.len(), 1);
    assert_eq!(fs.get("main.py").unwrap().as_slice(), b"first");
}

#[test]
fn unpack_rejects_invalid_base64() {
    assert!(matches!(unpack_archive("not base64 at all!!!"), Err(AppError::DecodeError)));
}

#[test]
fn unpack_rejects_non_archive_bytes() {
    let text = base64::Engine::encode(&base64::engine::general_purpose::STANDARD, b"hello");
    assert!(matches!(unpack_archive(text.as_str()), Err(AppError::ZipError)));
}
