use zedazo::storage::{join_path, Storage, StorageError};

#[test]
fn paths_below_root() {
    let s = Storage { root: b"/data".to_vec() };
    assert_eq!(s.upload_path("u1"), b"/data/uploads/u1".to_vec());
    assert_eq!(s.job_dir("j1"), b"/data/jobs/j1".to_vec());
    let s = Storage { root: b"/data/".to_vec() };
    assert_eq!(s.job_dir("j1"), b"/data/jobs/j1".to_vec());
    assert_eq!(join_path(b"/data", b"/etc"), b"/etc".to_vec());
    assert_eq!(join_path(b"", b"x"), b"x".to_vec());
    assert_eq!(s.job_dir("año"), "/data/jobs/año".as_bytes().to_vec());
}

#[test]
fn paths_keep_non_utf8_root() {
    let s = Storage { root: vec![b'/', b'd', 0xff, b'x'] };
    assert_eq!(s.job_dir("j1"), vec![b'/', b'd', 0xff, b'x', b'/', b'j', b'o', b'b', b's', b'/', b'j', b'1']);
    assert_eq!(Storage::assert_under_root(&[b'/', 0xfe], &[b'/', 0xfe, b'/', b'a']), Ok(()));
    assert_eq!(Storage::assert_under_root(&[b'/', 0xfe], &[b'/', 0xff, b'/', b'a']), Err(StorageError::OutsideRoot));
}

#[test]
fn sanitize_replaces_unsafe_and_truncates() {
    assert_eq!(Storage::sanitize_name("mis contactos (1).vcf"), "mis_contactos__1_.vcf");
    assert_eq!(Storage::sanitize_name("../etc/passwd"), ".._etc_passwd");
    let long = "a".repeat(250);
    assert_eq!(Storage::sanitize_name(&long).len(), 200);
    assert_eq!(Storage::sanitize_name("ñ"), "_");
}

#[test]
fn under_root_is_component_wise() {
    assert_eq!(Storage::assert_under_root(b"/data", b"/data/jobs/x"), Ok(()));
    assert_eq!(Storage::assert_under_root(b"/data", b"/data"), Ok(()));
    assert_eq!(Storage::assert_under_root(b"/data", b"/data2/x"), Err(StorageError::OutsideRoot));
    assert_eq!(Storage::assert_under_root(b"/data/", b"/data//jobs/./x"), Ok(()));
    assert_eq!(Storage::assert_under_root(b"/data", b"data/x"), Err(StorageError::OutsideRoot));
    assert_eq!(Storage::assert_under_root(b"./data", b"data/x"), Err(StorageError::OutsideRoot));
}
