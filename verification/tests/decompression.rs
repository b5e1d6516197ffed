use reclipse::commands::replay::{is_cached_snapshot, CacheEntry};
use reclipse::toolkit::decompress_file::{
    decompress, strip_tar_extension, ArchiveKind, FileDecompressionError,
};
use std::io::Read;

fn tar_like_payload() -> Vec<u8> {
    (0..20000u32).map(|i| (i % 251) as u8).collect()
}

#[test]
fn zstd_archives_decompress() {
    let data = tar_like_payload();
    let packed = zstd::stream::encode_all(&data[..], 3).unwrap();
    assert_ne!(packed, data);
    assert_eq!(decompress(ArchiveKind::Zstd, &packed).unwrap(), data);
}

#[test]
fn bzip2_archives_decompress() {
    let data = tar_like_payload();
    let mut packed = Vec::new();
    bzip2::read::BzEncoder::new(&data[..], bzip2::Compression::default())
        .read_to_end(&mut packed)
        .unwrap();
    assert_ne!(packed, data);
    assert_eq!(decompress(ArchiveKind::Bzip2, &packed).unwrap(), data);
}

#[test]
fn corrupt_archives_are_refused() {
    let junk = b"this is not a compressed archive".to_vec();
    assert!(matches!(
        decompress(ArchiveKind::Zstd, &junk),
        Err(FileDecompressionError::Io(_))
    ));
    assert!(matches!(
        decompress(ArchiveKind::Bzip2, &junk),
        Err(FileDecompressionError::Io(_))
    ));
}

#[test]
fn double_extensions_are_stripped() {
    assert_eq!(strip_tar_extension("snapshot-1-x.tar.zst".to_string()), "snapshot-1-x");
    assert_eq!(strip_tar_extension("a/b/c.tar.bz2".to_string()), "a/b/c");
    assert_eq!(strip_tar_extension("/c.d.e".to_string()), "/c");
    assert_eq!(strip_tar_extension(".hidden".to_string()), ".hidden");
}

#[test]
fn single_cache_entries() {
    let file = CacheEntry { name: "snapshot-42-h.tar.zst".to_string(), is_dir: false };
    let dir = CacheEntry { name: "snapshot-42-h".to_string(), is_dir: true };
    assert!(is_cached_snapshot(&file, 42));
    assert!(!is_cached_snapshot(&file, 43));
    assert!(!is_cached_snapshot(&dir, 42));
}
