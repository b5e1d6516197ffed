use reclipse::solana::rpc_client::{full_snapshot_url, HighestSnapshotSlot};
use reclipse::toolkit::decompress_file::{
    archive_kind, archive_kind_from_extension, strip_tar_extension, ArchiveKind,
    FileDecompressionError,
};
use reclipse::toolkit::download_file::{
    check_response_status, choose_output_file_path, compute_output_file_path,
    content_disposition_filename, download_temp_path, get_filename_from_url, last_path_segment,
    snapshot_file_path, FileDownloadError, TransferProgress,
};

#[test]
fn test_get_filename_from_url() {
    let url = "https://eclipse-rpc.xyz/snapshot.tar.bz2";
    let filename = get_filename_from_url(url);
    assert_eq!(filename, Some("snapshot.tar.bz2".to_string()));
}

#[test]
fn url_file_names() {
    assert_eq!(get_filename_from_url("https://example.com/"), Some(String::new()));
    assert_eq!(
        get_filename_from_url("https://example.com/a/b/c.tar.zst?x=1"),
        Some("c.tar.zst".to_string())
    );
    assert_eq!(get_filename_from_url("not a url"), None);
    assert_eq!(get_filename_from_url("data:text/plain,Stuff"), None);
    assert_eq!(last_path_segment("/a/b"), Some("b".to_string()));
    assert_eq!(last_path_segment("/"), Some(String::new()));
    assert_eq!(last_path_segment("a/b"), None);
    assert_eq!(last_path_segment(""), None);
}

#[test]
fn output_file_paths() {
    assert_eq!(
        compute_output_file_path("/tmp/out/file.tar.bz2", None, "https://x.io/snapshot.tar.bz2"),
        Some("/tmp/out/file.tar.bz2".to_string())
    );
    assert_eq!(
        compute_output_file_path(
            "/tmp/reclipse_cache/cache/snapshots",
            None,
            "https://x.io/snapshot-5-abc.tar.zst"
        ),
        Some("/tmp/reclipse_cache/cache/snapshots/snapshot-5-abc.tar.zst".to_string())
    );
    assert_eq!(compute_output_file_path("/tmp/dir", None, "data:text/plain,Stuff"), None);
}

#[test]
fn output_file_path_from_content_disposition() {
    assert_eq!(
        compute_output_file_path(
            "/tmp/cache/snapshots",
            Some("attachment; filename=\"snapshot-7-h.tar.zst\""),
            "https://x.io/snapshot.tar.bz2"
        ),
        Some("/tmp/cache/snapshots/snapshot-7-h.tar.zst".to_string())
    );
    // The output path names the file itself: the header does not matter.
    assert_eq!(
        compute_output_file_path(
            "/tmp/out/file.tar.bz2",
            Some("attachment; filename=other.tar.zst"),
            "https://x.io/snapshot.tar.bz2"
        ),
        Some("/tmp/out/file.tar.bz2".to_string())
    );
    // A header without a file name falls back on the URL.
    assert_eq!(
        compute_output_file_path("/tmp/d", Some("inline"), "https://x.io/a/b.bin"),
        Some("/tmp/d/b.bin".to_string())
    );
    // A file name with a path separator is not taken.
    assert_eq!(
        compute_output_file_path("/tmp/d", Some("attachment; filename=\"../x\""), "https://x.io/b.bin"),
        Some("/tmp/d/b.bin".to_string())
    );
}

#[test]
fn snapshot_goes_into_its_directory() {
    assert_eq!(
        snapshot_file_path("/tmp/cache/snapshots.v2", None, "https://x.io/snapshot-5-abc.tar.zst"),
        Some("/tmp/cache/snapshots.v2/snapshot-5-abc.tar.zst".to_string())
    );
    assert_eq!(
        snapshot_file_path(
            "/tmp/cache/snapshots.v2",
            Some("attachment; filename=snapshot-9-z.tar.zst"),
            "https://x.io/snapshot.tar.bz2"
        ),
        Some("/tmp/cache/snapshots.v2/snapshot-9-z.tar.zst".to_string())
    );
}

#[test]
fn output_path_choice() {
    assert_eq!(
        choose_output_file_path("/d", true, Some("f"), Some("u")),
        Some("/d".to_string())
    );
    assert_eq!(
        choose_output_file_path("/d", false, Some("f"), Some("u")),
        Some("/d/f".to_string())
    );
    assert_eq!(
        choose_output_file_path("/d", false, Some(""), Some("u")),
        Some("/d/u".to_string())
    );
    assert_eq!(
        choose_output_file_path("/d", false, Some("a/b"), None),
        None
    );
    assert_eq!(choose_output_file_path("/d", false, None, None), None);
    assert_eq!(
        choose_output_file_path("/d", false, Some("."), Some("u")),
        Some("/d/u".to_string())
    );
    assert_eq!(
        choose_output_file_path("/d", false, Some(".."), Some("u")),
        Some("/d/u".to_string())
    );
    assert_eq!(
        choose_output_file_path("/d", false, Some("..x"), Some("u")),
        Some("/d/..x".to_string())
    );
}

#[test]
fn content_disposition_file_names() {
    assert_eq!(
        content_disposition_filename("attachment; filename=\"snap.tar.zst\""),
        Some("snap.tar.zst".to_string())
    );
    assert_eq!(
        content_disposition_filename("attachment;FileName=a.bin; size=3"),
        Some("a.bin".to_string())
    );
    assert_eq!(
        content_disposition_filename("attachment; size=3;  filename=b.bin  "),
        Some("b.bin".to_string())
    );
    assert_eq!(content_disposition_filename("attachment"), None);
    assert_eq!(content_disposition_filename("filename=x"), None);
    assert_eq!(content_disposition_filename("attachment; filename*=UTF-8''x"), None);
    assert_eq!(
        content_disposition_filename("attachment; filename=\"\""),
        Some(String::new())
    );
}

#[test]
fn response_status() {
    assert!(check_response_status(200).is_ok());
    assert!(check_response_status(299).is_ok());
    assert!(matches!(
        check_response_status(404),
        Err(FileDownloadError::RequestFailed { status_code: 404 })
    ));
    assert!(matches!(
        check_response_status(302),
        Err(FileDownloadError::RequestFailed { status_code: 302 })
    ));
}

#[test]
fn temp_path_and_progress() {
    assert_eq!(download_temp_path("/tmp/a.tar.zst"), "/tmp/a.tar.zst.download");
    let mut p = TransferProgress::new();
    assert!(!p.record(8192));
    assert!(!p.record(100));
    assert_eq!(p.position, 8292);
    assert!(p.record(0));
    assert_eq!(p.position, 8292);
}

#[test]
fn tar_extension_stripping() {
    assert_eq!(
        strip_tar_extension("/tmp/cache/snapshot-48925545-XZm.tar.zst".to_string()),
        "/tmp/cache/snapshot-48925545-XZm"
    );
    assert_eq!(strip_tar_extension("snapshot.tar.bz2".to_string()), "snapshot");
    assert_eq!(strip_tar_extension("archive".to_string()), "archive");
}

#[test]
fn archive_kinds() {
    assert_eq!(archive_kind("/tmp/snapshot-1-x.tar.bz2").ok(), Some(ArchiveKind::Bzip2));
    assert_eq!(archive_kind("/tmp/snapshot-1-x.tar.zst").ok(), Some(ArchiveKind::Zstd));
    assert!(matches!(
        archive_kind("/tmp/snapshot.tar.gz"),
        Err(FileDecompressionError::UnsupportedArchiveType { ref extension }) if extension == "gz"
    ));
    assert!(matches!(
        archive_kind("/tmp/snapshot"),
        Err(FileDecompressionError::UnknownArchiveType)
    ));
    assert!(matches!(
        archive_kind_from_extension(None),
        Err(FileDecompressionError::UnknownArchiveType)
    ));
    assert_eq!(archive_kind_from_extension(Some("zst")).ok(), Some(ArchiveKind::Zstd));
}

#[test]
fn snapshot_url_and_slots() {
    assert_eq!(
        full_snapshot_url("https://mainnetbeta-rpc.eclipse.xyz/"),
        "https://mainnetbeta-rpc.eclipse.xyz/snapshot.tar.bz2"
    );
    let s = HighestSnapshotSlot { full: 48925545, incremental: 48926747 };
    assert_eq!(s.full, 48925545);
    assert_eq!(s.incremental, 48926747);
}
