use comicshelf::cover::{
    archive_kind, cover_file_name, cover_folder_name, entry_file_name, entry_kind,
    is_cover_candidate, is_image_extension, is_kept_after_cleanup, is_movable_page, ArchiveKind,
    EntryKind,
};

#[test]
fn detects_rar_and_zip() {
    assert!(matches!(archive_kind(&[0x52, 0x61, 0x72, 0x21, 0x1A, 0x07, 0x00, 0xCF]), ArchiveKind::Rar));
    assert!(matches!(archive_kind(&[0x52, 0x61, 0x72, 0x21, 0x1A, 0x07, 0x01]), ArchiveKind::Rar));
    assert!(matches!(archive_kind(&[0x52, 0x61, 0x72, 0x21, 0x1A, 0x07, 0x02]), ArchiveKind::Unsupported));
    assert!(matches!(archive_kind(&[0x52, 0x61, 0x72, 0x21, 0x1A, 0x07]), ArchiveKind::Unsupported));
    assert!(matches!(archive_kind(&[0x50, 0x4B, 0x03, 0x04]), ArchiveKind::Zip));
    assert!(matches!(archive_kind(&[0x50, 0x4B, 0x03, 0x04, 0x14, 0x00]), ArchiveKind::Zip));
    assert!(matches!(archive_kind(&[0x50, 0x4B, 0x03]), ArchiveKind::Unsupported));
    assert!(matches!(archive_kind(&[]), ArchiveKind::Unsupported));
}

#[test]
fn image_extensions_ignore_case() {
    assert!(is_image_extension("jpg"));
    assert!(is_image_extension("JPG"));
    assert!(is_image_extension("Jpeg"));
    assert!(is_image_extension("PNG"));
    assert!(is_image_extension("webp"));
    assert!(is_image_extension("bmp"));
    assert!(is_image_extension("GIF"));
    assert!(!is_image_extension("xml"));
    assert!(!is_image_extension(""));
    assert!(!is_image_extension("jpgx"));
}

#[test]
fn cover_candidates_are_image_files() {
    assert!(is_cover_candidate(true, Some("JPG")));
    assert!(!is_cover_candidate(false, Some("jpg")));
    assert!(!is_cover_candidate(true, Some("txt")));
    assert!(!is_cover_candidate(true, None));
}

#[test]
fn folder_names_drop_the_extension() {
    assert_eq!(cover_folder_name("Batman 001.cbz", false), "cover-Batman 001");
    assert_eq!(cover_folder_name("Batman 001.cbr", true), "comictemp-Batman 001");
    assert_eq!(cover_folder_name(".cbz", false), "cover-");
    assert_eq!(cover_folder_name("Émile.cbz", false), "cover-Émile");
}

#[test]
fn entry_names_are_last_piece() {
    assert_eq!(entry_file_name("a/b/page01.jpg"), "page01.jpg");
    assert_eq!(entry_file_name("page01.jpg"), "page01.jpg");
    assert_eq!(entry_file_name("dir/"), "");
    assert_eq!(entry_file_name(""), "");
}

#[test]
fn cover_file_gets_webp_suffix() {
    assert_eq!(cover_file_name("page01.jpg"), "page01.jpg.webp");
    assert_eq!(cover_file_name(""), ".webp");
}

#[test]
fn cleanup_keeps_only_webp() {
    assert!(is_kept_after_cleanup(Some("webp")));
    assert!(!is_kept_after_cleanup(Some("WEBP")));
    assert!(!is_kept_after_cleanup(Some("jpg")));
    assert!(!is_kept_after_cleanup(None));
}

#[test]
fn movable_pages() {
    assert!(is_movable_page("p01.jpg", Some("jpg")));
    assert!(is_movable_page("p01.JPG", Some("JPG")));
    assert!(is_movable_page("README", None));
    assert!(!is_movable_page("ab", None));
    assert!(!is_movable_page("info.xml", Some("xml")));
}

#[test]
fn entry_kinds() {
    assert!(matches!(entry_kind(true, Some("cbz")), EntryKind::Folder));
    assert!(matches!(entry_kind(false, Some("cbz")), EntryKind::Archive));
    assert!(matches!(entry_kind(false, Some("cbr")), EntryKind::Archive));
    assert!(matches!(entry_kind(false, Some("CBZ")), EntryKind::Other));
    assert!(matches!(entry_kind(false, Some("pdf")), EntryKind::Other));
    assert!(matches!(entry_kind(false, None), EntryKind::Other));
}
