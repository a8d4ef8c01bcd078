//! The decisions made while extracting comic archives and their covers:
//! which format an archive is, which entries are pages, where the
//! extracted cover goes, and which catalogue entries are archives.
use vstd::prelude::*;
use vstd::string::StrSliceExecFns;
use vstd::string::StringSliceAdditionalSpecFns;
use vstd::string::StringExecFns;
use vstd::utf8::{decode_utf8, encode_utf8_decode_utf8};
use crate::paths::{char_positions, char_positions_of, lemma_char_positions};

verus! {

broadcast use vstd::string::group_string_axioms;

/// The archive formats that a comic file can have.
pub enum ArchiveKind {
    Rar,
    Zip,
    Unsupported,
}

/// RAR signature: `Rar!\x1A\x07` followed by `\x00` (RAR 4) or `\x01`
/// (RAR 5).
pub open spec fn is_rar_signature(b: Seq<u8>) -> bool {
    &&& b.len() >= 7
    &&& b[0] == 0x52u8
    &&& b[1] == 0x61u8
    &&& b[2] == 0x72u8
    &&& b[3] == 0x21u8
    &&& b[4] == 0x1Au8
    &&& b[5] == 0x07u8
    &&& (b[6] == 0x00u8 || b[6] == 0x01u8)
}

/// ZIP signature: `PK\x03\x04`.
pub open spec fn is_zip_signature(b: Seq<u8>) -> bool {
    &&& b.len() >= 4
    &&& b[0] == 0x50u8
    &&& b[1] == 0x4Bu8
    &&& b[2] == 0x03u8
    &&& b[3] == 0x04u8
}

/// The format named by the leading bytes of a file.
pub open spec fn spec_archive_kind(b: Seq<u8>) -> ArchiveKind {
    if is_rar_signature(b) {
        ArchiveKind::Rar
    } else if is_zip_signature(b) {
        ArchiveKind::Zip
    } else {
        ArchiveKind::Unsupported
    }
}

/// The format of a comic file, judged by its leading bytes.
pub fn archive_kind(content: &[u8]) -> (r: ArchiveKind)
    ensures
        r == spec_archive_kind(content@),
{
    let n = content.len();
    if n >= 7 && content[0] == 0x52u8 && content[1] == 0x61u8 && content[2] == 0x72u8 && content[3]
        == 0x21u8 && content[4] == 0x1Au8 && content[5] == 0x07u8 && (content[6] == 0x00u8
        || content[6] == 0x01u8) {
        ArchiveKind::Rar
    } else if n >= 4 && content[0] == 0x50u8 && content[1] == 0x4Bu8 && content[2] == 0x03u8
        && content[3] == 0x04u8 {
        ArchiveKind::Zip
    } else {
        ArchiveKind::Unsupported
    }
}

/// What `str::to_lowercase` returns for a text: its lowercase equivalent
/// under the Unicode `Lowercase` property.
pub uninterp spec fn lowercase(s: Seq<char>) -> Seq<char>;

/// Calls `str::to_lowercase`. Claims only that the result is a function of
/// the text; the Unicode case mapping itself is not stated.
#[verifier::external_body]
fn to_lowercase(s: &str) -> (r: String)
    ensures
        r@ == lowercase(s@),
{
    s.to_lowercase()
}

/// The extensions of the image formats that can serve as pages.
pub open spec fn image_extensions() -> Seq<Seq<char>> {
    seq!["jpg"@, "jpeg"@, "png"@, "gif"@, "webp"@, "bmp"@]
}

/// Two texts are equal.
pub fn same_text(a: &str, b: &str) -> (r: bool)
    ensures
        r == (a@ == b@),
{
    a.to_owned() == b.to_owned()
}

/// An extension names an image when, lowercased, it is one of the image
/// extensions.
pub fn is_image_extension(ext: &str) -> (r: bool)
    ensures
        r == image_extensions().contains(lowercase(ext@)),
{
    let lower = to_lowercase(ext);
    let l = lower.as_str();
    let r = same_text(l, "jpg") || same_text(l, "jpeg") || same_text(l, "png") || same_text(l, "gif")
        || same_text(l, "webp") || same_text(l, "bmp");
    proof {
        let e = image_extensions();
        if r {
            if l@ == "jpg"@ {
                assert(e[0] == l@);
            } else if l@ == "jpeg"@ {
                assert(e[1] == l@);
            } else if l@ == "png"@ {
                assert(e[2] == l@);
            } else if l@ == "gif"@ {
                assert(e[3] == l@);
            } else if l@ == "webp"@ {
                assert(e[4] == l@);
            } else {
                assert(e[5] == l@);
            }
        } else {
            assert forall|i: int| 0 <= i < e.len() implies e[i] != l@ by {
                if i == 0 {
                    assert(e[0] == "jpg"@);
                } else if i == 1 {
                    assert(e[1] == "jpeg"@);
                } else if i == 2 {
                    assert(e[2] == "png"@);
                } else if i == 3 {
                    assert(e[3] == "gif"@);
                } else if i == 4 {
                    assert(e[4] == "webp"@);
                } else {
                    assert(e[5] == "bmp"@);
                }
            }
        }
    }
    r
}

/// An archive entry is taken as the cover when it is a file whose
/// extension names an image.
pub open spec fn spec_is_cover_candidate(is_file: bool, extension: Option<Seq<char>>) -> bool {
    is_file && match extension {
        Some(e) => image_extensions().contains(lowercase(e)),
        None => false,
    }
}

/// The abstract value of an optional text slice.
pub open spec fn opt_str_view(o: Option<&str>) -> Option<Seq<char>> {
    match o {
        Some(s) => Some(s@),
        None => None,
    }
}

/// Whether an archive entry is the page to use as the cover.
pub fn is_cover_candidate(is_file: bool, extension: Option<&str>) -> (r: bool)
    ensures
        r == spec_is_cover_candidate(is_file, opt_str_view(extension)),
{
    if !is_file {
        return false;
    }
    match extension {
        Some(e) => is_image_extension(e),
        None => false,
    }
}

/// The name of the folder that receives an archive's pages: `cover-` (for
/// the cover only) or `comictemp-` (for all pages), followed by the archive's
/// file name without its last four bytes (its `.cbz` or `.cbr`).
pub open spec fn spec_cover_folder_name(file_name: &str, full: bool) -> Seq<char> {
    let b = file_name.spec_bytes();
    (if full {
        "comictemp-"@
    } else {
        "cover-"@
    }) + decode_utf8(b.subrange(0, b.len() - 4))
}

/// The folder name for an archive's extracted pages. The file name must be
/// at least four bytes long and the cut must fall between characters.
pub fn cover_folder_name(file_name: &str, full: bool) -> (r: String)
    requires
        file_name.spec_bytes().len() >= 4,
        vstd::utf8::is_char_boundary(
            file_name.spec_bytes(),
            file_name.spec_bytes().len() - 4,
        ),
    ensures
        r@ == spec_cover_folder_name(file_name, full),
{
    let n = file_name.as_bytes().len();
    let (stem, _) = file_name.split_at(n - 4);
    proof {
        encode_utf8_decode_utf8(stem@);
    }
    let mut r = if full {
        "comictemp-".to_owned()
    } else {
        "cover-".to_owned()
    };
    r.append(stem);
    r
}

/// The last `/`-separated piece of an archive entry's path.
pub open spec fn spec_entry_file_name(path: Seq<char>) -> Seq<char> {
    let p = char_positions(path, '/');
    if p.len() == 0 {
        path
    } else {
        path.subrange(p.last() + 1, path.len() as int)
    }
}

/// The file name of an archive entry: what follows its last `/`.
pub fn entry_file_name(path: &str) -> (r: String)
    ensures
        r@ == spec_entry_file_name(path@),
{
    let pos = char_positions_of(path, '/');
    let n = path.unicode_len();
    proof {
        lemma_char_positions(path@, '/');
        assert(pos@.len() == char_positions(path@, '/').len());
    }
    if pos.len() == 0 {
        path.to_owned()
    } else {
        let last = pos[pos.len() - 1];
        proof {
            assert(char_positions(path@, '/')[pos@.len() - 1] == pos@[pos@.len() - 1] as int);
        }
        path.substring_char(last + 1, n).to_owned()
    }
}

/// The name of the WebP file written for a cover page.
pub fn cover_file_name(page_name: &str) -> (r: String)
    ensures
        r@ == page_name@ + ".webp"@,
{
    let mut r = page_name.to_owned();
    r.append(".webp");
    r
}

/// After a cover is written, a file is kept in its folder only if its
/// extension is exactly `webp`.
pub fn is_kept_after_cleanup(extension: Option<&str>) -> (r: bool)
    ensures
        r == (opt_str_view(extension) == Some("webp"@)),
{
    match extension {
        Some(e) => same_text(e, "webp"),
        None => false,
    }
}

/// A file found under an extraction folder is moved up into it when its
/// name is at least three bytes long and it has no extension or an image
/// extension.
pub open spec fn spec_is_movable_page(file_name: &str, extension: Option<Seq<char>>) -> bool {
    file_name.spec_bytes().len() >= 3 && match extension {
        Some(e) => image_extensions().contains(lowercase(e)),
        None => true,
    }
}

/// Whether a file found while flattening an extraction folder is moved.
pub fn is_movable_page(file_name: &str, extension: Option<&str>) -> (r: bool)
    ensures
        r == spec_is_movable_page(file_name, opt_str_view(extension)),
{
    if file_name.as_bytes().len() < 3 {
        return false;
    }
    match extension {
        Some(e) => is_image_extension(e),
        None => true,
    }
}

/// How the catalogue treats an entry of a scanned folder.
pub enum EntryKind {
    /// A folder: catalogued, then scanned itself.
    Folder,
    /// A comic archive (`cbz` or `cbr`): catalogued with its cover.
    Archive,
    /// Anything else: left out.
    Other,
}

/// The treatment of a folder entry, given whether it is a directory and its
/// extension.
pub open spec fn spec_entry_kind(is_dir: bool, extension: Option<Seq<char>>) -> EntryKind {
    if is_dir {
        EntryKind::Folder
    } else if extension == Some("cbz"@) || extension == Some("cbr"@) {
        EntryKind::Archive
    } else {
        EntryKind::Other
    }
}

/// How the catalogue treats a folder entry.
pub fn entry_kind(is_dir: bool, extension: Option<&str>) -> (r: EntryKind)
    ensures
        r == spec_entry_kind(is_dir, opt_str_view(extension)),
{
    if is_dir {
        return EntryKind::Folder;
    }
    match extension {
        Some(e) => {
            if same_text(e, "cbz") || same_text(e, "cbr") {
                EntryKind::Archive
            } else {
                EntryKind::Other
            }
        },
        None => EntryKind::Other,
    }
}

} // verus!
