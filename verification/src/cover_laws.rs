//! What the cover decisions promise over all inputs.
use vstd::prelude::*;
use vstd::string::StringSliceAdditionalSpecFns;
use vstd::utf8::{
    encode_scalar, encode_utf8, encode_utf8_decode_utf8, encode_utf8_valid_utf8,
    has_width_1_encoding, is_char_boundary, is_char_boundary_iff_not_is_continuation_byte,
    is_continuation_byte, leading_byte_width_1,
};
use crate::cover::{
    image_extensions, lowercase, spec_cover_folder_name, spec_entry_kind, spec_is_cover_candidate,
    spec_is_movable_page, EntryKind,
};

verus! {

/// The UTF-8 encoding of a concatenation is the concatenation of the
/// encodings.
pub proof fn lemma_encode_concat(a: Seq<char>, b: Seq<char>)
    ensures
        encode_utf8(a + b) == encode_utf8(a) + encode_utf8(b),
    decreases a.len(),
{
    if a.len() > 0 {
        assert((a + b)[0] == a[0]);
        assert((a + b).drop_first() =~= a.drop_first() + b);
        lemma_encode_concat(a.drop_first(), b);
        assert(encode_utf8(a + b) =~= encode_utf8(a) + encode_utf8(b));
    } else {
        assert(a + b =~= b);
        assert(encode_utf8(a) =~= Seq::<u8>::empty());
        assert(encode_utf8(a) + encode_utf8(b) =~= encode_utf8(b));
    }
}

/// True when every character of `t` is ASCII.
pub open spec fn all_ascii(t: Seq<char>) -> bool {
    forall|i: int| 0 <= i < t.len() ==> (#[trigger] t[i] as u32) < 128
}

/// An ASCII text encodes to one byte per character, none of them a
/// continuation byte.
pub proof fn lemma_encode_ascii(t: Seq<char>)
    requires
        all_ascii(t),
    ensures
        encode_utf8(t).len() == t.len(),
        forall|i: int| 0 <= i < t.len() ==> !is_continuation_byte(#[trigger] encode_utf8(t)[i]),
    decreases t.len(),
{
    if t.len() > 0 {
        let v = t[0] as u32;
        assert(v < 128);
        assert(has_width_1_encoding(v));
        let b = leading_byte_width_1(v);
        assert(b < 128u8) by (bit_vector)
            requires
                b == (v & 0x7F) as u8,
                v < 128,
        ;
        assert(encode_scalar(v) == seq![b]);
        let rest = t.drop_first();
        assert forall|i: int| 0 <= i < rest.len() implies (#[trigger] rest[i] as u32) < 128 by {
            assert(rest[i] == t[i + 1]);
        }
        lemma_encode_ascii(rest);
        assert forall|i: int| 0 <= i < t.len() implies !is_continuation_byte(
            #[trigger] encode_utf8(t)[i],
        ) by {
            if i > 0 {
                assert(encode_utf8(t)[i] == encode_utf8(rest)[i - 1]);
            }
        }
    }
}

/// The prefix of an extraction folder's name.
pub open spec fn folder_prefix(full: bool) -> Seq<char> {
    if full {
        "comictemp-"@
    } else {
        "cover-"@
    }
}

/// The folder for an archive named `s` followed by a four-character ASCII
/// extension (such as `.cbz`) is the prefix followed by exactly `s`, dots
/// and all; and such a name meets what `cover_folder_name` asks.
pub proof fn lemma_cover_folder_keeps_stem(
    file_name: &str,
    s: Seq<char>,
    ext: Seq<char>,
    full: bool,
)
    requires
        file_name@ == s + ext,
        ext.len() == 4,
        all_ascii(ext),
    ensures
        file_name.spec_bytes().len() >= 4,
        is_char_boundary(file_name.spec_bytes(), file_name.spec_bytes().len() - 4),
        spec_cover_folder_name(file_name, full) == folder_prefix(full) + s,
{
    let b = file_name.spec_bytes();
    lemma_encode_concat(s, ext);
    lemma_encode_ascii(ext);
    let es = encode_utf8(s);
    let et = encode_utf8(ext);
    assert(b == es + et);
    assert(b.len() == es.len() + 4);
    assert(b.subrange(0, b.len() - 4) =~= es);
    encode_utf8_decode_utf8(s);
    encode_utf8_valid_utf8(file_name@);
    assert(b[b.len() - 4] == et[0]);
    is_char_boundary_iff_not_is_continuation_byte(b, b.len() - 4);
}

/// A file entry is the cover exactly when its lowercased extension is one
/// of jpg, jpeg, png, gif, webp and bmp; an entry that is not a file, or
/// has no extension, never is.
pub proof fn lemma_cover_candidate_extensions(ext: Seq<char>)
    ensures
        spec_is_cover_candidate(true, Some(ext)) == ({
            let l = lowercase(ext);
            l == "jpg"@ || l == "jpeg"@ || l == "png"@ || l == "gif"@ || l == "webp"@ || l == "bmp"@
        }),
        !spec_is_cover_candidate(false, Some(ext)),
        !spec_is_cover_candidate(true, None),
{
    let l = lowercase(ext);
    let e = image_extensions();
    if e.contains(l) {
        let i = choose|i: int| 0 <= i < e.len() && e[i] == l;
        assert(i == 0 || i == 1 || i == 2 || i == 3 || i == 4 || i == 5);
    }
    if l == "jpg"@ {
        assert(e[0] == l);
    } else if l == "jpeg"@ {
        assert(e[1] == l);
    } else if l == "png"@ {
        assert(e[2] == l);
    } else if l == "gif"@ {
        assert(e[3] == l);
    } else if l == "webp"@ {
        assert(e[4] == l);
    } else if l == "bmp"@ {
        assert(e[5] == l);
    }
}

/// Taking an entry as the cover and moving a page up agree: for a name of
/// at least three bytes, a file with an extension is the cover exactly when
/// it would be moved.
pub proof fn lemma_cover_candidate_is_movable(file_name: &str, ext: Seq<char>)
    requires
        file_name.spec_bytes().len() >= 3,
    ensures
        spec_is_cover_candidate(true, Some(ext)) == spec_is_movable_page(file_name, Some(ext)),
{
}

/// Every directory is catalogued as a folder, whatever its name; a file is
/// an archive exactly when its extension is `cbz` or `cbr`.
pub proof fn lemma_entry_kind_rules(ext: Option<Seq<char>>)
    ensures
        spec_entry_kind(true, ext) == EntryKind::Folder,
        (spec_entry_kind(false, ext) == EntryKind::Archive) == (ext == Some("cbz"@) || ext
            == Some("cbr"@)),
        (spec_entry_kind(false, ext) == EntryKind::Other) == !(ext == Some("cbz"@) || ext
            == Some("cbr"@)),
{
}

} // verus!
