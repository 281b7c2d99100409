//! Recognition of the image file formats the application can import.
//!
//! An extension matches case-insensitively: `"CR2"` and `"cr2"` name the
//! same RAW format. Folding is ASCII-only, as extensions of supported
//! formats are ASCII; other characters pass through the fold unchanged.

use vstd::prelude::*;

verus! {

/// ASCII lower-casing of one character; everything outside `A`..`Z` is kept.
pub open spec fn lower_char(c: char) -> char {
    if 'A' <= c && c <= 'Z' {
        ((c as u32) + 32) as char
    } else {
        c
    }
}

/// ASCII lower-casing of a whole character sequence.
pub open spec fn lower_seq(s: Seq<char>) -> Seq<char> {
    Seq::new(s.len(), |i: int| lower_char(s[i]))
}

/// True when `s`, lower-cased, is the extension of a supported RAW format.
pub open spec fn spec_is_raw_extension(s: Seq<char>) -> bool {
    ||| lower_seq(s) == "cr2"@
    ||| lower_seq(s) == "cr3"@
    ||| lower_seq(s) == "crw"@
    ||| lower_seq(s) == "nef"@
    ||| lower_seq(s) == "nrw"@
    ||| lower_seq(s) == "arw"@
    ||| lower_seq(s) == "srf"@
    ||| lower_seq(s) == "sr2"@
    ||| lower_seq(s) == "raf"@
    ||| lower_seq(s) == "rw2"@
    ||| lower_seq(s) == "orf"@
    ||| lower_seq(s) == "pef"@
    ||| lower_seq(s) == "dng"@
    ||| lower_seq(s) == "3fr"@
    ||| lower_seq(s) == "ari"@
    ||| lower_seq(s) == "bay"@
    ||| lower_seq(s) == "cap"@
    ||| lower_seq(s) == "dcr"@
    ||| lower_seq(s) == "erf"@
    ||| lower_seq(s) == "fff"@
    ||| lower_seq(s) == "iiq"@
    ||| lower_seq(s) == "k25"@
    ||| lower_seq(s) == "kdc"@
    ||| lower_seq(s) == "mef"@
    ||| lower_seq(s) == "mos"@
    ||| lower_seq(s) == "mrw"@
    ||| lower_seq(s) == "raw"@
    ||| lower_seq(s) == "rwl"@
    ||| lower_seq(s) == "srw"@
    ||| lower_seq(s) == "x3f"@
}

/// True when `s`, lower-cased, is the extension of a supported non-RAW format.
pub open spec fn spec_is_image_extension(s: Seq<char>) -> bool {
    ||| lower_seq(s) == "jpg"@
    ||| lower_seq(s) == "jpeg"@
    ||| lower_seq(s) == "png"@
    ||| lower_seq(s) == "tiff"@
    ||| lower_seq(s) == "tif"@
}

/// ASCII-folds one character, as `lower_char` describes.
fn to_lower(c: char) -> (r: char)
    ensures
        r == lower_char(c),
{
    match c {
        'A' => 'a',
        'B' => 'b',
        'C' => 'c',
        'D' => 'd',
        'E' => 'e',
        'F' => 'f',
        'G' => 'g',
        'H' => 'h',
        'I' => 'i',
        'J' => 'j',
        'K' => 'k',
        'L' => 'l',
        'M' => 'm',
        'N' => 'n',
        'O' => 'o',
        'P' => 'p',
        'Q' => 'q',
        'R' => 'r',
        'S' => 's',
        'T' => 't',
        'U' => 'u',
        'V' => 'v',
        'W' => 'w',
        'X' => 'x',
        'Y' => 'y',
        'Z' => 'z',
        _ => c,
    }
}

/// Compares `a`, ASCII-folded to lower case, against `b` as given.
fn eq_fold_lower(a: &str, b: &str) -> (r: bool)
    ensures
        r == (lower_seq(a@) == b@),
{
    let a_len = a.unicode_len();
    let b_len = b.unicode_len();
    if a_len != b_len {
        assert(lower_seq(a@).len() == a@.len());
        return false;
    }
    let mut i: usize = 0;
    while i < a_len
        invariant
            a_len == a@.len(),
            b_len == b@.len(),
            a_len == b_len,
            i <= a_len,
            forall|j: int| 0 <= j < i ==> lower_seq(a@)[j] == b@[j],
        decreases a_len - i,
    {
        let ca = to_lower(a.get_char(i));
        let cb = b.get_char(i);
        if ca != cb {
            assert(lower_seq(a@)[i as int] != b@[i as int]);
            return false;
        }
        i += 1;
    }
    assert(lower_seq(a@) =~= b@);
    true
}

/// Does the extension name a RAW camera format, ignoring ASCII case?
pub fn is_raw_extension(ext: &str) -> (r: bool)
    ensures
        r == spec_is_raw_extension(ext@),
{
    eq_fold_lower(ext, "cr2") || eq_fold_lower(ext, "cr3") || eq_fold_lower(ext, "crw")
        || eq_fold_lower(ext, "nef") || eq_fold_lower(ext, "nrw") || eq_fold_lower(ext, "arw")
        || eq_fold_lower(ext, "srf") || eq_fold_lower(ext, "sr2") || eq_fold_lower(ext, "raf")
        || eq_fold_lower(ext, "rw2") || eq_fold_lower(ext, "orf") || eq_fold_lower(ext, "pef")
        || eq_fold_lower(ext, "dng") || eq_fold_lower(ext, "3fr") || eq_fold_lower(ext, "ari")
        || eq_fold_lower(ext, "bay") || eq_fold_lower(ext, "cap") || eq_fold_lower(ext, "dcr")
        || eq_fold_lower(ext, "erf") || eq_fold_lower(ext, "fff") || eq_fold_lower(ext, "iiq")
        || eq_fold_lower(ext, "k25") || eq_fold_lower(ext, "kdc") || eq_fold_lower(ext, "mef")
        || eq_fold_lower(ext, "mos") || eq_fold_lower(ext, "mrw") || eq_fold_lower(ext, "raw")
        || eq_fold_lower(ext, "rwl") || eq_fold_lower(ext, "srw") || eq_fold_lower(ext, "x3f")
}

/// Does the extension name any supported format (RAW or standard image),
/// ignoring ASCII case?
pub fn is_supported_extension(ext: &str) -> (r: bool)
    ensures
        r == (spec_is_raw_extension(ext@) || spec_is_image_extension(ext@)),
{
    is_raw_extension(ext) || eq_fold_lower(ext, "jpg") || eq_fold_lower(ext, "jpeg")
        || eq_fold_lower(ext, "png") || eq_fold_lower(ext, "tiff") || eq_fold_lower(ext, "tif")
}

} // verus!
