//! File type categories used to limit which files a scan recovers.
//!
//! The scan engine knows hundreds of file formats. When a scan should only
//! recover certain kinds of files (photos, videos, documents, ...) these
//! categories are mapped onto the engine's extension list so that only the
//! matching file types are enabled. Anything not explicitly classified falls
//! into "Other".

use vstd::prelude::*;
use crate::text::{chars_of, is_white_space, lower_char, lower_char_exec, same_chars, skip_lead_ws, skip_trail_ws, trim_bounds};

verus! {

#[derive(Debug, Clone, Copy, PartialEq, Eq, Structural, Hash)]
pub enum FileCategory {
    Photo,
    Video,
    Document,
    Audio,
    Archive,
    Other,
}

/// Every category, in the order `classify` tries them.
pub open spec fn all_categories() -> Seq<FileCategory> {
    seq![
        FileCategory::Photo,
        FileCategory::Video,
        FileCategory::Document,
        FileCategory::Audio,
        FileCategory::Archive,
        FileCategory::Other,
    ]
}

/// Every category, in the order `classify` tries them.
pub fn all_categories_vec() -> (r: Vec<FileCategory>)
    ensures
        r@ == all_categories(),
{
    let r = vec![
        FileCategory::Photo,
        FileCategory::Video,
        FileCategory::Document,
        FileCategory::Audio,
        FileCategory::Archive,
        FileCategory::Other,
    ];
    assert(r@ =~= all_categories());
    r
}

/// The label shown for a category.
pub open spec fn spec_label(c: FileCategory) -> Seq<char> {
    match c {
        FileCategory::Photo => seq!['P', 'h', 'o', 't', 'o', 's'],
        FileCategory::Video => seq!['V', 'i', 'd', 'e', 'o', 's'],
        FileCategory::Document => seq!['D', 'o', 'c', 'u', 'm', 'e', 'n', 't', 's'],
        FileCategory::Audio => seq!['A', 'u', 'd', 'i', 'o'],
        FileCategory::Archive => seq!['A', 'r', 'c', 'h', 'i', 'v', 'e', 's'],
        FileCategory::Other => seq!['O', 't', 'h', 'e', 'r'],
    }
}

/// The canonical extensions of a category (`Other` has none).
pub open spec fn spec_extensions(c: FileCategory) -> Seq<Seq<char>> {
    match c {
        FileCategory::Photo => seq![
            seq!['b', 'm', 'p'],
            seq!['b', 'p', 'g'],
            seq!['c', 'a', 'm'],
            seq!['c', 'p', 'i'],
            seq!['c', 'r', 'w'],
            seq!['d', 'p', 'x'],
            seq!['e', 'x', 'r'],
            seq!['f', 'i', 't', 's'],
            seq!['g', 'i', 'f'],
            seq!['h', 'd', 'r'],
            seq!['i', 'c', 'n', 's'],
            seq!['i', 'c', 'o'],
            seq!['j', 'p', 'g'],
            seq!['m', 'r', 'w'],
            seq!['n', 'd', '2'],
            seq!['o', 'r', 'f'],
            seq!['p', 'c', 't'],
            seq!['p', 'c', 'x'],
            seq!['p', 'n', 'g'],
            seq!['p', 'n', 'm'],
            seq!['p', 's', 'b'],
            seq!['p', 's', 'd'],
            seq!['r', 'a', 'f'],
            seq!['r', 'a', 'w'],
            seq!['r', 'w', '2'],
            seq!['t', 'i', 'f'],
            seq!['t', 'i', 'f', 'f'],
            seq!['x', '3', 'f'],
            seq!['x', 'c', 'f'],
        ],
        FileCategory::Video => seq![
            seq!['3', 'g', 'p'],
            seq!['a', 's', 'f'],
            seq!['a', 'v', 'i'],
            seq!['d', 'v'],
            seq!['f', 'l', 'v'],
            seq!['m', '2', 't', 's'],
            seq!['m', 'k', 'v'],
            seq!['m', 'l', 'v'],
            seq!['m', 'o', 'v'],
            seq!['m', 'p', '4'],
            seq!['m', 'p', 'g'],
            seq!['m', 'p', 'e', 'g'],
            seq!['m', 'p', 'l'],
            seq!['m', 't', 's'],
            seq!['m', 'x', 'f'],
            seq!['r', '3', 'd'],
            seq!['r', 'm'],
            seq!['s', 'w', 'f'],
            seq!['t', 's'],
            seq!['v', 'o', 'b'],
            seq!['w', 'd', 'p'],
            seq!['w', 'm', 'v'],
            seq!['w', 't', 'v'],
        ],
        FileCategory::Document => seq![
            seq!['c', 'h', 'm'],
            seq!['c', 'w', 'k'],
            seq!['d', 'o', 'c'],
            seq!['d', 's', 'c'],
            seq!['d', 'v', 'i'],
            seq!['d', 'w', 'g'],
            seq!['d', 'x', 'f'],
            seq!['e', 'm', 'f'],
            seq!['l', 'i', 't'],
            seq!['l', 'n', 'k'],
            seq!['m', 'o', 'b', 'i'],
            seq!['o', 'n', 'e'],
            seq!['p', 'd', 'f'],
            seq!['p', 's'],
            seq!['t', 'x', 't'],
            seq!['w', 'k', 's'],
            seq!['w', 'm', 'f'],
            seq!['w', 'p', 'd'],
            seq!['x', 'm', 'l'],
            seq!['x', 'p', 't'],
        ],
        FileCategory::Audio => seq![
            seq!['a', 'i', 'f'],
            seq!['a', 'i', 'f', 'f'],
            seq!['a', 'm', 'r'],
            seq!['a', 'p', 'e'],
            seq!['a', 'u'],
            seq!['c', 'a', 'f'],
            seq!['f', 'l', 'a', 'c'],
            seq!['g', 's', 'm'],
            seq!['i', 't', 'u'],
            seq!['m', 'i', 'd'],
            seq!['m', 'p', '3'],
            seq!['m', 'u', 's'],
            seq!['o', 'g', 'g'],
            seq!['p', 'a', 'f'],
            seq!['r', 'a'],
            seq!['s', 'h', 'n'],
            seq!['s', 'p', 'e'],
            seq!['s', 'p', '3'],
            seq!['w', 'a', 'v'],
            seq!['w', 'v'],
        ],
        FileCategory::Archive => seq![
            seq!['7', 'z'],
            seq!['a', 'c', 'e'],
            seq!['a', 'r', 'j'],
            seq!['b', 'z', '2'],
            seq!['c', 'a', 'b'],
            seq!['d', 'a', 'r'],
            seq!['d', 'd', 'f'],
            seq!['g', 'z'],
            seq!['l', 'z'],
            seq!['l', 'z', 'h'],
            seq!['l', 'z', 'o'],
            seq!['l', 's', 'o'],
            seq!['p', 'a'],
            seq!['p', 'a', 'r', '2'],
            seq!['r', 'a', 'r'],
            seq!['s', 'i', 't'],
            seq!['t', 'a', 'r'],
            seq!['t', 'g'],
            seq!['t', 'z'],
            seq!['x', 'z'],
            seq!['z', 'i', 'p'],
            seq!['z', 'p', 'r'],
        ],
        FileCategory::Other => Seq::empty(),
    }
}

/// `s` without its leading dots.
pub open spec fn skip_lead_dots(s: Seq<char>) -> Seq<char>
    decreases s.len(),
{
    if s.len() > 0 && s[0] == '.' {
        skip_lead_dots(s.drop_first())
    } else {
        s
    }
}

/// An extension as `classify` compares it: white space trimmed, leading
/// dots dropped, ASCII letters lowercased.
pub open spec fn normalize_ext(s: Seq<char>) -> Seq<char> {
    skip_lead_dots(skip_trail_ws(skip_lead_ws(s))).map_values(|c: char| lower_char(c))
}

/// The first category (in `all_categories` order) whose extensions hold
/// `ext` once normalized; `Other` when none does.
pub open spec fn spec_classify(ext: Seq<char>) -> FileCategory {
    let e = normalize_ext(ext);
    if spec_extensions(FileCategory::Photo).contains(e) {
        FileCategory::Photo
    } else if spec_extensions(FileCategory::Video).contains(e) {
        FileCategory::Video
    } else if spec_extensions(FileCategory::Document).contains(e) {
        FileCategory::Document
    } else if spec_extensions(FileCategory::Audio).contains(e) {
        FileCategory::Audio
    } else if spec_extensions(FileCategory::Archive).contains(e) {
        FileCategory::Archive
    } else {
        FileCategory::Other
    }
}

/// Character `i` of `e` as a number, 0 past its end.
pub open spec fn ext_ch(e: Seq<char>, i: int) -> int {
    if 0 <= i < e.len() {
        e[i] as int
    } else {
        0
    }
}

/// A number that tells apart extensions of at most four characters.
pub open spec fn ext_key(e: Seq<char>) -> int {
    e.len() + 8 * (ext_ch(e, 0) + 0x20_0000 * (ext_ch(e, 1) + 0x20_0000 * (ext_ch(e, 2) + 0x20_0000 * ext_ch(
        e,
        3,
    ))))
}

/// A character an extension is written with: a lower-case ASCII letter or
/// a digit.
pub open spec fn ext_char(c: char) -> bool {
    ('a' <= c && c <= 'z') || ('0' <= c && c <= '9')
}

/// A canonical extension: non-empty, made of `ext_char`s.
pub open spec fn ext_shaped(e: Seq<char>) -> bool {
    e.len() > 0 && forall|i: int| 0 <= i < e.len() ==> ext_char(#[trigger] e[i])
}

proof fn lemma_shape_photo()
    ensures
        forall|k: int| 0 <= k < spec_extensions(FileCategory::Photo).len() ==> ext_shaped(
            #[trigger] spec_extensions(FileCategory::Photo)[k],
        ),
{
}

proof fn lemma_shape_video()
    ensures
        forall|k: int| 0 <= k < spec_extensions(FileCategory::Video).len() ==> ext_shaped(
            #[trigger] spec_extensions(FileCategory::Video)[k],
        ),
{
}

proof fn lemma_shape_document()
    ensures
        forall|k: int| 0 <= k < spec_extensions(FileCategory::Document).len() ==> ext_shaped(
            #[trigger] spec_extensions(FileCategory::Document)[k],
        ),
{
}

proof fn lemma_shape_audio()
    ensures
        forall|k: int| 0 <= k < spec_extensions(FileCategory::Audio).len() ==> ext_shaped(
            #[trigger] spec_extensions(FileCategory::Audio)[k],
        ),
{
}

proof fn lemma_shape_archive()
    ensures
        forall|k: int| 0 <= k < spec_extensions(FileCategory::Archive).len() ==> ext_shaped(
            #[trigger] spec_extensions(FileCategory::Archive)[k],
        ),
{
}

#[verifier::spinoff_prover]
#[verifier::rlimit(60)]
proof fn lemma_apart_photo_video()
    ensures
        forall|i: int, j: int|
            0 <= i < spec_extensions(FileCategory::Photo).len() && 0 <= j < spec_extensions(FileCategory::Video).len()
                ==> #[trigger] spec_extensions(FileCategory::Photo)[i] != #[trigger] spec_extensions(FileCategory::Video)[j],
{
    assert forall|i: int, j: int|
        0 <= i < spec_extensions(FileCategory::Photo).len() && 0 <= j < spec_extensions(FileCategory::Video).len() implies ext_key(
            #[trigger] spec_extensions(FileCategory::Photo)[i],
        ) != ext_key(#[trigger] spec_extensions(FileCategory::Video)[j]) by {
    }
}

#[verifier::spinoff_prover]
#[verifier::rlimit(60)]
proof fn lemma_apart_photo_document()
    ensures
        forall|i: int, j: int|
            0 <= i < spec_extensions(FileCategory::Photo).len() && 0 <= j < spec_extensions(FileCategory::Document).len()
                ==> #[trigger] spec_extensions(FileCategory::Photo)[i] != #[trigger] spec_extensions(FileCategory::Document)[j],
{
    assert forall|i: int, j: int|
        0 <= i < spec_extensions(FileCategory::Photo).len() && 0 <= j < spec_extensions(FileCategory::Document).len() implies ext_key(
            #[trigger] spec_extensions(FileCategory::Photo)[i],
        ) != ext_key(#[trigger] spec_extensions(FileCategory::Document)[j]) by {
    }
}

#[verifier::spinoff_prover]
#[verifier::rlimit(60)]
proof fn lemma_apart_photo_audio()
    ensures
        forall|i: int, j: int|
            0 <= i < spec_extensions(FileCategory::Photo).len() && 0 <= j < spec_extensions(FileCategory::Audio).len()
                ==> #[trigger] spec_extensions(FileCategory::Photo)[i] != #[trigger] spec_extensions(FileCategory::Audio)[j],
{
    assert forall|i: int, j: int|
        0 <= i < spec_extensions(FileCategory::Photo).len() && 0 <= j < spec_extensions(FileCategory::Audio).len() implies ext_key(
            #[trigger] spec_extensions(FileCategory::Photo)[i],
        ) != ext_key(#[trigger] spec_extensions(FileCategory::Audio)[j]) by {
    }
}

#[verifier::spinoff_prover]
#[verifier::rlimit(60)]
proof fn lemma_apart_photo_archive()
    ensures
        forall|i: int, j: int|
            0 <= i < spec_extensions(FileCategory::Photo).len() && 0 <= j < spec_extensions(FileCategory::Archive).len()
                ==> #[trigger] spec_extensions(FileCategory::Photo)[i] != #[trigger] spec_extensions(FileCategory::Archive)[j],
{
    assert forall|i: int, j: int|
        0 <= i < spec_extensions(FileCategory::Photo).len() && 0 <= j < spec_extensions(FileCategory::Archive).len() implies ext_key(
            #[trigger] spec_extensions(FileCategory::Photo)[i],
        ) != ext_key(#[trigger] spec_extensions(FileCategory::Archive)[j]) by {
    }
}

#[verifier::spinoff_prover]
#[verifier::rlimit(60)]
proof fn lemma_apart_video_document()
    ensures
        forall|i: int, j: int|
            0 <= i < spec_extensions(FileCategory::Video).len() && 0 <= j < spec_extensions(FileCategory::Document).len()
                ==> #[trigger] spec_extensions(FileCategory::Video)[i] != #[trigger] spec_extensions(FileCategory::Document)[j],
{
    assert forall|i: int, j: int|
        0 <= i < spec_extensions(FileCategory::Video).len() && 0 <= j < spec_extensions(FileCategory::Document).len() implies ext_key(
            #[trigger] spec_extensions(FileCategory::Video)[i],
        ) != ext_key(#[trigger] spec_extensions(FileCategory::Document)[j]) by {
    }
}

#[verifier::spinoff_prover]
#[verifier::rlimit(60)]
proof fn lemma_apart_video_audio()
    ensures
        forall|i: int, j: int|
            0 <= i < spec_extensions(FileCategory::Video).len() && 0 <= j < spec_extensions(FileCategory::Audio).len()
                ==> #[trigger] spec_extensions(FileCategory::Video)[i] != #[trigger] spec_extensions(FileCategory::Audio)[j],
{
    assert forall|i: int, j: int|
        0 <= i < spec_extensions(FileCategory::Video).len() && 0 <= j < spec_extensions(FileCategory::Audio).len() implies ext_key(
            #[trigger] spec_extensions(FileCategory::Video)[i],
        ) != ext_key(#[trigger] spec_extensions(FileCategory::Audio)[j]) by {
    }
}

#[verifier::spinoff_prover]
#[verifier::rlimit(60)]
proof fn lemma_apart_video_archive()
    ensures
        forall|i: int, j: int|
            0 <= i < spec_extensions(FileCategory::Video).len() && 0 <= j < spec_extensions(FileCategory::Archive).len()
                ==> #[trigger] spec_extensions(FileCategory::Video)[i] != #[trigger] spec_extensions(FileCategory::Archive)[j],
{
    assert forall|i: int, j: int|
        0 <= i < spec_extensions(FileCategory::Video).len() && 0 <= j < spec_extensions(FileCategory::Archive).len() implies ext_key(
            #[trigger] spec_extensions(FileCategory::Video)[i],
        ) != ext_key(#[trigger] spec_extensions(FileCategory::Archive)[j]) by {
    }
}

#[verifier::spinoff_prover]
#[verifier::rlimit(60)]
proof fn lemma_apart_document_audio()
    ensures
        forall|i: int, j: int|
            0 <= i < spec_extensions(FileCategory::Document).len() && 0 <= j < spec_extensions(FileCategory::Audio).len()
                ==> #[trigger] spec_extensions(FileCategory::Document)[i] != #[trigger] spec_extensions(FileCategory::Audio)[j],
{
    assert forall|i: int, j: int|
        0 <= i < spec_extensions(FileCategory::Document).len() && 0 <= j < spec_extensions(FileCategory::Audio).len() implies ext_key(
            #[trigger] spec_extensions(FileCategory::Document)[i],
        ) != ext_key(#[trigger] spec_extensions(FileCategory::Audio)[j]) by {
    }
}

#[verifier::spinoff_prover]
#[verifier::rlimit(60)]
proof fn lemma_apart_document_archive()
    ensures
        forall|i: int, j: int|
            0 <= i < spec_extensions(FileCategory::Document).len() && 0 <= j < spec_extensions(FileCategory::Archive).len()
                ==> #[trigger] spec_extensions(FileCategory::Document)[i] != #[trigger] spec_extensions(FileCategory::Archive)[j],
{
    assert forall|i: int, j: int|
        0 <= i < spec_extensions(FileCategory::Document).len() && 0 <= j < spec_extensions(FileCategory::Archive).len() implies ext_key(
            #[trigger] spec_extensions(FileCategory::Document)[i],
        ) != ext_key(#[trigger] spec_extensions(FileCategory::Archive)[j]) by {
    }
}

#[verifier::spinoff_prover]
#[verifier::rlimit(60)]
proof fn lemma_apart_audio_archive()
    ensures
        forall|i: int, j: int|
            0 <= i < spec_extensions(FileCategory::Audio).len() && 0 <= j < spec_extensions(FileCategory::Archive).len()
                ==> #[trigger] spec_extensions(FileCategory::Audio)[i] != #[trigger] spec_extensions(FileCategory::Archive)[j],
{
    assert forall|i: int, j: int|
        0 <= i < spec_extensions(FileCategory::Audio).len() && 0 <= j < spec_extensions(FileCategory::Archive).len() implies ext_key(
            #[trigger] spec_extensions(FileCategory::Audio)[i],
        ) != ext_key(#[trigger] spec_extensions(FileCategory::Archive)[j]) by {
    }
}

/// The extension tables: `Other` lists none and every other category some;
/// each extension is canonical (lower-case ASCII letters and digits); no
/// two categories share one.
pub proof fn lemma_extension_tables()
    ensures
        spec_extensions(FileCategory::Other).len() == 0,
        forall|c: FileCategory| c != FileCategory::Other ==> #[trigger] spec_extensions(c).len() > 0,
        forall|c: FileCategory, k: int|
            0 <= k < spec_extensions(c).len() ==> ext_shaped(#[trigger] spec_extensions(c)[k]),
        forall|c: FileCategory, d: FileCategory, i: int, j: int|
            c != d && 0 <= i < spec_extensions(c).len() && 0 <= j < spec_extensions(d).len()
                ==> #[trigger] spec_extensions(c)[i] != #[trigger] spec_extensions(d)[j],
{
    lemma_shape_photo();
    lemma_shape_video();
    lemma_shape_document();
    lemma_shape_audio();
    lemma_shape_archive();
    lemma_apart_photo_video();
    lemma_apart_photo_document();
    lemma_apart_photo_audio();
    lemma_apart_photo_archive();
    lemma_apart_video_document();
    lemma_apart_video_audio();
    lemma_apart_video_archive();
    lemma_apart_document_audio();
    lemma_apart_document_archive();
    lemma_apart_audio_archive();
    assert forall|c: FileCategory, d: FileCategory, i: int, j: int|
        c != d && 0 <= i < spec_extensions(c).len() && 0 <= j < spec_extensions(d).len() implies #[trigger] spec_extensions(
            c,
        )[i] != #[trigger] spec_extensions(d)[j] by {
        if c == FileCategory::Other || d == FileCategory::Other {
        }
    }
}

/// A canonical extension is its own normal form.
proof fn lemma_normal_ext(e: Seq<char>)
    requires
        ext_shaped(e),
    ensures
        normalize_ext(e) == e,
{
    assert(!is_white_space(e[0]));
    assert(skip_lead_ws(e) == e);
    assert(!is_white_space(e.last()));
    assert(skip_trail_ws(e) == e);
    assert(skip_lead_dots(e) == e);
    assert(e.map_values(|c: char| lower_char(c)) =~= e);
}

/// Every extension a category lists is classified in that category, and so
/// is any text that normalizes to it (surrounding white space, leading dots,
/// upper-case letters).
pub proof fn lemma_classify_listed(c: FileCategory, k: int)
    requires
        0 <= k < spec_extensions(c).len(),
    ensures
        spec_classify(spec_extensions(c)[k]) == c,
        forall|y: Seq<char>| normalize_ext(y) == spec_extensions(c)[k] ==> #[trigger] spec_classify(y) == c,
{
    lemma_extension_tables();
    let e = spec_extensions(c)[k];
    lemma_normal_ext(e);
    assert(spec_extensions(c).contains(e));
    assert forall|d: FileCategory| d != c implies !#[trigger] spec_extensions(d).contains(e) by {
        if spec_extensions(d).contains(e) {
            let j = choose|j: int| 0 <= j < spec_extensions(d).len() && spec_extensions(d)[j] == e;
            assert(spec_extensions(d)[j] != spec_extensions(c)[k]);
        }
    }
    assert(!spec_extensions(FileCategory::Photo).contains(e) || c == FileCategory::Photo);
    assert(!spec_extensions(FileCategory::Video).contains(e) || c == FileCategory::Video);
    assert(!spec_extensions(FileCategory::Document).contains(e) || c == FileCategory::Document);
    assert(!spec_extensions(FileCategory::Audio).contains(e) || c == FileCategory::Audio);
    assert(!spec_extensions(FileCategory::Archive).contains(e) || c == FileCategory::Archive);
}

/// A category other than `Other` is given only to an extension that,
/// normalized, the category lists.
pub proof fn lemma_classify_lists(e: Seq<char>)
    ensures
        spec_classify(e) != FileCategory::Other ==> spec_extensions(spec_classify(e)).contains(normalize_ext(e)),
{
}

fn str_chars_vec(v: &Vec<&str>) -> (r: Vec<Vec<char>>)
    ensures
        r@.len() == v@.len(),
        forall|k: int| 0 <= k < v@.len() ==> #[trigger] r@[k]@ == v@[k]@,
{
    let mut r: Vec<Vec<char>> = Vec::new();
    let mut i: usize = 0;
    while i < v.len()
        invariant
            i <= v@.len(),
            r@.len() == i,
            forall|k: int| 0 <= k < i ==> #[trigger] r@[k]@ == v@[k]@,
        decreases v@.len() - i,
    {
        r.push(chars_of(v[i]));
        i += 1;
    }
    r
}

fn list_contains(list: &Vec<Vec<char>>, e: &Vec<char>) -> (r: bool)
    ensures
        r == list@.map_values(|x: Vec<char>| x@).contains(e@),
{
    let ghost views = list@.map_values(|x: Vec<char>| x@);
    let mut i: usize = 0;
    while i < list.len()
        invariant
            i <= list@.len(),
            views == list@.map_values(|x: Vec<char>| x@),
            forall|k: int| 0 <= k < i ==> views[k] != e@,
        decreases list@.len() - i,
    {
        if same_chars(&list[i], e) {
            assert(views[i as int] == e@);
            return true;
        }
        i += 1;
    }
    false
}

impl FileCategory {
    /// The label shown for the category.
    pub fn label(self) -> (r: &'static str)
        ensures
            r@ == spec_label(self),
    {
        match self {
            FileCategory::Photo => {
                proof {
                    reveal_strlit("Photos");
                }
                "Photos"
            },
            FileCategory::Video => {
                proof {
                    reveal_strlit("Videos");
                }
                "Videos"
            },
            FileCategory::Document => {
                proof {
                    reveal_strlit("Documents");
                }
                "Documents"
            },
            FileCategory::Audio => {
                proof {
                    reveal_strlit("Audio");
                }
                "Audio"
            },
            FileCategory::Archive => {
                proof {
                    reveal_strlit("Archives");
                }
                "Archives"
            },
            FileCategory::Other => {
                proof {
                    reveal_strlit("Other");
                }
                "Other"
            },
        }
    }

    /// Canonical extensions that belong to this category.
    pub fn extensions(self) -> (r: Vec<&'static str>)
        ensures
            r@.len() == spec_extensions(self).len(),
            forall|k: int| 0 <= k < r@.len() ==> #[trigger] r@[k]@ == spec_extensions(self)[k],
    {
        match self {
            FileCategory::Photo => {
                proof {
                    reveal_strlit("bmp");
                    reveal_strlit("bpg");
                    reveal_strlit("cam");
                    reveal_strlit("cpi");
                    reveal_strlit("crw");
                    reveal_strlit("dpx");
                    reveal_strlit("exr");
                    reveal_strlit("fits");
                    reveal_strlit("gif");
                    reveal_strlit("hdr");
                    reveal_strlit("icns");
                    reveal_strlit("ico");
                    reveal_strlit("jpg");
                    reveal_strlit("mrw");
                    reveal_strlit("nd2");
                    reveal_strlit("orf");
                    reveal_strlit("pct");
                    reveal_strlit("pcx");
                    reveal_strlit("png");
                    reveal_strlit("pnm");
                    reveal_strlit("psb");
                    reveal_strlit("psd");
                    reveal_strlit("raf");
                    reveal_strlit("raw");
                    reveal_strlit("rw2");
                    reveal_strlit("tif");
                    reveal_strlit("tiff");
                    reveal_strlit("x3f");
                    reveal_strlit("xcf");
                }
                let r = vec!["bmp", "bpg", "cam", "cpi", "crw", "dpx", "exr", "fits", "gif", "hdr", "icns", "ico", "jpg", "mrw", "nd2", "orf", "pct", "pcx", "png", "pnm", "psb", "psd", "raf", "raw", "rw2", "tif", "tiff", "x3f", "xcf"];
                assert(r@.len() == spec_extensions(self).len());
                r
            },
            FileCategory::Video => {
                proof {
                    reveal_strlit("3gp");
                    reveal_strlit("asf");
                    reveal_strlit("avi");
                    reveal_strlit("dv");
                    reveal_strlit("flv");
                    reveal_strlit("m2ts");
                    reveal_strlit("mkv");
                    reveal_strlit("mlv");
                    reveal_strlit("mov");
                    reveal_strlit("mp4");
                    reveal_strlit("mpg");
                    reveal_strlit("mpeg");
                    reveal_strlit("mpl");
                    reveal_strlit("mts");
                    reveal_strlit("mxf");
                    reveal_strlit("r3d");
                    reveal_strlit("rm");
                    reveal_strlit("swf");
                    reveal_strlit("ts");
                    reveal_strlit("vob");
                    reveal_strlit("wdp");
                    reveal_strlit("wmv");
                    reveal_strlit("wtv");
                }
                let r = vec!["3gp", "asf", "avi", "dv", "flv", "m2ts", "mkv", "mlv", "mov", "mp4", "mpg", "mpeg", "mpl", "mts", "mxf", "r3d", "rm", "swf", "ts", "vob", "wdp", "wmv", "wtv"];
                assert(r@.len() == spec_extensions(self).len());
                r
            },
            FileCategory::Document => {
                proof {
                    reveal_strlit("chm");
                    reveal_strlit("cwk");
                    reveal_strlit("doc");
                    reveal_strlit("dsc");
                    reveal_strlit("dvi");
                    reveal_strlit("dwg");
                    reveal_strlit("dxf");
                    reveal_strlit("emf");
                    reveal_strlit("lit");
                    reveal_strlit("lnk");
                    reveal_strlit("mobi");
                    reveal_strlit("one");
                    reveal_strlit("pdf");
                    reveal_strlit("ps");
                    reveal_strlit("txt");
                    reveal_strlit("wks");
                    reveal_strlit("wmf");
                    reveal_strlit("wpd");
                    reveal_strlit("xml");
                    reveal_strlit("xpt");
                }
                let r = vec!["chm", "cwk", "doc", "dsc", "dvi", "dwg", "dxf", "emf", "lit", "lnk", "mobi", "one", "pdf", "ps", "txt", "wks", "wmf", "wpd", "xml", "xpt"];
                assert(r@.len() == spec_extensions(self).len());
                r
            },
            FileCategory::Audio => {
                proof {
                    reveal_strlit("aif");
                    reveal_strlit("aiff");
                    reveal_strlit("amr");
                    reveal_strlit("ape");
                    reveal_strlit("au");
                    reveal_strlit("caf");
                    reveal_strlit("flac");
                    reveal_strlit("gsm");
                    reveal_strlit("itu");
                    reveal_strlit("mid");
                    reveal_strlit("mp3");
                    reveal_strlit("mus");
                    reveal_strlit("ogg");
                    reveal_strlit("paf");
                    reveal_strlit("ra");
                    reveal_strlit("shn");
                    reveal_strlit("spe");
                    reveal_strlit("sp3");
                    reveal_strlit("wav");
                    reveal_strlit("wv");
                }
                let r = vec!["aif", "aiff", "amr", "ape", "au", "caf", "flac", "gsm", "itu", "mid", "mp3", "mus", "ogg", "paf", "ra", "shn", "spe", "sp3", "wav", "wv"];
                assert(r@.len() == spec_extensions(self).len());
                r
            },
            FileCategory::Archive => {
                proof {
                    reveal_strlit("7z");
                    reveal_strlit("ace");
                    reveal_strlit("arj");
                    reveal_strlit("bz2");
                    reveal_strlit("cab");
                    reveal_strlit("dar");
                    reveal_strlit("ddf");
                    reveal_strlit("gz");
                    reveal_strlit("lz");
                    reveal_strlit("lzh");
                    reveal_strlit("lzo");
                    reveal_strlit("lso");
                    reveal_strlit("pa");
                    reveal_strlit("par2");
                    reveal_strlit("rar");
                    reveal_strlit("sit");
                    reveal_strlit("tar");
                    reveal_strlit("tg");
                    reveal_strlit("tz");
                    reveal_strlit("xz");
                    reveal_strlit("zip");
                    reveal_strlit("zpr");
                }
                let r = vec!["7z", "ace", "arj", "bz2", "cab", "dar", "ddf", "gz", "lz", "lzh", "lzo", "lso", "pa", "par2", "rar", "sit", "tar", "tg", "tz", "xz", "zip", "zpr"];
                assert(r@.len() == spec_extensions(self).len());
                r
            },
            FileCategory::Other => Vec::new(),
        }
    }

    /// Classify a file extension (e.g. "jpg", ".Jpg") into a category.
    /// Unrecognized extensions always fall back to `Other`.
    pub fn classify(ext: &str) -> (r: FileCategory)
        ensures
            r == spec_classify(ext@),
    {
        let cs = chars_of(ext);
        let (lo, hi) = trim_bounds(&cs);
        let ghost trimmed = cs@.subrange(lo as int, hi as int);
        let mut m: usize = lo;
        while m < hi && cs[m] == '.'
            invariant
                lo <= m <= hi <= cs@.len(),
                trimmed == cs@.subrange(lo as int, hi as int),
                skip_lead_dots(trimmed) == skip_lead_dots(cs@.subrange(m as int, hi as int)),
            decreases hi - m,
        {
            assert(cs@.subrange(m as int, hi as int).drop_first() =~= cs@.subrange(m + 1, hi as int));
            m += 1;
        }
        let mut e: Vec<char> = Vec::new();
        let mut k: usize = m;
        while k < hi
            invariant
                m <= k <= hi <= cs@.len(),
                e@ == cs@.subrange(m as int, k as int).map_values(|c: char| lower_char(c)),
            decreases hi - k,
        {
            e.push(lower_char_exec(cs[k]));
            assert(e@ =~= cs@.subrange(m as int, k + 1).map_values(|c: char| lower_char(c)));
            k += 1;
        }
        assert(e@ == normalize_ext(ext@));
        let cats = all_categories_vec();
        let mut i: usize = 0;
        while i < 5
            invariant
                i <= 5,
                cats@ == all_categories(),
                e@ == normalize_ext(ext@),
                forall|j: int| 0 <= j < i ==> !spec_extensions(#[trigger] all_categories()[j]).contains(e@),
            decreases 5 - i,
        {
            let cat = cats[i];
            let exts = cat.extensions();
            let list = str_chars_vec(&exts);
            assert(list@.map_values(|x: Vec<char>| x@) =~= spec_extensions(cat));
            if list_contains(&list, &e) {
                return cat;
            }
            i += 1;
        }
        assert(!spec_extensions(all_categories()[0]).contains(e@));
        assert(!spec_extensions(all_categories()[1]).contains(e@));
        assert(!spec_extensions(all_categories()[2]).contains(e@));
        assert(!spec_extensions(all_categories()[3]).contains(e@));
        assert(!spec_extensions(all_categories()[4]).contains(e@));
        FileCategory::Other
    }
}

/// Bitmask of selected categories. Defaults to every category enabled.
#[derive(Debug, Clone, Copy, PartialEq, Eq, Structural)]
pub struct CategoryMask {
    pub photo: bool,
    pub video: bool,
    pub document: bool,
    pub audio: bool,
    pub archive: bool,
    pub other: bool,
}

impl CategoryMask {
    /// Whether the mask selects `c`.
    pub open spec fn spec_includes(self, c: FileCategory) -> bool {
        match c {
            FileCategory::Photo => self.photo,
            FileCategory::Video => self.video,
            FileCategory::Document => self.document,
            FileCategory::Audio => self.audio,
            FileCategory::Archive => self.archive,
            FileCategory::Other => self.other,
        }
    }

    /// Every category selected.
    pub fn all() -> (r: Self)
        ensures
            r == (CategoryMask { photo: true, video: true, document: true, audio: true, archive: true, other: true }),
    {
        CategoryMask { photo: true, video: true, document: true, audio: true, archive: true, other: true }
    }

    /// Whether every category is selected.
    pub fn is_all(self) -> (r: bool)
        ensures
            r == (forall|c: FileCategory| #[trigger] self.spec_includes(c)),
    {
        let r = self.photo && self.video && self.document && self.audio && self.archive && self.other;
        if !self.photo {
            assert(!self.spec_includes(FileCategory::Photo));
        } else if !self.video {
            assert(!self.spec_includes(FileCategory::Video));
        } else if !self.document {
            assert(!self.spec_includes(FileCategory::Document));
        } else if !self.audio {
            assert(!self.spec_includes(FileCategory::Audio));
        } else if !self.archive {
            assert(!self.spec_includes(FileCategory::Archive));
        } else if !self.other {
            assert(!self.spec_includes(FileCategory::Other));
        }
        if r {
            assert forall|c: FileCategory| #[trigger] self.spec_includes(c) by {
                match c {
                    FileCategory::Photo => {},
                    FileCategory::Video => {},
                    FileCategory::Document => {},
                    FileCategory::Audio => {},
                    FileCategory::Archive => {},
                    FileCategory::Other => {},
                }
            }
        }
        r
    }

    /// The mask with `category` selected or not, as its check box is ticked
    /// or cleared; the other categories keep their state.
    pub fn with_category(self, category: FileCategory, on: bool) -> (r: Self)
        ensures
            r.spec_includes(category) == on,
            forall|c: FileCategory| c != category ==> #[trigger] r.spec_includes(c) == self.spec_includes(c),
    {
        match category {
            FileCategory::Photo => CategoryMask { photo: on, ..self },
            FileCategory::Video => CategoryMask { video: on, ..self },
            FileCategory::Document => CategoryMask { document: on, ..self },
            FileCategory::Audio => CategoryMask { audio: on, ..self },
            FileCategory::Archive => CategoryMask { archive: on, ..self },
            FileCategory::Other => CategoryMask { other: on, ..self },
        }
    }

    /// Whether the mask selects `category`.
    pub fn includes(self, category: FileCategory) -> (r: bool)
        ensures
            r == self.spec_includes(category),
    {
        match category {
            FileCategory::Photo => self.photo,
            FileCategory::Video => self.video,
            FileCategory::Document => self.document,
            FileCategory::Audio => self.audio,
            FileCategory::Archive => self.archive,
            FileCategory::Other => self.other,
        }
    }
}

impl Default for CategoryMask {
    fn default() -> (r: Self)
        ensures
            r == CategoryMask::all_spec(),
    {
        Self::all()
    }
}

impl CategoryMask {
    /// The mask with every category selected.
    pub open spec fn all_spec() -> Self {
        CategoryMask { photo: true, video: true, document: true, audio: true, archive: true, other: true }
    }
}

/// The mask with every category selected selects each of them.
pub proof fn lemma_all_includes_everything(c: FileCategory)
    ensures
        CategoryMask::all_spec().spec_includes(c),
{
}

} // verus!
