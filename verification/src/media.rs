//! Classification of a path into the kind of media the viewer can show.
use vstd::prelude::*;

verus! {

/// What a path names, as far as the viewer is concerned.
#[derive(Debug, Clone, Copy, PartialEq, Eq, Structural)]
pub enum MediaType {
    Image,
    Video,
    Unknown,
    Folder,
}

/// The Unicode lowercase form of a string, as `str::to_lowercase` computes it.
pub uninterp spec fn lowercase(s: Seq<char>) -> Seq<char>;

/// `c` with the letters `A` to `Z` turned into `a` to `z`.
pub open spec fn ascii_lower_char(c: char) -> char {
    if 65 <= (c as u32) <= 90 {
        ((c as u32) + 32) as char
    } else {
        c
    }
}

/// `s` with its ASCII capital letters turned into small ones.
pub open spec fn ascii_lower(s: Seq<char>) -> Seq<char> {
    s.map_values(|c: char| ascii_lower_char(c))
}

/// `s` is made of ASCII characters only.
pub open spec fn all_ascii(s: Seq<char>) -> bool {
    forall|i: int| 0 <= i < s.len() ==> crate::text::is_ascii_char(#[trigger] s[i])
}

/// Calls `str::to_lowercase`. Its result is the Unicode lowercase mapping of
/// `s`, which is named here (`lowercase`) rather than written out: the contract
/// claims that the result depends on the characters of `s` alone, and that on
/// ASCII text it turns `A` to `Z` into `a` to `z` and keeps every other
/// character. What it does to other characters is left unsaid.
#[verifier::external_body]
fn to_lowercase(s: &str) -> (res: String)
    ensures
        res@ == lowercase(s@),
        all_ascii(s@) ==> res@ == ascii_lower(s@),
{
    s.to_lowercase()
}

/// `s` ends with `suffix`.
pub open spec fn has_suffix(s: Seq<char>, suffix: Seq<char>) -> bool {
    suffix.len() <= s.len() && s.subrange(s.len() - suffix.len(), s.len() as int) == suffix
}

/// File name endings of the video formats, in lower case.
pub open spec fn video_formats() -> Seq<Seq<char>> {
    seq![
        ".mp4"@, ".gif"@, ".mkv"@, ".mov"@, ".webm"@, ".avi"@,
        ".wmv"@, ".f4v"@, ".flv"@, ".m4v"@, ".3gp"@,
    ]
}

/// File name endings of the image formats, in lower case.
pub open spec fn image_formats() -> Seq<Seq<char>> {
    seq![
        ".png"@, ".jpg"@, ".jpeg"@, ".webp"@, ".tiff"@, ".ppm"@,
        ".pbm"@, ".pgm"@, ".bmp"@, ".ico"@, ".qoi"@, ".farbfeld"@, ".avif"@,
    ]
}

/// `name` ends with one of `formats`.
pub open spec fn has_any_suffix(name: Seq<char>, formats: Seq<Seq<char>>) -> bool {
    exists|i: int| 0 <= i < formats.len() && has_suffix(name, #[trigger] formats[i])
}

/// The media type of a path whose name, already in lower case, is `name_lc`:
/// a directory is a folder; otherwise an image ending wins over a video ending.
pub open spec fn media_type_spec(name_lc: Seq<char>, is_dir: bool) -> MediaType {
    if is_dir {
        MediaType::Folder
    } else if has_any_suffix(name_lc, image_formats()) {
        MediaType::Image
    } else if has_any_suffix(name_lc, video_formats()) {
        MediaType::Video
    } else {
        MediaType::Unknown
    }
}

/// Whether `s` ends with `suffix`.
pub fn ends_with(s: &Vec<char>, suffix: &str) -> (res: bool)
    ensures
        res == has_suffix(s@, suffix@),
{
    let suf = crate::text::chars_of(suffix);
    let n = s.len();
    let m = suf.len();
    if m > n {
        return false;
    }
    let start = n - m;
    let mut i: usize = 0;
    while i < m
        invariant
            n == s@.len(),
            m == suf@.len(),
            suf@ == suffix@,
            start == n - m,
            i <= m,
            forall|j: int| 0 <= j < i ==> s@[start + j] == suf@[j],
        decreases m - i,
    {
        if s[start + i] != suf[i] {
            assert(s@.subrange(start as int, n as int)[i as int] != suf@[i as int]);
            assert(s@.subrange(start as int, n as int) != suf@);
            return false;
        }
        i = i + 1;
    }
    assert(s@.subrange(start as int, n as int) =~= suf@);
    true
}

/// Whether `name` ends with one of `formats`.
fn ends_with_any(name: &Vec<char>, formats: &[&str]) -> (res: bool)
    ensures
        res == has_any_suffix(name@, formats@.map_values(|f: &str| f@)),
{
    let ghost fs = formats@.map_values(|f: &str| f@);
    let mut i: usize = 0;
    while i < formats.len()
        invariant
            i <= formats@.len(),
            fs == formats@.map_values(|f: &str| f@),
            forall|j: int| 0 <= j < i ==> !has_suffix(name@, #[trigger] fs[j]),
        decreases formats@.len() - i,
    {
        if ends_with(name, formats[i]) {
            assert(has_suffix(name@, fs[i as int]));
            return true;
        }
        i = i + 1;
    }
    false
}

/// The media type of a path from its lower-case name and whether it is a
/// directory.
pub fn media_type_of_lowercase(name_lc: &str, is_dir: bool) -> (res: MediaType)
    ensures
        res == media_type_spec(name_lc@, is_dir),
{
    if is_dir {
        return MediaType::Folder;
    }
    let video: [&str; 11] = [
        ".mp4", ".gif", ".mkv", ".mov", ".webm", ".avi",
        ".wmv", ".f4v", ".flv", ".m4v", ".3gp",
    ];
    let image: [&str; 13] = [
        ".png", ".jpg", ".jpeg", ".webp", ".tiff", ".ppm",
        ".pbm", ".pgm", ".bmp", ".ico", ".qoi", ".farbfeld", ".avif",
    ];
    assert(image@.map_values(|f: &str| f@) =~= image_formats());
    assert(video@.map_values(|f: &str| f@) =~= video_formats());
    let name = crate::text::chars_of(name_lc);
    if ends_with_any(&name, image.as_slice()) {
        return MediaType::Image;
    }
    if ends_with_any(&name, video.as_slice()) {
        return MediaType::Video;
    }
    MediaType::Unknown
}

/// The media type of the path `name`; `is_dir` tells whether the path is a
/// directory. Endings are compared without regard to case.
pub fn get_type(name: &str, is_dir: bool) -> (res: MediaType)
    ensures
        res == media_type_spec(lowercase(name@), is_dir),
        all_ascii(name@) ==> res == media_type_spec(ascii_lower(name@), is_dir),
{
    let name_lc = to_lowercase(name);
    media_type_of_lowercase(name_lc.as_str(), is_dir)
}

/// The picture endings: `.png`, `.jpg`, `.jpeg`, `.webp`, `.tiff`, `.ppm`,
/// `.pbm`, `.pgm`, `.bmp`, `.ico`, `.qoi`, `.farbfeld` and `.avif`.
pub open spec fn is_image_ending(e: Seq<char>) -> bool {
    ||| e == ".png"@
    ||| e == ".jpg"@
    ||| e == ".jpeg"@
    ||| e == ".webp"@
    ||| e == ".tiff"@
    ||| e == ".ppm"@
    ||| e == ".pbm"@
    ||| e == ".pgm"@
    ||| e == ".bmp"@
    ||| e == ".ico"@
    ||| e == ".qoi"@
    ||| e == ".farbfeld"@
    ||| e == ".avif"@
}

/// The video endings: `.mp4`, `.gif`, `.mkv`, `.mov`, `.webm`, `.avi`,
/// `.wmv`, `.f4v`, `.flv`, `.m4v` and `.3gp`.
pub open spec fn is_video_ending(e: Seq<char>) -> bool {
    ||| e == ".mp4"@
    ||| e == ".gif"@
    ||| e == ".mkv"@
    ||| e == ".mov"@
    ||| e == ".webm"@
    ||| e == ".avi"@
    ||| e == ".wmv"@
    ||| e == ".f4v"@
    ||| e == ".flv"@
    ||| e == ".m4v"@
    ||| e == ".3gp"@
}

proof fn lemma_format_lists()
    ensures
        forall|i: int| 0 <= i < image_formats().len() ==> is_image_ending(#[trigger] image_formats()[i]),
        forall|i: int| 0 <= i < video_formats().len() ==> is_video_ending(#[trigger] video_formats()[i]),
        image_formats().len() == 13,
        video_formats().len() == 11,
{
}

/// A path that is a directory is a folder, whatever its name.
pub proof fn lemma_directories_are_folders(name_lc: Seq<char>)
    ensures
        media_type_spec(name_lc, true) == MediaType::Folder,
{
}

/// A name (not a directory) whose lower-cased form ends with a picture ending
/// is a picture.
pub proof fn lemma_image_endings_are_images(name_lc: Seq<char>, ending: Seq<char>)
    requires
        is_image_ending(ending),
        has_suffix(name_lc, ending),
    ensures
        media_type_spec(name_lc, false) == MediaType::Image,
{
    let f = image_formats();
    let i: int = if ending == ".png"@ { 0 } else if ending == ".jpg"@ { 1 } else if ending == ".jpeg"@ {
        2
    } else if ending == ".webp"@ { 3 } else if ending == ".tiff"@ { 4 } else if ending == ".ppm"@ {
        5
    } else if ending == ".pbm"@ { 6 } else if ending == ".pgm"@ { 7 } else if ending == ".bmp"@ {
        8
    } else if ending == ".ico"@ { 9 } else if ending == ".qoi"@ { 10 } else if ending == ".farbfeld"@ {
        11
    } else { 12 };
    assert(f[i] == ending);
    assert(has_any_suffix(name_lc, f));
}

/// A name (not a directory) whose lower-cased form ends with a video ending
/// and with no picture ending is a video.
pub proof fn lemma_video_endings_are_videos(name_lc: Seq<char>, ending: Seq<char>)
    requires
        is_video_ending(ending),
        has_suffix(name_lc, ending),
        forall|e: Seq<char>| is_image_ending(e) ==> !has_suffix(name_lc, e),
    ensures
        media_type_spec(name_lc, false) == MediaType::Video,
{
    lemma_format_lists();
    let f = video_formats();
    let i: int = if ending == ".mp4"@ { 0 } else if ending == ".gif"@ { 1 } else if ending == ".mkv"@ {
        2
    } else if ending == ".mov"@ { 3 } else if ending == ".webm"@ { 4 } else if ending == ".avi"@ {
        5
    } else if ending == ".wmv"@ { 6 } else if ending == ".f4v"@ { 7 } else if ending == ".flv"@ {
        8
    } else if ending == ".m4v"@ { 9 } else { 10 };
    assert(f[i] == ending);
    assert(has_any_suffix(name_lc, f));
    assert(!has_any_suffix(name_lc, image_formats()));
}

/// A name (not a directory) whose lower-cased form ends with none of the
/// picture or video endings is unknown.
pub proof fn lemma_other_names_are_unknown(name_lc: Seq<char>)
    requires
        forall|e: Seq<char>| is_image_ending(e) ==> !has_suffix(name_lc, e),
        forall|e: Seq<char>| is_video_ending(e) ==> !has_suffix(name_lc, e),
    ensures
        media_type_spec(name_lc, false) == MediaType::Unknown,
{
    lemma_format_lists();
    assert(!has_any_suffix(name_lc, image_formats()));
    assert(!has_any_suffix(name_lc, video_formats()));
}

} // verus!
