//! File names: the marker of processed videos, the sidecar result file,
//! extensions and stems as `std::path::Path` reads them, and the file types
//! that recognition accepts.
use vstd::prelude::*;
use crate::format::{decimal, push_decimal};
use crate::text::{
    append_chars, chars_eq_str, chars_of, chars_range, chars_start_with, lower_chars, lower_seq,
    string_from_chars,
};

verus! {

/// The prefix that marks a video file as already handled.
pub open spec fn completed_prefix() -> Seq<char> {
    "[completed]"@
}

/// Whether a video file name carries the processed marker.
pub fn should_skip_file(name: &str) -> (r: bool)
    ensures
        r == (completed_prefix().len() <= name@.len() && name@.take(
            completed_prefix().len() as int,
        ) == completed_prefix()),
{
    let n = chars_of(name);
    let p = chars_of("[completed]");
    chars_start_with(&n, &p)
}

/// The name of the recognition result written beside a video:
/// `[completed]<file name>.recognition.json`.
pub open spec fn sidecar_name_spec(file_name: Seq<char>) -> Seq<char> {
    completed_prefix() + file_name + ".recognition.json"@
}

pub fn sidecar_name(file_name: &str) -> (r: String)
    ensures
        r@ == sidecar_name_spec(file_name@),
{
    let mut v = chars_of("[completed]");
    append_chars(&mut v, &chars_of(file_name));
    append_chars(&mut v, &chars_of(".recognition.json"));
    string_from_chars(&v)
}

/// The index of the last `c` in `s`, or -1.
pub open spec fn last_index_of(s: Seq<char>, c: char) -> int
    decreases s.len(),
{
    if s.len() == 0 {
        -1
    } else if s.last() == c {
        s.len() - 1
    } else {
        last_index_of(s.drop_last(), c)
    }
}

pub proof fn lemma_last_index_of(s: Seq<char>, c: char)
    ensures
        -1 <= last_index_of(s, c) < s.len(),
        last_index_of(s, c) >= 0 ==> s[last_index_of(s, c)] == c,
        forall|j: int| last_index_of(s, c) < j < s.len() ==> s[j] != c,
    decreases s.len(),
{
    if s.len() > 0 && s.last() != c {
        lemma_last_index_of(s.drop_last(), c);
        assert forall|j: int| last_index_of(s, c) < j < s.len() implies s[j] != c by {
            if j < s.len() - 1 {
                assert(s[j] == s.drop_last()[j]);
            }
        }
    }
}

/// Whether a file name has an extension: a `'.'` after its first character,
/// and it is not `".."`.
pub open spec fn has_extension(name: Seq<char>) -> bool {
    last_index_of(name, '.') > 0 && name != ".."@
}

/// `Path::extension` of a file name: what follows its last `'.'`.
pub open spec fn extension_spec(name: Seq<char>) -> Option<Seq<char>> {
    if has_extension(name) {
        Some(name.skip(last_index_of(name, '.') + 1))
    } else {
        None
    }
}

/// `Path::file_stem` of a file name: what precedes its last `'.'`, or the
/// whole name where it has no extension.
pub open spec fn stem_spec(name: Seq<char>) -> Seq<char> {
    if has_extension(name) {
        name.take(last_index_of(name, '.'))
    } else {
        name
    }
}

/// The index of the last `'.'` of `v`, if any.
fn find_last_dot(v: &Vec<char>) -> (r: Option<usize>)
    ensures
        match r {
            Some(k) => k as int == last_index_of(v@, '.'),
            None => last_index_of(v@, '.') == -1,
        },
{
    let mut i = v.len();
    assert(v@.take(i as int) =~= v@);
    while i > 0
        invariant
            i <= v@.len(),
            last_index_of(v@, '.') == last_index_of(v@.take(i as int), '.'),
        decreases i,
    {
        assert(v@.take(i as int).drop_last() =~= v@.take(i - 1));
        if v[i - 1] == '.' {
            return Some(i - 1);
        }
        i = i - 1;
    }
    None
}

fn has_extension_exec(v: &Vec<char>) -> (r: Option<usize>)
    ensures
        match r {
            Some(k) => has_extension(v@) && k as int == last_index_of(v@, '.'),
            None => !has_extension(v@),
        },
{
    match find_last_dot(v) {
        Some(k) => {
            if k > 0 && !chars_eq_str(v, "..") {
                Some(k)
            } else {
                None
            }
        },
        None => None,
    }
}

/// The extension of a file name, as `Path::extension` reads it.
pub fn file_extension(file_name: &str) -> (r: Option<String>)
    ensures
        r matches Some(e) ==> extension_spec(file_name@) == Some(e@),
        r is None ==> extension_spec(file_name@) is None,
{
    let v = chars_of(file_name);
    match has_extension_exec(&v) {
        Some(k) => {
            proof { lemma_last_index_of(v@, '.'); }
            let e = chars_range(&v, k + 1, v.len());
            assert(e@ =~= v@.skip(k + 1));
            Some(string_from_chars(&e))
        },
        None => None,
    }
}

/// The stem of a file name, as `Path::file_stem` reads it.
pub fn file_stem(file_name: &str) -> (r: String)
    ensures
        r@ == stem_spec(file_name@),
{
    let v = chars_of(file_name);
    match has_extension_exec(&v) {
        Some(k) => {
            proof { lemma_last_index_of(v@, '.'); }
            let e = chars_range(&v, 0, k);
            assert(e@ =~= v@.take(k as int));
            string_from_chars(&e)
        },
        None => file_name.to_owned(),
    }
}

/// A file name with an extension is its stem, a dot and its extension; a
/// name without one is its own stem.
pub proof fn lemma_stem_and_extension(name: Seq<char>)
    ensures
        extension_spec(name) matches Some(e) ==> stem_spec(name) + seq!['.'] + e == name,
        extension_spec(name) is None ==> stem_spec(name) == name,
{
    lemma_last_index_of(name, '.');
    if has_extension(name) {
        let k = last_index_of(name, '.');
        assert(name.take(k) + seq!['.'] + name.skip(k + 1) =~= name);
    }
}

/// The extensions, lowercased, of the videos that recognition reads.
pub open spec fn video_extensions() -> Seq<Seq<char>> {
    seq!["mp4"@, "mkv"@, "flv"@, "mov"@, "avi"@, "webm"@]
}

/// The extensions, lowercased, of the template images.
pub open spec fn image_extensions() -> Seq<Seq<char>> {
    seq!["png"@, "jpg"@, "jpeg"@, "bmp"@, "webp"@]
}

/// Whether the file's extension, ASCII-lowercased, is one of `exts`.
pub open spec fn has_extension_in(name: Seq<char>, exts: Seq<Seq<char>>) -> bool {
    match extension_spec(name) {
        Some(e) => exts.contains(lower_seq(e)),
        None => false,
    }
}

/// Whether a file is a video that recognition reads.
pub fn is_supported_video(file_name: &str) -> (r: bool)
    ensures
        r == has_extension_in(file_name@, video_extensions()),
{
    match file_extension(file_name) {
        Some(e) => {
            let l = lower_chars(&chars_of(e.as_str()));
            let r = chars_eq_str(&l, "mp4") || chars_eq_str(&l, "mkv") || chars_eq_str(&l, "flv")
                || chars_eq_str(&l, "mov") || chars_eq_str(&l, "avi") || chars_eq_str(
                &l,
                "webm",
            );
            proof {
                let x = l@;
                let s = video_extensions();
                if x == "mp4"@ { assert(s[0] == x); }
                if x == "mkv"@ { assert(s[1] == x); }
                if x == "flv"@ { assert(s[2] == x); }
                if x == "mov"@ { assert(s[3] == x); }
                if x == "avi"@ { assert(s[4] == x); }
                if x == "webm"@ { assert(s[5] == x); }
            }
            r
        },
        None => false,
    }
}

/// Whether a file in a template directory is an image to load.
pub fn is_template_image(file_name: &str) -> (r: bool)
    ensures
        r == has_extension_in(file_name@, image_extensions()),
{
    match file_extension(file_name) {
        Some(e) => {
            let l = lower_chars(&chars_of(e.as_str()));
            let r = chars_eq_str(&l, "png") || chars_eq_str(&l, "jpg") || chars_eq_str(&l, "jpeg")
                || chars_eq_str(&l, "bmp") || chars_eq_str(&l, "webp");
            proof {
                let x = l@;
                let s = image_extensions();
                if x == "png"@ { assert(s[0] == x); }
                if x == "jpg"@ { assert(s[1] == x); }
                if x == "jpeg"@ { assert(s[2] == x); }
                if x == "bmp"@ { assert(s[3] == x); }
                if x == "webp"@ { assert(s[4] == x); }
            }
            r
        },
        None => false,
    }
}

/// Whether a template image is large enough to compare: at least 8 pixels
/// each way after normalisation.
pub fn is_usable_template_size(width: u32, height: u32) -> (r: bool)
    ensures
        r == (width >= 8 && height >= 8),
{
    !(width < 8 || height < 8)
}

/// The name of the frame image of a video at a second: `<stem>_<sec>.png`.
pub open spec fn frame_file_name_spec(stem: Seq<char>, sec: u64) -> Seq<char> {
    stem + "_"@ + decimal(sec as nat) + ".png"@
}

pub fn frame_file_name(stem: &str, sec: u64) -> (r: String)
    ensures
        r@ == frame_file_name_spec(stem@, sec),
{
    let mut v = chars_of(stem);
    append_chars(&mut v, &chars_of("_"));
    push_decimal(&mut v, sec);
    append_chars(&mut v, &chars_of(".png"));
    string_from_chars(&v)
}

/// The YOLO label file that goes with an image: `<image stem>.txt`.
pub open spec fn label_file_name_spec(image_file_name: Seq<char>) -> Seq<char> {
    stem_spec(image_file_name) + ".txt"@
}

pub fn label_file_name(image_file_name: &str) -> (r: String)
    ensures
        r@ == label_file_name_spec(image_file_name@),
{
    let mut v = chars_of(file_stem(image_file_name).as_str());
    append_chars(&mut v, &chars_of(".txt"));
    string_from_chars(&v)
}

} // verus!
