//! The command lines of the external tools: ffmpeg for frames and tesseract
//! for text.
use vstd::prelude::*;
use crate::format::{decimal, push_decimal};
use crate::text::{append_chars, chars_of, string_from_chars, trim_chars, trim_seq};
use crate::training::views_of;

verus! {

fn number_arg(n: u64) -> (r: String)
    ensures
        r@ == decimal(n as nat),
{
    let mut v: Vec<char> = Vec::new();
    push_decimal(&mut v, n);
    assert(v@ =~= decimal(n as nat));
    string_from_chars(&v)
}

/// The ffmpeg arguments that write the frame at `second` of `video`, scaled
/// to 960 pixels wide, to `output_png`.
pub open spec fn frame_args_spec(second: u64, video: Seq<char>, output_png: Seq<char>) -> Seq<Seq<char>> {
    seq![
        "-hide_banner"@,
        "-loglevel"@,
        "error"@,
        "-ss"@,
        decimal(second as nat),
        "-i"@,
        video,
        "-frames:v"@,
        "1"@,
        "-vf"@,
        "scale=960:-1"@,
        "-y"@,
        output_png,
    ]
}

pub fn frame_args(second: u64, video: &str, output_png: &str) -> (r: Vec<String>)
    ensures
        views_of(r@) == frame_args_spec(second, video@, output_png@),
{
    let mut r: Vec<String> = Vec::new();
    r.push("-hide_banner".to_owned());
    r.push("-loglevel".to_owned());
    r.push("error".to_owned());
    r.push("-ss".to_owned());
    r.push(number_arg(second));
    r.push("-i".to_owned());
    r.push(video.to_owned());
    r.push("-frames:v".to_owned());
    r.push("1".to_owned());
    r.push("-vf".to_owned());
    r.push("scale=960:-1".to_owned());
    r.push("-y".to_owned());
    r.push(output_png.to_owned());
    assert(views_of(r@) =~= frame_args_spec(second, video@, output_png@));
    r
}

/// The tesseract arguments after the image path: text to stdout, in the
/// given languages and page segmentation mode, restricted to a character
/// whitelist when one is given.
pub open spec fn ocr_args_spec(psm: u8, lang: Seq<char>, whitelist: Option<Seq<char>>) -> Seq<Seq<char>> {
    let base = seq!["stdout"@, "-l"@, lang, "--psm"@, decimal(psm as nat)];
    match whitelist {
        Some(w) => base + seq!["-c"@, "tessedit_char_whitelist="@ + w],
        None => base,
    }
}

pub fn ocr_args(psm: u8, lang: &str, whitelist: Option<&str>) -> (r: Vec<String>)
    ensures
        views_of(r@) == ocr_args_spec(psm, lang@, match whitelist {
            Some(w) => Some(w@),
            None => None,
        }),
{
    let mut r: Vec<String> = Vec::new();
    r.push("stdout".to_owned());
    r.push("-l".to_owned());
    r.push(lang.to_owned());
    r.push("--psm".to_owned());
    r.push(number_arg(psm as u64));
    match whitelist {
        Some(w) => {
            r.push("-c".to_owned());
            let mut v = chars_of("tessedit_char_whitelist=");
            append_chars(&mut v, &chars_of(w));
            r.push(string_from_chars(&v));
        },
        None => {},
    }
    assert(views_of(r@) =~= ocr_args_spec(psm, lang@, match whitelist {
        Some(w) => Some(w@),
        None => None,
    }));
    r
}

/// The recognised text of a tool's output: trimmed.
pub fn ocr_text(raw: &str) -> (r: String)
    ensures
        r@ == trim_seq(raw@),
{
    string_from_chars(&trim_chars(&chars_of(raw)))
}

} // verus!
