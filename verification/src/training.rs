//! Training and exporting the detector: the options, the command lines
//! handed to Ultralytics, and the summary of a successful run.
use vstd::prelude::*;
use crate::format::{decimal, push_decimal};
use crate::preview::{trim_tail, trim_tail_spec};
use crate::text::{append_chars, chars_of, string_from_chars};

verus! {

/// Training epochs: 30 unless given, kept between 1 and 300.
pub fn resolve_epochs(requested: Option<u32>) -> (r: u32)
    ensures
        r == (match requested {
            Some(v) => if v < 1 { 1 } else if v > 300 { 300 } else { v },
            None => 30,
        }),
{
    match requested {
        Some(v) => if v < 1 { 1 } else if v > 300 { 300 } else { v },
        None => 30,
    }
}

/// Training image size: 640 unless given, kept between 320 and 1280.
pub fn resolve_image_size(requested: Option<u32>) -> (r: u32)
    ensures
        r == (match requested {
            Some(v) => if v < 320 { 320 } else if v > 1280 { 1280 } else { v },
            None => 640,
        }),
{
    match requested {
        Some(v) => if v < 320 { 320 } else if v > 1280 { 1280 } else { v },
        None => 640,
    }
}

/// The Python interpreter: `python` unless given.
pub fn resolve_python(requested: Option<String>) -> (r: String)
    ensures
        r@ == (match requested {
            Some(v) => v@,
            None => "python"@,
        }),
{
    match requested {
        Some(v) => v,
        None => "python".to_owned(),
    }
}

/// The name of the training run under the output directory.
pub open spec fn run_name_spec() -> Seq<char> {
    "recognition_yolo"@
}

pub fn run_name() -> (r: &'static str)
    ensures
        r@ == run_name_spec(),
{
    "recognition_yolo"
}

/// `key=value` with a text value.
fn key_value(key: &str, value: &str) -> (r: String)
    ensures
        r@ == key@ + value@,
{
    let mut v = chars_of(key);
    append_chars(&mut v, &chars_of(value));
    string_from_chars(&v)
}

/// `key=value` with a number.
fn key_number(key: &str, value: u32) -> (r: String)
    ensures
        r@ == key@ + decimal(value as nat),
{
    let mut v = chars_of(key);
    push_decimal(&mut v, value as u64);
    string_from_chars(&v)
}

/// The arguments of `python -m ultralytics yolo detect train ...`.
pub open spec fn train_args_spec(dataset_yaml: Seq<char>, epochs: u32, imgsz: u32, project: Seq<char>) -> Seq<Seq<char>> {
    seq![
        "-m"@,
        "ultralytics"@,
        "yolo"@,
        "detect"@,
        "train"@,
        "data="@ + dataset_yaml,
        "model=yolov8n.pt"@,
        "epochs="@ + decimal(epochs as nat),
        "imgsz="@ + decimal(imgsz as nat),
        "project="@ + project,
        "name="@ + run_name_spec(),
        "exist_ok=True"@,
    ]
}

pub open spec fn views_of(v: Seq<String>) -> Seq<Seq<char>> {
    Seq::new(v.len(), |i: int| v[i]@)
}

pub fn train_args(dataset_yaml: &str, epochs: u32, imgsz: u32, project: &str) -> (r: Vec<String>)
    ensures
        views_of(r@) == train_args_spec(dataset_yaml@, epochs, imgsz, project@),
{
    let mut r: Vec<String> = Vec::new();
    r.push("-m".to_owned());
    r.push("ultralytics".to_owned());
    r.push("yolo".to_owned());
    r.push("detect".to_owned());
    r.push("train".to_owned());
    r.push(key_value("data=", dataset_yaml));
    r.push("model=yolov8n.pt".to_owned());
    r.push(key_number("epochs=", epochs));
    r.push(key_number("imgsz=", imgsz));
    r.push(key_value("project=", project));
    r.push(key_value("name=", run_name()));
    r.push("exist_ok=True".to_owned());
    assert(views_of(r@) =~= train_args_spec(dataset_yaml@, epochs, imgsz, project@));
    r
}

/// The arguments of `python -m ultralytics yolo export ...`.
pub open spec fn export_args_spec(best_pt: Seq<char>, imgsz: u32) -> Seq<Seq<char>> {
    seq![
        "-m"@,
        "ultralytics"@,
        "yolo"@,
        "export"@,
        "model="@ + best_pt,
        "format=onnx"@,
        "imgsz="@ + decimal(imgsz as nat),
    ]
}

pub fn export_args(best_pt: &str, imgsz: u32) -> (r: Vec<String>)
    ensures
        views_of(r@) == export_args_spec(best_pt@, imgsz),
{
    let mut r: Vec<String> = Vec::new();
    r.push("-m".to_owned());
    r.push("ultralytics".to_owned());
    r.push("yolo".to_owned());
    r.push("export".to_owned());
    r.push(key_value("model=", best_pt));
    r.push("format=onnx".to_owned());
    r.push(key_number("imgsz=", imgsz));
    assert(views_of(r@) =~= export_args_spec(best_pt@, imgsz));
    r
}

/// Characters of a command's output kept in an error message.
pub const ERROR_TAIL_CHARS: usize = 2000;

/// Characters of the training output kept in the result.
pub const RESULT_TAIL_CHARS: usize = 1200;

/// The error of a failed command: `<title>:\n<end of stdout>\n<end of
/// stderr>`, each output cut to its last 2000 characters.
pub fn command_failure_message(title: &str, stdout: &str, stderr: &str) -> (r: String)
    ensures
        r@ == title@ + ":\n"@ + trim_tail_spec(stdout@, ERROR_TAIL_CHARS as nat) + "\n"@
            + trim_tail_spec(stderr@, ERROR_TAIL_CHARS as nat),
{
    let mut v = chars_of(title);
    append_chars(&mut v, &chars_of(":\n"));
    append_chars(&mut v, &chars_of(trim_tail(stdout, ERROR_TAIL_CHARS).as_str()));
    append_chars(&mut v, &chars_of("\n"));
    append_chars(&mut v, &chars_of(trim_tail(stderr, ERROR_TAIL_CHARS).as_str()));
    string_from_chars(&v)
}

/// The first candidate that exists: `exists[i]` says whether candidate `i`
/// does.
pub fn first_existing(exists: &Vec<bool>) -> (r: Option<usize>)
    ensures
        match r {
            Some(k) => k < exists@.len() && exists@[k as int] && forall|j: int|
                0 <= j < k ==> !exists@[j],
            None => forall|j: int| 0 <= j < exists@.len() ==> !exists@[j],
        },
{
    let n = exists.len();
    for i in 0..n
        invariant
            n == exists@.len(),
            forall|j: int| 0 <= j < i ==> !exists@[j],
    {
        if exists[i] {
            return Some(i);
        }
    }
    None
}

/// The summary of a training run that replaced the model.
pub struct TrainModelResult {
    pub success: bool,
    pub dataset_dir: String,
    pub run_dir: String,
    pub exported_onnx_path: String,
    pub replaced_model_path: String,
    pub report_file: String,
    pub train_stdout_tail: String,
    pub train_stderr_tail: String,
}

impl TrainModelResult {
    /// The summary of a successful run, with the last 1200 characters of the
    /// training output.
    pub fn succeeded(
        dataset_dir: String,
        run_dir: String,
        exported_onnx_path: String,
        replaced_model_path: String,
        report_file: String,
        train_stdout: &str,
        train_stderr: &str,
    ) -> (r: TrainModelResult)
        ensures
            r.success,
            r.dataset_dir == dataset_dir,
            r.run_dir == run_dir,
            r.exported_onnx_path == exported_onnx_path,
            r.replaced_model_path == replaced_model_path,
            r.report_file == report_file,
            r.train_stdout_tail@ == trim_tail_spec(train_stdout@, RESULT_TAIL_CHARS as nat),
            r.train_stderr_tail@ == trim_tail_spec(train_stderr@, RESULT_TAIL_CHARS as nat),
    {
        TrainModelResult {
            success: true,
            dataset_dir,
            run_dir,
            exported_onnx_path,
            replaced_model_path,
            report_file,
            train_stdout_tail: trim_tail(train_stdout, RESULT_TAIL_CHARS),
            train_stderr_tail: trim_tail(train_stderr, RESULT_TAIL_CHARS),
        }
    }
}

} // verus!
