use recognition::commands::{frame_args, ocr_args, ocr_text};
use recognition::digest::{deterministic_val_split, digest_hex, sample_id, val_split_by_digest};
use recognition::names::{
    file_extension, file_stem, frame_file_name, is_supported_video, is_template_image,
    is_usable_template_size, label_file_name, should_skip_file, sidecar_name,
};
use recognition::paths::ensure_parent_dir;
use recognition::preview::{clean_ocr_field, trim_preview, trim_tail};

#[test]
fn skip_marked_files() {
    assert!(should_skip_file("[completed]match.mp4"));
    assert!(should_skip_file("[completed]"));
    assert!(!should_skip_file("match.mp4"));
    assert!(!should_skip_file("[Completed]match.mp4"));
    assert!(!should_skip_file(" [completed]match.mp4"));
}

#[test]
fn sidecar_names() {
    assert_eq!(sidecar_name("a.mp4"), "[completed]a.mp4.recognition.json");
}

#[test]
fn extensions_and_stems() {
    assert_eq!(file_extension("a.MP4").as_deref(), Some("MP4"));
    assert_eq!(file_extension("a.b.webm").as_deref(), Some("webm"));
    assert_eq!(file_extension("noext"), None);
    assert_eq!(file_extension(".hidden"), None);
    assert_eq!(file_extension(".."), None);
    assert_eq!(file_extension("a."), Some(String::new()));
    assert_eq!(file_stem("a.b.png"), "a.b");
    assert_eq!(file_stem(".hidden"), ".hidden");
    assert_eq!(file_stem("plain"), "plain");
    assert_eq!(label_file_name("clip_30.png"), "clip_30.txt");
    assert_eq!(label_file_name("noext"), "noext.txt");
    assert_eq!(frame_file_name("clip", 30), "clip_30.png");
    assert_eq!(frame_file_name("clip", 0), "clip_0.png");
}

#[test]
fn extensions_match_std_path() {
    for name in ["a.MP4", "a.b.webm", "noext", ".hidden", "..", "a.", "x.y.z", "中文.mkv"] {
        let p = std::path::Path::new(name);
        assert_eq!(file_extension(name).as_deref(), p.extension().and_then(|e| e.to_str()));
        if let Some(stem) = p.file_stem().and_then(|e| e.to_str()) {
            assert_eq!(file_stem(name).as_str(), stem);
        }
    }
}

#[test]
fn supported_videos_and_images() {
    for v in ["a.mp4", "b.MKV", "c.flv", "d.Mov", "e.avi", "f.webm"] {
        assert!(is_supported_video(v));
    }
    assert!(!is_supported_video("a.mp3"));
    assert!(!is_supported_video("mp4"));
    assert!(!is_supported_video(".mp4"));
    for i in ["a.png", "b.JPG", "c.jpeg", "d.bmp", "e.WebP"] {
        assert!(is_template_image(i));
    }
    assert!(!is_template_image("a.gif"));
    assert!(is_usable_template_size(8, 8));
    assert!(!is_usable_template_size(7, 100));
    assert!(!is_usable_template_size(100, 7));
}

#[test]
fn preview_keeps_six_nonempty_trimmed_lines() {
    let text = "  first  \r\n\n second\n\t\nthird\nfourth\nfifth\nsixth\nseventh\n";
    assert_eq!(trim_preview(text), "first\nsecond\nthird\nfourth\nfifth\nsixth");
    assert_eq!(trim_preview(""), "");
    assert_eq!(trim_preview("\n \n"), "");
}

#[test]
fn preview_matches_lines_based_rule() {
    let texts = ["a\r\nb\r\n", "  x  \n\n\ny", "one", "\u{3000}全角\u{3000}\nz"];
    for t in texts {
        let compact = t
            .lines()
            .map(str::trim)
            .filter(|l| !l.is_empty())
            .take(6)
            .collect::<Vec<_>>()
            .join("\n");
        assert_eq!(trim_preview(t), compact);
    }
}

#[test]
fn preview_is_cut_to_240_characters() {
    let line = "字".repeat(300);
    let p = trim_preview(&line);
    assert_eq!(p.chars().count(), 240);
    assert!(p.chars().all(|c| c == '字'));
}

#[test]
fn trim_tail_keeps_the_end() {
    assert_eq!(trim_tail("abcdef", 3), "def");
    assert_eq!(trim_tail("abc", 3), "abc");
    assert_eq!(trim_tail("abc", 10), "abc");
    assert_eq!(trim_tail("abc", 0), "");
    assert_eq!(trim_tail("日本語テキスト", 2), "スト");
}

#[test]
fn ocr_fields_are_collapsed() {
    assert_eq!(clean_ocr_field("  12 :\t34 \n"), "12 : 34");
    assert_eq!(clean_ocr_field("   "), "");
    assert_eq!(clean_ocr_field("player\u{3000}名"), "player 名");
    assert_eq!(ocr_text("  text\n"), "text");
}

#[test]
fn command_lines() {
    assert_eq!(
        frame_args(42, "/v/a.mp4", "/tmp/f.png"),
        vec![
            "-hide_banner", "-loglevel", "error", "-ss", "42", "-i", "/v/a.mp4", "-frames:v", "1",
            "-vf", "scale=960:-1", "-y", "/tmp/f.png"
        ]
    );
    assert_eq!(ocr_args(6, "chi_sim+eng", None), vec!["stdout", "-l", "chi_sim+eng", "--psm", "6"]);
    assert_eq!(
        ocr_args(7, "eng", Some("0123456789:")),
        vec!["stdout", "-l", "eng", "--psm", "7", "-c", "tessedit_char_whitelist=0123456789:"]
    );
}

#[test]
fn sample_ids_are_md5_hex() {
    assert_eq!(sample_id("video.mp4", 12), "6cfc7bc5516cc854cafb834ad19848a0");
    assert_eq!(sample_id("C:/录像/a.mp4", 0), "d004fa9a388ec8606e0f680260c18ee9");
    assert_eq!(sample_id("video.mp4", 12), sample_id("video.mp4", 12));
    assert_ne!(sample_id("video.mp4", 12), sample_id("video.mp4", 13));
}

#[test]
fn digest_rendering_and_split() {
    let mut d = [0u8; 16];
    d[0] = 0xab;
    d[15] = 0x01;
    assert_eq!(digest_hex(d), "ab000000000000000000000000000001");
    assert!(val_split_by_digest([20u8; 16]));
    assert!(!val_split_by_digest([21u8; 16]));
    // md5("d") starts with 130, md5("a") with 12.
    assert!(deterministic_val_split("d"));
    assert!(!deterministic_val_split("a"));
}

#[test]
fn parent_directories() {
    assert_eq!(ensure_parent_dir("out/staging/labels.json").as_deref(), Some("out/staging"));
    assert_eq!(ensure_parent_dir("labels.json").as_deref(), Some(""));
    assert_eq!(ensure_parent_dir("staging/labels.json").as_deref(), Some("staging"));
    assert_eq!(ensure_parent_dir("/out/staging/samples.json").as_deref(), Some("/out/staging"));
    assert_eq!(ensure_parent_dir("..").as_deref(), Some(""));
    assert_eq!(ensure_parent_dir("/"), None);
    assert_eq!(ensure_parent_dir(""), None);
}
