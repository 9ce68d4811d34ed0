use recognition::detection::{
    bbox_model_mode, classifier_classes, detection_layout, output_dims, phase_model_mode,
    DetectionLayout, ModelLoad, ModelOutputError, NmsKeeper,
};
use recognition::recognition::{
    default_output_dir, find_templates_root, pick_candidate_categories, resolve_frame_interval,
    should_skip_by_json, sidecar_path, video_action, FrameHits, RecognitionProgress, VideoAction,
};
use recognition::sampling::{
    EXACT_SPREAD_LIMIT,
    build_uniform_sample_points, frame_step, next_frame_second, recommended_extract_workers,
    resolve_extract_workers, resolve_max_samples,
};
use recognition::training::{
    command_failure_message, export_args, first_existing, resolve_epochs, resolve_image_size,
    resolve_python, train_args, TrainModelResult,
};

#[test]
fn uniform_points() {
    assert_eq!(build_uniform_sample_points(10, 4), vec![0, 3, 7, 10]);
    assert_eq!(build_uniform_sample_points(5, 100), vec![0, 1, 2, 3, 4, 5]);
    assert_eq!(build_uniform_sample_points(3, 3), vec![0, 2, 3]);
    assert_eq!(build_uniform_sample_points(0, 5), vec![0]);
    assert_eq!(build_uniform_sample_points(9, 1), vec![4]);
    assert_eq!(build_uniform_sample_points(9, 0), Vec::<u64>::new());
}

fn float_points(d: u64, m: usize) -> Vec<u64> {
    if m == 0 {
        return Vec::new();
    }
    if d == 0 {
        return vec![0];
    }
    let target = m.min((d + 1) as usize);
    if target <= 1 {
        return vec![d / 2];
    }
    let mut expect: Vec<u64> = Vec::new();
    for i in 0..target {
        let ratio = i as f64 / (target - 1) as f64;
        let sec = (ratio * d as f64).round() as u64;
        if expect.last().copied() != Some(sec) {
            expect.push(sec);
        }
    }
    expect
}

#[test]
fn uniform_points_match_float_rounding_on_ordinary_videos() {
    for d in [1u64, 7, 39, 59, 600, 1801, 3599] {
        for m in [2usize, 3, 10, 27, 60, 500] {
            assert_eq!(build_uniform_sample_points(d, m), float_points(d, m), "d={d} m={m}");
        }
    }
}

#[test]
fn uniform_points_of_long_videos_still_increase_and_end_at_the_last_second() {
    for d in [EXACT_SPREAD_LIMIT - 1, 999_999_999_999, 86_399] {
        for m in [2usize, 60, 500] {
            let p = build_uniform_sample_points(d, m);
            assert_eq!(p[0], 0);
            assert_eq!(*p.last().unwrap(), d);
            assert!(p.windows(2).all(|w| w[0] < w[1]));
            assert_eq!(p, float_points(d, m));
        }
    }
}

#[test]
fn uniform_points_round_as_f64_does_at_a_half() {
    // 15 / 26 * 39 is 22.5 exactly, but 22.499999999999996 in f64
    let points = build_uniform_sample_points(39, 27);
    assert_eq!(points[15], 22);
    assert_eq!(points, float_points(39, 27));
}

#[test]
fn uniform_points_match_float_rounding_everywhere() {
    for d in 1u64..400 {
        for m in [2usize, 5, 13, 27, 41, 64, 99, 128, 257, 500] {
            assert_eq!(build_uniform_sample_points(d, m), float_points(d, m), "d={d} m={m}");
        }
    }
    let big = [
        (1u64 << 53) - 1,
        1 << 53,
        (1 << 53) + 1,
        (1 << 53) + 3,
        (1 << 60) + 12345,
        u64::MAX - 1,
        u64::MAX - 1000,
        123_456_789_012_345_678,
    ];
    for d in big {
        for m in [2usize, 3, 7, 100, 499] {
            assert_eq!(build_uniform_sample_points(d, m), float_points(d, m), "d={d} m={m}");
        }
    }
}

#[test]
fn workers_and_options() {
    assert_eq!(recommended_extract_workers(16, 60), 4);
    assert_eq!(recommended_extract_workers(16, 120), 3);
    assert_eq!(recommended_extract_workers(16, 200), 2);
    assert_eq!(recommended_extract_workers(1, 60), 1);
    assert_eq!(recommended_extract_workers(6, 10), 3);
    assert_eq!(resolve_max_samples(None), 60);
    assert_eq!(resolve_max_samples(Some(1)), 10);
    assert_eq!(resolve_max_samples(Some(9999)), 500);
    assert_eq!(resolve_extract_workers(None, 60, 16), 4);
    assert_eq!(resolve_extract_workers(Some(0), 200, 16), 2);
    assert_eq!(resolve_extract_workers(Some(20), 60, 16), 8);
    assert_eq!(resolve_extract_workers(Some(3), 60, 16), 3);
}

#[test]
fn frame_stepping() {
    assert_eq!(frame_step(0), 1);
    assert_eq!(frame_step(5), 5);
    let mut secs = vec![0u64];
    let mut s = 0u64;
    while let Some(n) = next_frame_second(s, 3, 10) {
        secs.push(n);
        s = n;
    }
    assert_eq!(secs, (0..=10u64).step_by(3).collect::<Vec<_>>());
    assert_eq!(next_frame_second(u64::MAX - 1, 5, u64::MAX), None);
}

#[test]
fn recognition_options_and_paths() {
    assert_eq!(resolve_frame_interval(None), 1);
    assert_eq!(resolve_frame_interval(Some(0)), 1);
    assert_eq!(resolve_frame_interval(Some(50)), 10);
    assert_eq!(default_output_dir("/videos"), "/videos/recognition_completed");
    assert_eq!(find_templates_root(&vec![false, true]), Some("templates"));
    assert_eq!(find_templates_root(&vec![true, true]), Some("src-tauri/templates"));
    assert_eq!(find_templates_root(&vec![]), None);
    let p = sidecar_path("out", "a.mp4");
    let expect = std::path::Path::new("out").join("[completed]a.mp4.recognition.json");
    assert_eq!(p, expect.to_string_lossy());
    assert_eq!(should_skip_by_json("out", "a.mp4", true), Some(p));
    assert_eq!(should_skip_by_json("out", "a.mp4", false), None);
}

#[test]
fn video_actions() {
    assert_eq!(video_action("[completed]a.mp4", true), VideoAction::SkipMarked);
    assert_eq!(video_action("a.mp4", true), VideoAction::SkipJsonExists);
    assert_eq!(video_action("a.mp4", false), VideoAction::Recognize);
    assert_eq!(VideoAction::SkipMarked.status(), "skipped_marked");
    assert_eq!(VideoAction::SkipJsonExists.status(), "skipped_json_exists");
}

#[test]
fn candidate_categories() {
    let scored = vec![
        ("loading".to_string(), 50u32),
        ("ending".to_string(), 95),
        ("banpick".to_string(), 93),
        ("vectory".to_string(), 95),
    ];
    assert_eq!(pick_candidate_categories(&scored, 92), vec!["ending", "vectory", "banpick"]);
    assert_eq!(pick_candidate_categories(&scored, 99), vec!["ending", "vectory"]);
    let one = vec![("loading".to_string(), 1u32)];
    assert_eq!(pick_candidate_categories(&one, 99), vec!["loading"]);
    assert_eq!(pick_candidate_categories(&vec![], 1), Vec::<String>::new());
}

#[test]
fn progress_state_machine() {
    let none = FrameHits { loading: false, banpick: false, ending: false, victory: false };
    let mut p = RecognitionProgress::new();
    // An end before any start is taken as the end.
    assert!(!p.observe_frame(0, FrameHits { ending: true, ..none }));
    assert_eq!(p.end_time_sec, Some(0));
    assert!(!p.observe_frame(5, FrameHits { banpick: true, ..none }));
    assert_eq!(p.start_time_sec, Some(5));
    assert!(!p.observe_frame(6, FrameHits { loading: true, ending: true, ..none }));
    assert_eq!(p.start_time_sec, Some(5));
    assert_eq!(p.end_time_sec, Some(0));
    assert!(p.observe_frame(7, FrameHits { victory: true, ..none }));

    let mut q = RecognitionProgress::new();
    assert!(!q.observe_frame(10, FrameHits { loading: true, ending: true, ..none }));
    assert_eq!(q.end_time_sec, Some(10));
    assert!(!q.victory);
}

#[test]
fn model_output_shapes() {
    assert_eq!(output_dims(&vec![1, -1, 0, 7]), vec![1, 0, 0, 7]);
    assert_eq!(classifier_classes(&vec![1, 6], 6), Ok(6));
    assert_eq!(classifier_classes(&vec![6], 6), Ok(6));
    assert_eq!(classifier_classes(&vec![1, 6], 0), Err(ModelOutputError::EmptyOutput));
    assert_eq!(classifier_classes(&vec![1, 0], 3), Err(ModelOutputError::NoClasses));
    assert_eq!(detection_layout(&vec![1, 10], 10), Err(ModelOutputError::UnsupportedRank));
    assert_eq!(detection_layout(&vec![1, 10, 8400], 0), Ok(None));
    assert_eq!(detection_layout(&vec![0, 1 << 40, 1 << 40], 0), Ok(None));
    assert_eq!(
        detection_layout(&vec![1, 1 << 40, 1 << 41], 10),
        Err(ModelOutputError::LengthMismatch)
    );
    assert_eq!(
        detection_layout(&vec![1, 10, 8400], 84000),
        Ok(Some(DetectionLayout { attrs: 10, count: 8400, attrs_first: true }))
    );
    assert_eq!(
        detection_layout(&vec![1, 8400, 11], 92400),
        Ok(Some(DetectionLayout { attrs: 11, count: 8400, attrs_first: false }))
    );
    assert_eq!(detection_layout(&vec![1, 3, 4], 12), Err(ModelOutputError::UnsupportedShape));
    assert_eq!(detection_layout(&vec![1, 10, 20], 100), Err(ModelOutputError::LengthMismatch));
}

#[test]
fn layout_indexing() {
    let a = DetectionLayout { attrs: 10, count: 20, attrs_first: true };
    assert_eq!(a.index(3, 5), 65);
    assert_eq!(a.class_start(), 4);
    let b = DetectionLayout { attrs: 11, count: 20, attrs_first: false };
    assert_eq!(b.index(3, 5), 58);
    assert_eq!(b.class_start(), 5);
}

#[test]
fn greedy_suppression() {
    let mut k = NmsKeeper::new(2);
    assert!(k.offer(1, &vec![]));
    assert!(!k.offer(1, &vec![true]));
    assert!(k.offer(2, &vec![true]));
    assert!(k.is_finished());
    assert!(!k.offer(3, &vec![false, false]));
    assert_eq!(k.kept_count(), 2);
    let mut z = NmsKeeper::new(0);
    assert!(z.offer(4, &vec![]));
    assert!(z.is_finished());
}

#[test]
fn training_commands_and_result() {
    assert_eq!(resolve_epochs(None), 30);
    assert_eq!(resolve_epochs(Some(0)), 1);
    assert_eq!(resolve_epochs(Some(1000)), 300);
    assert_eq!(resolve_image_size(None), 640);
    assert_eq!(resolve_image_size(Some(100)), 320);
    assert_eq!(resolve_image_size(Some(5000)), 1280);
    assert_eq!(resolve_python(None), "python");
    assert_eq!(resolve_python(Some("py3".into())), "py3");
    assert_eq!(
        train_args("d/dataset.yaml", 30, 640, "runs"),
        vec![
            "-m", "ultralytics", "yolo", "detect", "train", "data=d/dataset.yaml",
            "model=yolov8n.pt", "epochs=30", "imgsz=640", "project=runs",
            "name=recognition_yolo", "exist_ok=True"
        ]
    );
    assert_eq!(
        export_args("w/best.pt", 320),
        vec!["-m", "ultralytics", "yolo", "export", "model=w/best.pt", "format=onnx", "imgsz=320"]
    );
    assert_eq!(command_failure_message("T", "out", "err"), "T:\nout\nerr");
    let long = "x".repeat(2500);
    assert_eq!(command_failure_message("T", &long, "").chars().count(), 1 + 2 + 2000 + 1);
    assert_eq!(first_existing(&vec![false, true]), Some(1));
    assert_eq!(first_existing(&vec![false]), None);
    let r = TrainModelResult::succeeded(
        "d".into(), "r".into(), "o".into(), "m".into(), "rep".into(), &"a".repeat(1300), "err",
    );
    assert!(r.success);
    assert_eq!(r.train_stdout_tail.len(), 1200);
    assert_eq!(r.train_stderr_tail, "err");
}

#[test]
fn missing_models_fall_back() {
    assert_eq!(phase_model_mode(ModelLoad::Absent), "heuristic");
    assert_eq!(phase_model_mode(ModelLoad::Loaded), "onnx-active");
    assert_eq!(phase_model_mode(ModelLoad::Failed), "onnx-failed-fallback-heuristic");
    assert_eq!(bbox_model_mode(ModelLoad::Absent), "roi-fallback");
    assert_eq!(bbox_model_mode(ModelLoad::Loaded), "onnx-active");
    assert_eq!(bbox_model_mode(ModelLoad::Failed), "onnx-failed-fallback-roi");
}
