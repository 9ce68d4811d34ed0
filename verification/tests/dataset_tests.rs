use recognition::dataset::{
    count_label_status, dataset_yaml, default_label_status, frames_to_extract, is_exported,
    is_completed_video, is_valid_label_status, mark_completed, new_sample_points,
    resume_from_existing,
    rebalance_negative_ratio, select_detection, set_sample_label, set_sample_labels_bulk,
    set_sample_phase, set_sample_phases_bulk, LabelError, SampleRecord,
};
use recognition::phase::{phase_info, F32_0_50};

fn rec(id: &str, status: &str, key: u32) -> SampleRecord {
    SampleRecord {
        id: id.to_string(),
        phase: "gaming".to_string(),
        class_id: 2,
        roi: phase_info("gaming").roi,
        label_status: status.to_string(),
        confidence_key: key,
    }
}

fn statuses(s: &[SampleRecord]) -> Vec<&str> {
    s.iter().map(|r| r.label_status.as_str()).collect()
}

#[test]
fn rebalance_turns_least_confident_pending_into_negatives() {
    let mut s = vec![
        rec("a", "correct", 9),
        rec("b", "pending", 5),
        rec("c", "pending", 1),
        rec("d", "pending", 3),
    ];
    rebalance_negative_ratio(&mut s);
    assert_eq!(statuses(&s), vec!["correct", "pending", "wrong", "wrong"]);
    assert_eq!(count_label_status(&s, "wrong"), 2);
}

#[test]
fn rebalance_returns_most_confident_negatives_to_pending() {
    let mut s = vec![
        rec("a", "correct", 9),
        rec("b", "wrong", 1),
        rec("c", "wrong", 9),
        rec("d", "wrong", 9),
        rec("e", "wrong", 2),
    ];
    rebalance_negative_ratio(&mut s);
    assert_eq!(statuses(&s), vec!["correct", "wrong", "pending", "pending", "wrong"]);
}

#[test]
fn rebalance_breaks_ties_by_position() {
    let mut s = vec![
        rec("a", "correct", 0),
        rec("b", "wrong", 7),
        rec("c", "wrong", 7),
        rec("d", "wrong", 7),
    ];
    rebalance_negative_ratio(&mut s);
    assert_eq!(statuses(&s), vec!["correct", "pending", "wrong", "wrong"]);
    let mut p = vec![rec("a", "correct", 0), rec("b", "pending", 4), rec("c", "pending", 4), rec("d", "pending", 4)];
    rebalance_negative_ratio(&mut p);
    assert_eq!(statuses(&p), vec!["correct", "wrong", "wrong", "pending"]);
}

#[test]
fn rebalance_without_positives_or_when_balanced_changes_nothing() {
    let mut s = vec![rec("a", "wrong", 1), rec("b", "pending", 2)];
    rebalance_negative_ratio(&mut s);
    assert_eq!(statuses(&s), vec!["wrong", "pending"]);
    let mut t = vec![rec("a", "correct", 1), rec("b", "wrong", 2), rec("c", "wrong", 3), rec("d", "pending", 0)];
    rebalance_negative_ratio(&mut t);
    assert_eq!(statuses(&t), vec!["correct", "wrong", "wrong", "pending"]);
}

#[test]
fn rebalance_with_too_few_pending_and_second_run() {
    let mut s = vec![rec("a", "correct", 1), rec("b", "correct", 1), rec("c", "pending", 5), rec("d", "other", 0)];
    rebalance_negative_ratio(&mut s);
    assert_eq!(statuses(&s), vec!["correct", "correct", "wrong", "other"]);
    let before: Vec<String> = s.iter().map(|r| r.label_status.clone()).collect();
    rebalance_negative_ratio(&mut s);
    let after: Vec<String> = s.iter().map(|r| r.label_status.clone()).collect();
    assert_eq!(before, after);
}

#[test]
fn single_label_updates() {
    let mut s = vec![rec("a", "pending", 0), rec("b", "pending", 0), rec("a", "pending", 0)];
    assert_eq!(set_sample_label(&mut s, "a", "correct"), Ok(true));
    assert_eq!(statuses(&s), vec!["correct", "pending", "pending"]);
    assert_eq!(set_sample_label(&mut s, "a", "correct"), Ok(true));
    assert_eq!(statuses(&s), vec!["correct", "pending", "pending"]);
    assert_eq!(set_sample_label(&mut s, "zz", "wrong"), Ok(false));
    assert_eq!(set_sample_label(&mut s, "b", "maybe"), Err(LabelError::UnsupportedStatus));
    assert_eq!(statuses(&s), vec!["correct", "pending", "pending"]);
    assert!(is_valid_label_status("pending"));
    assert!(!is_valid_label_status("Pending"));
}

#[test]
fn single_phase_updates() {
    let mut s = vec![rec("a", "pending", 0), rec("b", "pending", 0)];
    assert_eq!(set_sample_phase(&mut s, "b", " Ban-Pick "), Ok(true));
    assert_eq!(s[1].phase, "banpick");
    assert_eq!(s[1].class_id, 0);
    assert_eq!(s[1].roi, phase_info("banpick").roi);
    assert_eq!(s[0].phase, "gaming");
    assert_eq!(set_sample_phase(&mut s, "c", "loading"), Ok(false));
    assert_eq!(set_sample_phase(&mut s, "a", "lobby"), Err(LabelError::UnsupportedPhase));
    assert_eq!(s[0].phase, "gaming");
}

#[test]
fn bulk_label_updates_count_changes() {
    let mut s = vec![rec("a", "pending", 0), rec("b", "wrong", 0), rec("c", "pending", 0)];
    let ids = vec!["a".to_string(), "b".to_string(), "x".to_string()];
    assert_eq!(set_sample_labels_bulk(&mut s, &ids, "wrong"), Ok(1));
    assert_eq!(statuses(&s), vec!["wrong", "wrong", "pending"]);
    assert_eq!(set_sample_labels_bulk(&mut s, &ids, "wrong"), Ok(0));
    assert_eq!(set_sample_labels_bulk(&mut s, &vec![], "correct"), Ok(0));
    assert_eq!(set_sample_labels_bulk(&mut s, &ids, "nope"), Err(LabelError::UnsupportedStatus));
}

#[test]
fn bulk_phase_updates_count_changes() {
    let mut s = vec![rec("a", "pending", 0), rec("b", "pending", 0), rec("c", "pending", 0)];
    s[1].roi = [F32_0_50; 4];
    let ids = vec!["a".to_string(), "b".to_string()];
    // "a" already has the gaming phase, class and region; "b" differs by its region.
    assert_eq!(set_sample_phases_bulk(&mut s, &ids, "Game"), Ok(1));
    assert_eq!(s[1].roi, phase_info("gaming").roi);
    assert_eq!(set_sample_phases_bulk(&mut s, &ids, "game"), Ok(0));
    assert_eq!(set_sample_phases_bulk(&mut s, &ids, "ending"), Ok(2));
    assert_eq!(s[0].class_id, 4);
    assert_eq!(s[2].class_id, 2);
    assert_eq!(set_sample_phases_bulk(&mut s, &vec![], "lobby"), Ok(0));
    assert_eq!(set_sample_phases_bulk(&mut s, &ids, "lobby"), Err(LabelError::UnsupportedPhase));
}

#[test]
fn default_status_and_export_filter() {
    assert_eq!(default_label_status(true, false), "correct");
    assert_eq!(default_label_status(true, true), "correct");
    assert_eq!(default_label_status(false, true), "wrong");
    assert_eq!(default_label_status(false, false), "pending");
    assert!(is_exported("correct"));
    assert!(is_exported("pending"));
    assert!(!is_exported("wrong"));
}

#[test]
fn detection_selection() {
    assert_eq!(select_detection(&vec![3, 1, 1], 1), Some(1));
    assert_eq!(select_detection(&vec![3, 4], 1), Some(0));
    assert_eq!(select_detection(&vec![], 1), None);
}

#[test]
fn yaml_text() {
    let y = dataset_yaml();
    assert!(y.starts_with("path: .\ntrain: images/train\nval: images/val\nnames:\n  0: banpick\n"));
    assert!(y.ends_with("  5: other\n"));
}

#[test]
fn frames_already_known_or_on_disk_are_not_extracted_again() {
    let known = vec![false, true, false, false];
    let on_disk = vec![false, false, true, false];
    assert_eq!(frames_to_extract(&known, &on_disk, true), vec![0, 3]);
    assert_eq!(frames_to_extract(&known, &on_disk, false), vec![0, 2, 3]);
    assert_eq!(frames_to_extract(&Vec::new(), &Vec::new(), true), Vec::<usize>::new());
}

#[test]
fn new_samples_skip_known_missing_and_repeated_ids() {
    let ids: Vec<String> = ["a", "b", "a", "c", "d"].iter().map(|s| s.to_string()).collect();
    let known = vec![false, true, false, false, false];
    let available = vec![true, true, true, false, true];
    assert_eq!(new_sample_points(&ids, &known, &available), vec![0, 4]);
    let all_new = vec![false; 5];
    let all_there = vec![true; 5];
    assert_eq!(new_sample_points(&ids, &all_new, &all_there), vec![0, 1, 3, 4]);
}

fn strings(v: &[&str]) -> Vec<String> {
    v.iter().map(|s| s.to_string()).collect()
}

#[test]
fn resuming_keeps_earlier_samples_and_their_videos() {
    let ids = strings(&["a", "b", "c"]);
    let videos = strings(&["v1.mp4", "", "v2.mp4"]);
    let r = resume_from_existing(&ids, &videos, true);
    assert_eq!(r.kept, 3);
    assert_eq!(r.known_ids, ids);
    assert_eq!(r.completed_videos, strings(&["v1.mp4", "v2.mp4"]));
    assert!(is_completed_video(&r.completed_videos, &"v2.mp4".to_string(), true));
    assert!(!is_completed_video(&r.completed_videos, &"v2.mp4".to_string(), false));
    assert!(!is_completed_video(&r.completed_videos, &"v3.mp4".to_string(), true));

    let fresh = resume_from_existing(&ids, &videos, false);
    assert_eq!(fresh.kept, 0);
    assert!(fresh.known_ids.is_empty());
    assert!(fresh.completed_videos.is_empty());
}

#[test]
fn videos_count_as_completed_once_samples_were_added() {
    let mut done = strings(&["v1.mp4"]);
    mark_completed(&mut done, &"v2.mp4".to_string(), 0);
    assert_eq!(done, strings(&["v1.mp4"]));
    mark_completed(&mut done, &"v2.mp4".to_string(), 3);
    assert_eq!(done, strings(&["v1.mp4", "v2.mp4"]));
}
