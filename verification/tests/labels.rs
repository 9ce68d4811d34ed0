use recognition::phase::{
    classifier_phase, heuristic_confidence, infer_phase_by_time, is_supported_phase_label,
    normalize_category, normalize_phase_name, phase_info, F32_0_18, F32_0_22, F32_0_50, F32_0_60,
    F32_0_74, F32_0_90, F32_0_92, F32_1_00,
};

#[test]
fn normalize_category_lowercases_and_maps_ban_pick() {
    assert_eq!(normalize_category("Ban-Pick"), "banpick");
    assert_eq!(normalize_category("LOADING"), "loading");
    assert_eq!(normalize_category("Vectory"), "vectory");
    assert_eq!(normalize_category(" ban-pick"), " ban-pick");
}

#[test]
fn normalize_phase_name_aliases() {
    assert_eq!(normalize_phase_name("  Ban-Pick\n"), "banpick");
    assert_eq!(normalize_phase_name("GAME"), "gaming");
    assert_eq!(normalize_phase_name("gaming"), "gaming");
    assert_eq!(normalize_phase_name("Vectory"), "victory_or_defeat");
    assert_eq!(normalize_phase_name("victory"), "victory_or_defeat");
    assert_eq!(normalize_phase_name("defeat"), "victory_or_defeat");
    assert_eq!(normalize_phase_name("unknown"), "other");
    assert_eq!(normalize_phase_name("\u{3000}Transition\u{a0}"), "other");
    assert_eq!(normalize_phase_name("Ending"), "ending");
    assert_eq!(normalize_phase_name("Lobby"), "lobby");
    assert_eq!(normalize_phase_name(""), "");
}

#[test]
fn normalize_phase_name_is_idempotent_on_examples() {
    for raw in ["  Ban-Pick ", "GAME", "victory", "Transition", "Weird Name", "ÄBC"] {
        let once = normalize_phase_name(raw);
        assert_eq!(normalize_phase_name(&once), once);
    }
}

#[test]
fn supported_phase_labels() {
    for l in ["banpick", "loading", "gaming", "victory_or_defeat", "ending", "other"] {
        assert!(is_supported_phase_label(l));
    }
    assert!(!is_supported_phase_label("Gaming"));
    assert!(!is_supported_phase_label("ban-pick"));
    assert!(!is_supported_phase_label(""));
}

#[test]
fn phase_info_class_ids_and_regions() {
    let b = phase_info("Ban-Pick");
    assert_eq!(b.class_id, 0);
    assert_eq!(b.roi, [F32_0_50, F32_0_18, F32_0_74, F32_0_22]);
    assert_eq!(phase_info("loading").class_id, 1);
    assert_eq!(phase_info("game").class_id, 2);
    assert_eq!(phase_info("victory").class_id, 3);
    assert_eq!(phase_info("ending").class_id, 4);
    let o = phase_info("something else");
    assert_eq!(o.class_id, 5);
    assert_eq!(o.roi, [F32_0_50, F32_0_50, F32_1_00, F32_1_00]);
}

#[test]
fn region_bits_are_the_decimal_values() {
    assert_eq!(f32::from_bits(F32_0_18), 0.18f32);
    assert_eq!(f32::from_bits(F32_0_22), 0.22f32);
    assert_eq!(f32::from_bits(F32_0_50), 0.50f32);
    assert_eq!(f32::from_bits(F32_0_74), 0.74f32);
    assert_eq!(f32::from_bits(F32_0_90), 0.90f32);
    assert_eq!(f32::from_bits(F32_0_92), 0.92f32);
    assert_eq!(f32::from_bits(F32_0_60), 0.60f32);
    assert_eq!(f32::from_bits(F32_1_00), 1.00f32);
    let g = phase_info("gaming").roi;
    assert_eq!(g.map(f32::from_bits), [0.50f32, 0.08, 0.32, 0.12]);
    let v = phase_info("victory_or_defeat").roi;
    assert_eq!(v.map(f32::from_bits), [0.50f32, 0.50, 0.62, 0.24]);
    let e = phase_info("ending").roi;
    assert_eq!(e.map(f32::from_bits), [0.50f32, 0.50, 0.66, 0.28]);
    let l = phase_info("loading").roi;
    assert_eq!(l.map(f32::from_bits), [0.50f32, 0.50, 0.90, 0.90]);
}

#[test]
fn classifier_index_roundtrip() {
    let labels = ["banpick", "loading", "gaming", "victory_or_defeat", "ending", "other"];
    for (i, l) in labels.iter().enumerate() {
        assert_eq!(classifier_phase(i), *l);
        assert_eq!(phase_info(&classifier_phase(i)).class_id as usize, i);
    }
    assert_eq!(classifier_phase(6), "other");
    assert_eq!(classifier_phase(1000), "other");
}

#[test]
fn infer_phase_by_time_boundaries() {
    assert_eq!(infer_phase_by_time(0, 3600), ("banpick", 2));
    assert_eq!(infer_phase_by_time(120, 3600), ("banpick", 2));
    assert_eq!(infer_phase_by_time(121, 3600), ("loading", 2));
    assert_eq!(infer_phase_by_time(300, 3600), ("loading", 2));
    assert_eq!(infer_phase_by_time(301, 3600), ("gaming", 8));
    assert_eq!(infer_phase_by_time(3419, 3600), ("gaming", 8));
    assert_eq!(infer_phase_by_time(3420, 3600), ("victory_or_defeat", 1));
    assert_eq!(infer_phase_by_time(3559, 3600), ("victory_or_defeat", 1));
    assert_eq!(infer_phase_by_time(3560, 3600), ("ending", 1));
    // Short video: the saturating starts are 0.
    assert_eq!(infer_phase_by_time(301, 100), ("ending", 1));
    assert_eq!(infer_phase_by_time(50, 100), ("banpick", 2));
}

#[test]
fn heuristic_confidences() {
    assert_eq!(f32::from_bits(heuristic_confidence("banpick")), 0.90f32);
    assert_eq!(f32::from_bits(heuristic_confidence("loading")), 0.90f32);
    assert_eq!(f32::from_bits(heuristic_confidence("ending")), 0.90f32);
    assert_eq!(f32::from_bits(heuristic_confidence("victory_or_defeat")), 0.92f32);
    assert_eq!(f32::from_bits(heuristic_confidence("gaming")), 0.60f32);
}
