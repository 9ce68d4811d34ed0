//! Game phases: the fixed label set, the normalisation of free-form phase
//! names, the class id and default region of each phase, and the time-based
//! guess used when no classifier is available.
use vstd::prelude::*;
use crate::text::{
    chars_eq_str, chars_of, is_trimmed, lemma_lower_keeps_trimmed, lemma_lower_seq_fixed,
    lemma_lower_seq_idempotent, lemma_trim_fixed, lemma_trim_is_trimmed, lower_chars, lower_seq,
    string_from_chars, trim_chars, trim_seq,
};

verus! {

/// The six phase labels, in class-id order.
pub open spec fn phase_labels() -> Seq<Seq<char>> {
    seq![
        "banpick"@,
        "loading"@,
        "gaming"@,
        "victory_or_defeat"@,
        "ending"@,
        "other"@,
    ]
}

/// Template category names: ASCII-lowercased, with `ban-pick` spelled `banpick`.
pub open spec fn normalize_category_spec(raw: Seq<char>) -> Seq<char> {
    let v = lower_seq(raw);
    if v == "ban-pick"@ {
        "banpick"@
    } else {
        v
    }
}

/// The aliases that a trimmed, lowercased phase name is mapped through.
pub open spec fn phase_alias(v: Seq<char>) -> Seq<char> {
    if v == "ban-pick"@ {
        "banpick"@
    } else if v == "game"@ || v == "gaming"@ {
        "gaming"@
    } else if v == "vectory"@ || v == "victory"@ || v == "defeat"@ {
        "victory_or_defeat"@
    } else if v == "unknown"@ || v == "transition"@ {
        "other"@
    } else {
        v
    }
}

/// A phase name trimmed, ASCII-lowercased and mapped through the aliases.
pub open spec fn normalize_phase_spec(raw: Seq<char>) -> Seq<char> {
    phase_alias(lower_seq(trim_seq(raw)))
}

/// Normalises a template category directory name.
pub fn normalize_category(raw: &str) -> (r: String)
    ensures
        r@ == normalize_category_spec(raw@),
{
    let v = lower_chars(&chars_of(raw));
    if chars_eq_str(&v, "ban-pick") {
        "banpick".to_owned()
    } else {
        string_from_chars(&v)
    }
}

/// Normalises a phase name given by a user, a stored sample or a classifier.
pub fn normalize_phase_name(raw: &str) -> (r: String)
    ensures
        r@ == normalize_phase_spec(raw@),
{
    let t = trim_chars(&chars_of(raw));
    let v = lower_chars(&t);
    if chars_eq_str(&v, "ban-pick") {
        "banpick".to_owned()
    } else if chars_eq_str(&v, "game") || chars_eq_str(&v, "gaming") {
        "gaming".to_owned()
    } else if chars_eq_str(&v, "vectory") || chars_eq_str(&v, "victory") || chars_eq_str(
        &v,
        "defeat",
    ) {
        "victory_or_defeat".to_owned()
    } else if chars_eq_str(&v, "unknown") || chars_eq_str(&v, "transition") {
        "other".to_owned()
    } else {
        string_from_chars(&v)
    }
}

/// Whether `phase` is one of the six labels, exactly.
pub fn is_supported_phase_label(phase: &str) -> (r: bool)
    ensures
        r == phase_labels().contains(phase@),
{
    let p = chars_of(phase);
    let r = chars_eq_str(&p, "banpick") || chars_eq_str(&p, "loading") || chars_eq_str(
        &p,
        "gaming",
    ) || chars_eq_str(&p, "victory_or_defeat") || chars_eq_str(&p, "ending") || chars_eq_str(
        &p,
        "other",
    );
    proof {
        if r {
            if p@ == "banpick"@ { assert(phase_labels()[0] == p@); }
            if p@ == "loading"@ { assert(phase_labels()[1] == p@); }
            if p@ == "gaming"@ { assert(phase_labels()[2] == p@); }
            if p@ == "victory_or_defeat"@ { assert(phase_labels()[3] == p@); }
            if p@ == "ending"@ { assert(phase_labels()[4] == p@); }
            if p@ == "other"@ { assert(phase_labels()[5] == p@); }
        }
    }
    r
}


/// A literal phase label that is trimmed and has no upper-case letters is
/// its own trimmed, lowercased form.
proof fn lemma_label_is_normal(l: Seq<char>)
    requires
        l.len() > 0,
        is_trimmed(l),
        forall|i: int| 0 <= i < l.len() ==> !('A' <= #[trigger] l[i] <= 'Z'),
    ensures
        lower_seq(trim_seq(l)) == l,
{
    lemma_trim_fixed(l);
    lemma_lower_seq_fixed(l);
}

/// Normalising a phase name twice gives the same name as normalising it once.
pub proof fn lemma_normalize_phase_idempotent(raw: Seq<char>)
    ensures
        normalize_phase_spec(normalize_phase_spec(raw)) == normalize_phase_spec(raw),
{
    let t = trim_seq(raw);
    let v = lower_seq(t);
    lemma_trim_is_trimmed(raw);
    lemma_lower_keeps_trimmed(t);
    let r = phase_alias(v);
    if r == v {
        lemma_trim_fixed(v);
        lemma_lower_seq_idempotent(t);
        assert(lower_seq(trim_seq(v)) == v);
    } else {
        reveal_strlit("banpick");
        reveal_strlit("gaming");
        reveal_strlit("victory_or_defeat");
        reveal_strlit("other");
        reveal_strlit("ban-pick");
        reveal_strlit("game");
        reveal_strlit("vectory");
        reveal_strlit("victory");
        reveal_strlit("defeat");
        reveal_strlit("unknown");
        reveal_strlit("transition");
        if r == "banpick"@ {
            lemma_label_is_normal(r);
        } else if r == "gaming"@ {
            lemma_label_is_normal(r);
        } else if r == "victory_or_defeat"@ {
            lemma_label_is_normal(r);
        } else {
            lemma_label_is_normal(r);
        }
    }
}


// ---------------------------------------------------------------------------
// Class ids and default regions
// ---------------------------------------------------------------------------

/// The YOLO class id of a phase and its default region of interest.
///
/// The region is `[cx, cy, w, h]`, normalised to the frame, each coordinate
/// held as the bit pattern of its `f32` value (`f32::to_bits`).
#[derive(Clone, Copy, Debug, PartialEq, Eq)]
pub struct PhaseInfo {
    pub class_id: u32,
    pub roi: [u32; 4],
}

/// `f32` bit patterns of the coordinates used by the default regions.
pub const F32_0_08: u32 = 0x3da3d70a;
pub const F32_0_12: u32 = 0x3df5c28f;
pub const F32_0_18: u32 = 0x3e3851ec;
pub const F32_0_22: u32 = 0x3e6147ae;
pub const F32_0_24: u32 = 0x3e75c28f;
pub const F32_0_28: u32 = 0x3e8f5c29;
pub const F32_0_32: u32 = 0x3ea3d70a;
pub const F32_0_50: u32 = 0x3f000000;
pub const F32_0_60: u32 = 0x3f19999a;
pub const F32_0_62: u32 = 0x3f1eb852;
pub const F32_0_66: u32 = 0x3f28f5c3;
pub const F32_0_74: u32 = 0x3f3d70a4;
pub const F32_0_90: u32 = 0x3f666666;
pub const F32_0_92: u32 = 0x3f6b851f;
pub const F32_1_00: u32 = 0x3f800000;

/// The class id of a normalised phase: its index among the labels, and 5
/// (`other`) for any name that is not a label.
pub open spec fn class_id_spec(p: Seq<char>) -> u32 {
    if p == "banpick"@ {
        0
    } else if p == "loading"@ {
        1
    } else if p == "gaming"@ {
        2
    } else if p == "victory_or_defeat"@ {
        3
    } else if p == "ending"@ {
        4
    } else {
        5
    }
}

/// The default region of a class id: banpick `[0.50, 0.18, 0.74, 0.22]`,
/// loading `[0.50, 0.50, 0.90, 0.90]`, gaming `[0.50, 0.08, 0.32, 0.12]`,
/// victory_or_defeat `[0.50, 0.50, 0.62, 0.24]`, ending
/// `[0.50, 0.50, 0.66, 0.28]`, other `[0.50, 0.50, 1.00, 1.00]`.
pub open spec fn default_roi_spec(class_id: u32) -> [u32; 4] {
    if class_id == 0 {
        [F32_0_50, F32_0_18, F32_0_74, F32_0_22]
    } else if class_id == 1 {
        [F32_0_50, F32_0_50, F32_0_90, F32_0_90]
    } else if class_id == 2 {
        [F32_0_50, F32_0_08, F32_0_32, F32_0_12]
    } else if class_id == 3 {
        [F32_0_50, F32_0_50, F32_0_62, F32_0_24]
    } else if class_id == 4 {
        [F32_0_50, F32_0_50, F32_0_66, F32_0_28]
    } else {
        [F32_0_50, F32_0_50, F32_1_00, F32_1_00]
    }
}

pub open spec fn phase_info_spec(raw: Seq<char>) -> PhaseInfo {
    let c = class_id_spec(normalize_phase_spec(raw));
    PhaseInfo { class_id: c, roi: default_roi_spec(c) }
}

fn default_roi(class_id: u32) -> (r: [u32; 4])
    ensures
        r == default_roi_spec(class_id),
{
    if class_id == 0 {
        [F32_0_50, F32_0_18, F32_0_74, F32_0_22]
    } else if class_id == 1 {
        [F32_0_50, F32_0_50, F32_0_90, F32_0_90]
    } else if class_id == 2 {
        [F32_0_50, F32_0_08, F32_0_32, F32_0_12]
    } else if class_id == 3 {
        [F32_0_50, F32_0_50, F32_0_62, F32_0_24]
    } else if class_id == 4 {
        [F32_0_50, F32_0_50, F32_0_66, F32_0_28]
    } else {
        [F32_0_50, F32_0_50, F32_1_00, F32_1_00]
    }
}

/// The class id and default region of a phase name, after normalisation.
pub fn phase_info(phase: &str) -> (r: PhaseInfo)
    ensures
        r == phase_info_spec(phase@),
{
    let n = normalize_phase_name(phase);
    let v = chars_of(n.as_str());
    let c: u32 = if chars_eq_str(&v, "banpick") {
        0
    } else if chars_eq_str(&v, "loading") {
        1
    } else if chars_eq_str(&v, "gaming") {
        2
    } else if chars_eq_str(&v, "victory_or_defeat") {
        3
    } else if chars_eq_str(&v, "ending") {
        4
    } else {
        5
    };
    PhaseInfo { class_id: c, roi: default_roi(c) }
}

/// The phase that a classifier's output index stands for: the label at that
/// index, normalised, and `other` past the last label.
pub open spec fn classifier_phase_spec(index: int) -> Seq<char> {
    normalize_phase_spec(if 0 <= index < 6 { phase_labels()[index] } else { "other"@ })
}

pub fn classifier_phase(index: usize) -> (r: String)
    ensures
        r@ == classifier_phase_spec(index as int),
{
    let label: &str = if index == 0 {
        "banpick"
    } else if index == 1 {
        "loading"
    } else if index == 2 {
        "gaming"
    } else if index == 3 {
        "victory_or_defeat"
    } else if index == 4 {
        "ending"
    } else {
        "other"
    };
    normalize_phase_name(label)
}

proof fn lemma_labels_are_normal(i: int)
    requires
        0 <= i < 6,
    ensures
        normalize_phase_spec(phase_labels()[i]) == phase_labels()[i],
{
    reveal_strlit("banpick");
    reveal_strlit("loading");
    reveal_strlit("gaming");
    reveal_strlit("victory_or_defeat");
    reveal_strlit("ending");
    reveal_strlit("other");
    reveal_strlit("ban-pick");
    reveal_strlit("game");
    reveal_strlit("vectory");
    reveal_strlit("victory");
    reveal_strlit("defeat");
    reveal_strlit("unknown");
    reveal_strlit("transition");
    lemma_label_is_normal(phase_labels()[i]);
}

/// Each label keeps its name through normalisation, and its class id is its
/// index: a label and its class id go back and forth without loss, and the
/// classifier's output index `i < 6` names the phase of class `i`.
pub proof fn lemma_label_class_roundtrip(i: int)
    requires
        0 <= i < 6,
    ensures
        normalize_phase_spec(phase_labels()[i]) == phase_labels()[i],
        phase_info_spec(phase_labels()[i]).class_id == i,
        classifier_phase_spec(i) == phase_labels()[i],
        phase_info_spec(classifier_phase_spec(i)).class_id == i,
{
    lemma_labels_are_normal(i);
    reveal_strlit("banpick");
    reveal_strlit("loading");
    reveal_strlit("gaming");
    reveal_strlit("victory_or_defeat");
    reveal_strlit("ending");
    reveal_strlit("other");
}

/// Normalisation always ends in a name whose class id is that of its label;
/// any name outside the labels falls in class 5 (`other`).
pub proof fn lemma_class_id_of_unknown(raw: Seq<char>)
    ensures
        !phase_labels().contains(normalize_phase_spec(raw)) ==> phase_info_spec(raw).class_id
            == 5,
        phase_info_spec(raw).class_id < 6,
{
    let p = normalize_phase_spec(raw);
    if !phase_labels().contains(p) {
        if p == "banpick"@ { assert(phase_labels()[0] == p); }
        if p == "loading"@ { assert(phase_labels()[1] == p); }
        if p == "gaming"@ { assert(phase_labels()[2] == p); }
        if p == "victory_or_defeat"@ { assert(phase_labels()[3] == p); }
        if p == "ending"@ { assert(phase_labels()[4] == p); }
    }
}

// ---------------------------------------------------------------------------
// Time-based guess
// ---------------------------------------------------------------------------

/// The phase guessed from the position of a frame in a video, with the
/// sampling step suggested for that phase: the first 120 s are banpick, up to
/// 300 s loading, the last 40 s ending, the 140 s before them victory or
/// defeat, and the rest gaming.
pub open spec fn infer_phase_by_time_spec(sec: u64, duration_sec: u64) -> (Seq<char>, u64) {
    let victory_start = if duration_sec >= 180 { duration_sec - 180 } else { 0 };
    let ending_start = if duration_sec >= 40 { duration_sec - 40 } else { 0 };
    if sec <= 300 {
        if sec <= 120 {
            ("banpick"@, 2)
        } else {
            ("loading"@, 2)
        }
    } else if sec >= ending_start {
        ("ending"@, 1)
    } else if sec >= victory_start {
        ("victory_or_defeat"@, 1)
    } else {
        ("gaming"@, 8)
    }
}

/// The time windows of the guess: the first 120 s are banpick and the rest
/// of the first 300 s loading; after that, the last 40 s of the video are
/// the ending, the 140 s before them the victory or defeat screen, and
/// everything earlier gaming. Each comes with its step hint.
pub proof fn lemma_infer_phase_windows(sec: u64, duration_sec: u64)
    ensures
        sec <= 120 ==> infer_phase_by_time_spec(sec, duration_sec) == ("banpick"@, 2u64),
        120 < sec <= 300 ==> infer_phase_by_time_spec(sec, duration_sec) == ("loading"@, 2u64),
        300 < sec && duration_sec <= sec + 40 ==> infer_phase_by_time_spec(sec, duration_sec) == (
        "ending"@,
            1u64,
        ),
        300 < sec && sec + 40 < duration_sec && duration_sec <= sec + 180
            ==> infer_phase_by_time_spec(sec, duration_sec) == ("victory_or_defeat"@, 1u64),
        300 < sec && sec + 180 < duration_sec ==> infer_phase_by_time_spec(sec, duration_sec) == (
        "gaming"@,
            8u64,
        ),
{
}

pub fn infer_phase_by_time(sec: u64, duration_sec: u64) -> (r: (&'static str, u64))
    ensures
        (r.0@, r.1) == infer_phase_by_time_spec(sec, duration_sec),
        phase_labels().contains(r.0@),
{
    proof { reveal_strlit("banpick"); }
    let victory_start = duration_sec.saturating_sub(180);
    let ending_start = duration_sec.saturating_sub(40);
    let r: (&'static str, u64) = if sec <= 300 {
        if sec <= 120 {
            ("banpick", 2)
        } else {
            ("loading", 2)
        }
    } else if sec >= ending_start {
        ("ending", 1)
    } else if sec >= victory_start {
        ("victory_or_defeat", 1)
    } else {
        ("gaming", 8)
    };
    proof {
        if r.0@ == "banpick"@ { assert(phase_labels()[0] == r.0@); }
        if r.0@ == "loading"@ { assert(phase_labels()[1] == r.0@); }
        if r.0@ == "gaming"@ { assert(phase_labels()[2] == r.0@); }
        if r.0@ == "victory_or_defeat"@ { assert(phase_labels()[3] == r.0@); }
        if r.0@ == "ending"@ { assert(phase_labels()[4] == r.0@); }
    }
    r
}

/// The confidence given to a time-based guess, as an `f32` bit pattern:
/// 0.90 for banpick, loading and ending, 0.92 for victory_or_defeat, 0.60
/// for any other guess.
pub open spec fn heuristic_confidence_spec(guess: Seq<char>) -> u32 {
    if guess == "banpick"@ || guess == "loading"@ || guess == "ending"@ {
        F32_0_90
    } else if guess == "victory_or_defeat"@ {
        F32_0_92
    } else {
        F32_0_60
    }
}

pub fn heuristic_confidence(guess: &str) -> (r: u32)
    ensures
        r == heuristic_confidence_spec(guess@),
{
    let g = chars_of(guess);
    if chars_eq_str(&g, "banpick") || chars_eq_str(&g, "loading") || chars_eq_str(&g, "ending") {
        F32_0_90
    } else if chars_eq_str(&g, "victory_or_defeat") {
        F32_0_92
    } else {
        F32_0_60
    }
}

} // verus!
