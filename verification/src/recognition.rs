//! Recognition of match boundaries in recorded videos: which videos are
//! recognised, which template categories are compared with a frame, and the
//! state kept while frames are visited.
use vstd::prelude::*;
use crate::names::{sidecar_name, sidecar_name_spec, should_skip_file, completed_prefix};
use crate::paths::{has_verbatim_prefix, is_join_of, is_plain_text, is_segment, path_join};
use crate::rank::{count_selected, count_true, rank, rank_of, lemma_rank_injective, lemma_rank_bound};
use crate::text::{append_chars, chars_of, string_from_chars};

verus! {

// ---------------------------------------------------------------------------
// Options
// ---------------------------------------------------------------------------

/// Seconds between recognised frames: 1 unless given, kept between 1 and 10.
pub fn resolve_frame_interval(requested: Option<u32>) -> (r: u32)
    ensures
        r == (match requested {
            Some(v) => if v < 1 { 1 } else if v > 10 { 10 } else { v },
            None => 1,
        }),
{
    match requested {
        Some(v) => if v < 1 { 1 } else if v > 10 { 10 } else { v },
        None => 1,
    }
}

/// Where recognition results go when no directory is given:
/// `<source>/recognition_completed`.
pub fn default_output_dir(source_dir: &str) -> (r: String)
    ensures
        r@ == source_dir@ + "/recognition_completed"@,
{
    let mut v = chars_of(source_dir);
    append_chars(&mut v, &chars_of("/recognition_completed"));
    string_from_chars(&v)
}

/// The directories searched for templates, in order.
pub open spec fn template_root_candidates() -> Seq<Seq<char>> {
    seq!["src-tauri/templates"@, "templates"@]
}

/// The first template directory candidate that is a directory:
/// `candidate_is_dir[i]` says whether candidate `i` is one (missing entries
/// count as no).
pub fn find_templates_root(candidate_is_dir: &Vec<bool>) -> (r: Option<&'static str>)
    ensures
        match r {
            Some(p) => {
                ||| (p@ == template_root_candidates()[0] && candidate_is_dir@.len() > 0
                    && candidate_is_dir@[0])
                ||| (p@ == template_root_candidates()[1] && !(candidate_is_dir@.len() > 0
                    && candidate_is_dir@[0]) && candidate_is_dir@.len() > 1 && candidate_is_dir@[1])
            },
            None => !(candidate_is_dir@.len() > 0 && candidate_is_dir@[0]) && !(
            candidate_is_dir@.len() > 1 && candidate_is_dir@[1]),
        },
{
    if candidate_is_dir.len() > 0 && candidate_is_dir[0] {
        Some("src-tauri/templates")
    } else if candidate_is_dir.len() > 1 && candidate_is_dir[1] {
        Some("templates")
    } else {
        None
    }
}

// ---------------------------------------------------------------------------
// Which videos are recognised
// ---------------------------------------------------------------------------

/// The path of the result file written for a video in the output directory:
/// the directory joined with `sidecar_name_spec(file_name)`, for a file name
/// without separators or drive colon and a directory without a verbatim
/// prefix.
pub fn sidecar_path(output_dir: &str, file_name: &str) -> (r: String)
    ensures
        is_plain_text(file_name@) && !has_verbatim_prefix(output_dir@) ==> is_join_of(
            r@,
            output_dir@,
            sidecar_name_spec(file_name@),
        ),
{
    let name = sidecar_name(file_name);
    proof {
        if is_plain_text(file_name@) {
            lemma_sidecar_name_is_segment(file_name@);
        }
    }
    path_join(output_dir, name.as_str())
}

proof fn lemma_sidecar_name_is_segment(file_name: Seq<char>)
    requires
        is_plain_text(file_name),
    ensures
        is_segment(sidecar_name_spec(file_name)),
{
    reveal_strlit("[completed]");
    reveal_strlit(".recognition.json");
    let a = "[completed]"@;
    let b = ".recognition.json"@;
    let s = sidecar_name_spec(file_name);
    assert(s == a + file_name + b);
    assert forall|i: int| 0 <= i < s.len() implies !crate::paths::is_separator(#[trigger] s[i]) && s[i] != ':' by {
        if i < a.len() {
            assert(s[i] == a[i]);
        } else if i < a.len() + file_name.len() {
            assert(s[i] == file_name[i - a.len()]);
        } else {
            assert(s[i] == b[i - a.len() - file_name.len()]);
        }
    }
    assert(s.len() > 2);
}

/// The result file of a video that was already recognised, when it exists:
/// `sidecar_exists` says whether `sidecar_path(output_dir, file_name)` exists.
pub fn should_skip_by_json(output_dir: &str, file_name: &str, sidecar_exists: bool) -> (r: Option<String>)
    ensures
        sidecar_exists <==> r is Some,
        r matches Some(p) ==> (is_plain_text(file_name@) && !has_verbatim_prefix(output_dir@)
            ==> is_join_of(p@, output_dir@, sidecar_name_spec(file_name@))),
{
    if sidecar_exists {
        Some(sidecar_path(output_dir, file_name))
    } else {
        None
    }
}

/// What happens to a video of the source directory.
#[derive(Clone, Copy, Debug, PartialEq, Eq)]
pub enum VideoAction {
    /// Its name carries the processed marker.
    SkipMarked,
    /// Its result file already exists.
    SkipJsonExists,
    /// It is recognised.
    Recognize,
}

impl VideoAction {
    /// The status reported for a skipped video; `processed` for one to recognise.
    pub fn status(&self) -> (r: &'static str)
        ensures
            r@ == (match self {
                VideoAction::SkipMarked => "skipped_marked"@,
                VideoAction::SkipJsonExists => "skipped_json_exists"@,
                VideoAction::Recognize => "processed"@,
            }),
    {
        match self {
            VideoAction::SkipMarked => "skipped_marked",
            VideoAction::SkipJsonExists => "skipped_json_exists",
            VideoAction::Recognize => "processed",
        }
    }
}

/// Marked videos are skipped first; then videos whose result file exists.
pub fn video_action(file_name: &str, sidecar_exists: bool) -> (r: VideoAction)
    ensures
        r == (if completed_prefix().len() <= file_name@.len() && file_name@.take(
            completed_prefix().len() as int,
        ) == completed_prefix() {
            VideoAction::SkipMarked
        } else if sidecar_exists {
            VideoAction::SkipJsonExists
        } else {
            VideoAction::Recognize
        }),
{
    if should_skip_file(file_name) {
        VideoAction::SkipMarked
    } else if sidecar_exists {
        VideoAction::SkipJsonExists
    } else {
        VideoAction::Recognize
    }
}

// ---------------------------------------------------------------------------
// Candidate template categories of a frame
// ---------------------------------------------------------------------------

/// The scores' order keys.
pub open spec fn score_keys(scored: Seq<(String, u32)>) -> Seq<u32> {
    Seq::new(scored.len(), |i: int| scored[i].1)
}

pub open spec fn all_items(n: nat) -> Seq<bool> {
    Seq::new(n, |i: int| true)
}

/// The position of category `i` when the categories are sorted stably by
/// falling similarity.
pub open spec fn score_rank(scored: Seq<(String, u32)>, i: int) -> nat {
    rank(score_keys(scored), all_items(scored.len()), true, i)
}

/// Which categories reach the similarity threshold.
pub open spec fn passing(scored: Seq<(String, u32)>, threshold: u32) -> Seq<bool> {
    Seq::new(scored.len(), |i: int| scored[i].1 >= threshold)
}

/// How many categories are compared with the frame: those reaching the
/// threshold, or the two most similar (or fewer) when none does.
pub open spec fn candidate_count(scored: Seq<(String, u32)>, threshold: u32) -> int {
    let p = count_true(passing(scored, threshold), scored.len() as int);
    if p > 0 {
        p as int
    } else if scored.len() < 2 {
        scored.len() as int
    } else {
        2
    }
}

/// The template categories compared with a frame, most similar first.
///
/// `scored` pairs each category with the order key of its similarity to the
/// frame (larger key, more similar), in the order the categories were
/// listed; `threshold` is the key of the similarity threshold. The result
/// holds the categories reaching the threshold, sorted stably by falling
/// similarity, or, when none does, the two most similar ones.
pub fn pick_candidate_categories(scored: &Vec<(String, u32)>, threshold: u32) -> (out: Vec<String>)
    ensures
        out@.len() == candidate_count(scored@, threshold),
        forall|i: int|
            0 <= i < scored@.len() && score_rank(scored@, i) < candidate_count(scored@, threshold)
                ==> out@[score_rank(scored@, i) as int]@ == scored@[i].0@,
{
    let n = scored.len();
    let mut keys: Vec<u32> = Vec::new();
    let mut all: Vec<bool> = Vec::new();
    let mut pass: Vec<bool> = Vec::new();
    for i in 0..n
        invariant
            n == scored@.len(),
            keys@ == score_keys(scored@).take(i as int),
            all@ == all_items(n as nat).take(i as int),
            pass@ == passing(scored@, threshold).take(i as int),
    {
        keys.push(scored[i].1);
        all.push(true);
        pass.push(scored[i].1 >= threshold);
        assert(keys@ =~= score_keys(scored@).take(i + 1));
        assert(all@ =~= all_items(n as nat).take(i + 1));
        assert(pass@ =~= passing(scored@, threshold).take(i + 1));
    }
    assert(keys@ =~= score_keys(scored@));
    assert(all@ =~= all_items(n as nat));
    assert(pass@ =~= passing(scored@, threshold));
    let p = count_selected(&pass);
    let m: usize = if p > 0 {
        p
    } else if n < 2 {
        n
    } else {
        2
    };
    proof {
        crate::rank::lemma_count_true_bound(pass@, n as int);
    }
    let mut out: Vec<String> = Vec::new();
    for k in 0..m
        invariant
            out@.len() == k,
    {
        out.push(String::new());
    }
    for i in 0..n
        invariant
            n == scored@.len(),
            keys@ == score_keys(scored@),
            all@ == all_items(n as nat),
            m == candidate_count(scored@, threshold),
            m <= n,
            out@.len() == m,
            forall|k: int|
                0 <= k < i && score_rank(scored@, k) < m ==> out@[score_rank(scored@, k) as int]@
                    == scored@[k].0@,
    {
        let r = rank_of(&keys, &all, true, i);
        if r < m {
            let ghost prev = out@;
            out.set(r, scored[i].0.clone());
            assert forall|k: int|
                0 <= k < i + 1 && score_rank(scored@, k) < m implies out@[score_rank(
                scored@,
                k,
            ) as int]@ == scored@[k].0@ by {
                if k < i {
                    lemma_rank_injective(keys@, all@, true, k, i as int);
                    assert(out@[score_rank(scored@, k) as int] == prev[score_rank(scored@, k) as int]);
                }
            }
        }
    }
    out
}

proof fn lemma_preceding_pass(
    scored: Seq<(String, u32)>,
    threshold: u32,
    i: int,
    u: int,
)
    requires
        0 <= i < scored.len(),
        u <= scored.len(),
        scored[i].1 >= threshold,
    ensures
        crate::rank::count_preceding(score_keys(scored), all_items(scored.len()), true, i, u) + (if u
            > i {
            1int
        } else {
            0int
        }) <= count_true(passing(scored, threshold), u),
    decreases u,
{
    if u > 0 {
        lemma_preceding_pass(scored, threshold, i, u - 1);
    }
}

proof fn lemma_preceding_fail(
    scored: Seq<(String, u32)>,
    threshold: u32,
    i: int,
    u: int,
)
    requires
        0 <= i < scored.len(),
        u <= scored.len(),
        scored[i].1 < threshold,
    ensures
        crate::rank::count_preceding(score_keys(scored), all_items(scored.len()), true, i, u)
            >= count_true(passing(scored, threshold), u),
    decreases u,
{
    if u > 0 {
        lemma_preceding_fail(scored, threshold, i, u - 1);
    }
}

/// The categories reaching the threshold are exactly the first ones in the
/// sorted order: a category reaches it exactly when its position is below
/// the number of categories that do.
pub proof fn lemma_candidates_are_passing(scored: Seq<(String, u32)>, threshold: u32, i: int)
    requires
        0 <= i < scored.len(),
    ensures
        (score_rank(scored, i) < count_true(passing(scored, threshold), scored.len() as int))
            == (scored[i].1 >= threshold),
{
    if scored[i].1 >= threshold {
        lemma_preceding_pass(scored, threshold, i, scored.len() as int);
    } else {
        lemma_preceding_fail(scored, threshold, i, scored.len() as int);
    }
}

/// Every position in the candidate list is filled: as many categories as
/// the candidate count have a position below it (and positions are
/// distinct, see `lemma_rank_injective`).
pub proof fn lemma_candidate_positions(scored: Seq<(String, u32)>, threshold: u32)
    ensures
        count_true(
            crate::rank::ranked_below(
                score_keys(scored),
                all_items(scored.len()),
                true,
                candidate_count(scored, threshold),
            ),
            scored.len() as int,
        ) == candidate_count(scored, threshold),
{
    let n = scored.len() as int;
    lemma_count_all(n as nat, n);
    crate::rank::lemma_count_true_bound(passing(scored, threshold), n);
    crate::rank::lemma_ranked_below_count(
        score_keys(scored),
        all_items(scored.len()),
        true,
        candidate_count(scored, threshold),
    );
}

/// Every category reaching the threshold is compared with the frame, and
/// when one does nothing else is: with `P > 0` categories reaching it the
/// list has exactly `P` entries and each of them sits at a position below
/// `P`; when none reaches it, the list has the two most similar (or all, if
/// fewer than two).
pub proof fn lemma_every_passing_category_is_compared(scored: Seq<(String, u32)>, threshold: u32)
    ensures
        ({
            let p = count_true(passing(scored, threshold), scored.len() as int);
            &&& p > 0 ==> candidate_count(scored, threshold) == p
            &&& p == 0 ==> candidate_count(scored, threshold) == if scored.len() < 2 {
                scored.len() as int
            } else {
                2
            }
        }),
        forall|i: int|
            0 <= i < scored.len() && #[trigger] scored[i].1 >= threshold ==> score_rank(scored, i)
                < candidate_count(scored, threshold),
{
    assert forall|i: int|
        0 <= i < scored.len() && #[trigger] scored[i].1 >= threshold implies score_rank(scored, i)
            < candidate_count(scored, threshold) by {
        lemma_candidates_are_passing(scored, threshold, i);
    }
}

/// The candidates come most similar first: a more similar category, or an
/// equally similar one listed earlier, gets an earlier position.
pub proof fn lemma_candidates_most_similar_first(scored: Seq<(String, u32)>, i: int, j: int)
    requires
        0 <= i < scored.len(),
        0 <= j < scored.len(),
        scored[i].1 > scored[j].1 || (scored[i].1 == scored[j].1 && i < j),
    ensures
        score_rank(scored, i) < score_rank(scored, j),
{
    crate::rank::lemma_rank_lt(score_keys(scored), all_items(scored.len()), true, i, j);
}

proof fn lemma_count_all(n: nat, u: int)
    requires
        u <= n,
    ensures
        count_true(all_items(n), u) == if u < 0 { 0 } else { u },
    decreases u,
{
    if u > 0 {
        lemma_count_all(n, u - 1);
    }
}

// ---------------------------------------------------------------------------
// State while frames are visited
// ---------------------------------------------------------------------------

/// Which template categories matched a frame well enough: loading or
/// banpick for the start of a match, ending for its end, the victory
/// screen for a win.
#[derive(Clone, Copy, Debug, PartialEq, Eq)]
pub struct FrameHits {
    pub loading: bool,
    pub banpick: bool,
    pub ending: bool,
    pub victory: bool,
}

/// What is known of a video after some frames.
#[derive(Clone, Copy, Debug, PartialEq, Eq)]
pub struct RecognitionProgress {
    pub start_time_sec: Option<u64>,
    pub end_time_sec: Option<u64>,
    pub victory: bool,
}

/// The progress after the frame at `sec`: the first start match sets the
/// start; the first end match sets the end unless it comes before a known
/// start; a victory match sets the victory.
pub open spec fn observe_spec(p: RecognitionProgress, sec: u64, hits: FrameHits) -> RecognitionProgress {
    let start = if p.start_time_sec is None && (hits.loading || hits.banpick) {
        Some(sec)
    } else {
        p.start_time_sec
    };
    let end = if p.end_time_sec is None && hits.ending {
        match start {
            Some(s) => if sec >= s { Some(sec) } else { None },
            None => Some(sec),
        }
    } else {
        p.end_time_sec
    };
    RecognitionProgress {
        start_time_sec: start,
        end_time_sec: end,
        victory: p.victory || hits.victory,
    }
}

/// How one frame changes what is known of a video. The start is set once,
/// at the first frame matching loading or banpick. The end is set once, at
/// the first frame matching the ending that is not before the known start
/// (any ending frame when no start is known, including one that sets the
/// start itself). A victory, once seen, stays.
pub proof fn lemma_observe_frame_law(p: RecognitionProgress, sec: u64, hits: FrameHits)
    ensures
        ({
            let q = observe_spec(p, sec, hits);
            &&& p.start_time_sec is Some ==> q.start_time_sec == p.start_time_sec
            &&& p.start_time_sec is None && (hits.loading || hits.banpick) ==> q.start_time_sec
                == Some(sec)
            &&& p.start_time_sec is None && !(hits.loading || hits.banpick)
                ==> q.start_time_sec is None
            &&& p.end_time_sec is Some ==> q.end_time_sec == p.end_time_sec
            &&& p.end_time_sec is None && !hits.ending ==> q.end_time_sec is None
            &&& p.end_time_sec is None && hits.ending && p.start_time_sec is Some && sec
                >= p.start_time_sec->0 ==> q.end_time_sec == Some(sec)
            &&& p.end_time_sec is None && hits.ending && p.start_time_sec is Some && sec
                < p.start_time_sec->0 ==> q.end_time_sec is None
            &&& p.end_time_sec is None && hits.ending && p.start_time_sec is None
                ==> q.end_time_sec == Some(sec)
            &&& q.victory == (p.victory || hits.victory)
        }),
{
}

impl RecognitionProgress {
    pub fn new() -> (r: RecognitionProgress)
        ensures
            r.start_time_sec is None,
            r.end_time_sec is None,
            !r.victory,
    {
        RecognitionProgress { start_time_sec: None, end_time_sec: None, victory: false }
    }

    /// Whether everything is known, so that no more frames are needed.
    pub open spec fn complete_spec(self) -> bool {
        self.start_time_sec is Some && self.end_time_sec is Some && self.victory
    }

    /// Takes the frame at `sec` into account; says whether the video is done.
    pub fn observe_frame(&mut self, sec: u64, hits: FrameHits) -> (done: bool)
        ensures
            *final(self) == observe_spec(*old(self), sec, hits),
            done == final(self).complete_spec(),
    {
        if self.start_time_sec.is_none() && (hits.loading || hits.banpick) {
            self.start_time_sec = Some(sec);
        }
        if self.end_time_sec.is_none() && hits.ending {
            match self.start_time_sec {
                Some(start) => {
                    if sec >= start {
                        self.end_time_sec = Some(sec);
                    }
                },
                None => {
                    self.end_time_sec = Some(sec);
                },
            }
        }
        if !self.victory && hits.victory {
            self.victory = true;
        }
        self.start_time_sec.is_some() && self.end_time_sec.is_some() && self.victory
    }
}

/// A frame never undoes what earlier frames established: a known start or
/// end stays as it is, and a victory stays; an end found while the start is
/// known is not before it.
pub proof fn lemma_observe_keeps(p: RecognitionProgress, sec: u64, hits: FrameHits)
    ensures
        p.start_time_sec is Some ==> observe_spec(p, sec, hits).start_time_sec == p.start_time_sec,
        p.end_time_sec is Some ==> observe_spec(p, sec, hits).end_time_sec == p.end_time_sec,
        p.victory ==> observe_spec(p, sec, hits).victory,
        p.end_time_sec is None && observe_spec(p, sec, hits).end_time_sec is Some ==> (
        observe_spec(p, sec, hits).end_time_sec == Some(sec)),
        (p.end_time_sec is None && observe_spec(p, sec, hits).end_time_sec is Some && observe_spec(
            p,
            sec,
            hits,
        ).start_time_sec is Some) ==> observe_spec(p, sec, hits).start_time_sec->0 <= sec,
{
}

} // verus!
