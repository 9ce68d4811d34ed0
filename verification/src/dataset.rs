//! The dataset samples: the fields of a sample that the labelling logic
//! reads and writes, which sample points of a video become new samples, the
//! rebalancing of negative samples, and the label and phase corrections made
//! while labelling.
use vstd::prelude::*;
use crate::rank::{
    count_selected, count_true, lemma_count_split, lemma_count_none, lemma_rank_bound,
    lemma_ranked_below_count, rank, rank_of, ranked_below, both, but_not,
};
use crate::phase::{
    class_id_spec, default_roi_spec, is_supported_phase_label, lemma_normalize_phase_idempotent,
    normalize_phase_name, normalize_phase_spec, phase_info, phase_labels,
};
use crate::text::{chars_eq_str, chars_of};

verus! {

/// The fields of a stored sample that labelling reads and writes.
///
/// The region is `[cx, cy, w, h]` as `f32` bit patterns; the confidence is
/// held as an order key: for two confidences `a` and `b` (not NaN),
/// `a < b` exactly when `key(a) < key(b)`.
pub struct SampleRecord {
    pub id: String,
    pub phase: String,
    pub class_id: u32,
    pub roi: [u32; 4],
    pub label_status: String,
    pub confidence_key: u32,
}

pub open spec fn correct_lit() -> Seq<char> {
    "correct"@
}

pub open spec fn wrong_lit() -> Seq<char> {
    "wrong"@
}

pub open spec fn pending_lit() -> Seq<char> {
    "pending"@
}

/// The label statuses of the samples.
pub open spec fn statuses_of(s: Seq<SampleRecord>) -> Seq<Seq<char>> {
    Seq::new(s.len(), |i: int| s[i].label_status@)
}

/// The confidence keys of the samples.
pub open spec fn keys_of(s: Seq<SampleRecord>) -> Seq<u32> {
    Seq::new(s.len(), |i: int| s[i].confidence_key)
}

/// Which statuses equal `lit`.
pub open spec fn flags(st: Seq<Seq<char>>, lit: Seq<char>) -> Seq<bool> {
    Seq::new(st.len(), |i: int| st[i] == lit)
}

/// How many statuses equal `lit`.
pub open spec fn count_lit(st: Seq<Seq<char>>, lit: Seq<char>) -> nat {
    count_true(flags(st, lit), st.len() as int)
}

/// Twice the positives, saturating at `usize::MAX`.
pub open spec fn negative_target(positives: nat) -> int {
    if 2 * positives > usize::MAX {
        usize::MAX as int
    } else {
        (2 * positives) as int
    }
}

/// The status of sample `i` after rebalancing. With `p > 0` correct samples
/// and `w` wrong ones, the aim is `t = 2p` wrong ones: when `w < t`, the
/// `t - w` pending samples of lowest confidence (earliest first among equal
/// confidences) become wrong; when `w > t`, the `w - t` wrong samples of
/// highest confidence (earliest first among equal ones) become pending.
pub open spec fn rebalance_status_at(st: Seq<Seq<char>>, keys: Seq<u32>, i: int) -> Seq<char> {
    let p = count_lit(st, correct_lit());
    let w = count_lit(st, wrong_lit()) as int;
    let t = negative_target(p);
    if p == 0 {
        st[i]
    } else if w < t && st[i] == pending_lit() && rank(keys, flags(st, pending_lit()), false, i)
        < t - w {
        wrong_lit()
    } else if w > t && st[i] == wrong_lit() && rank(keys, flags(st, wrong_lit()), true, i) < w
        - t {
        pending_lit()
    } else {
        st[i]
    }
}

pub open spec fn rebalance_statuses(st: Seq<Seq<char>>, keys: Seq<u32>) -> Seq<Seq<char>> {
    Seq::new(st.len(), |i: int| rebalance_status_at(st, keys, i))
}

/// Whether two sample lists differ at most in their label statuses.
pub open spec fn same_but_status(a: Seq<SampleRecord>, b: Seq<SampleRecord>) -> bool {
    &&& a.len() == b.len()
    &&& forall|i: int|
        0 <= i < a.len() ==> {
            &&& #[trigger] a[i].id == b[i].id
            &&& a[i].phase == b[i].phase
            &&& a[i].class_id == b[i].class_id
            &&& a[i].roi == b[i].roi
            &&& a[i].confidence_key == b[i].confidence_key
        }
}

/// The status flags of the samples, computed.
fn status_flags(samples: &Vec<SampleRecord>, lit: &str) -> (r: Vec<bool>)
    ensures
        r@ == flags(statuses_of(samples@), lit@),
{
    let n = samples.len();
    let mut r: Vec<bool> = Vec::new();
    for i in 0..n
        invariant
            n == samples@.len(),
            r@ == flags(statuses_of(samples@), lit@).take(i as int),
    {
        let v = chars_of(samples[i].label_status.as_str());
        r.push(chars_eq_str(&v, lit));
        assert(r@ =~= flags(statuses_of(samples@), lit@).take(i + 1));
    }
    assert(r@ =~= flags(statuses_of(samples@), lit@));
    r
}

fn confidence_keys(samples: &Vec<SampleRecord>) -> (r: Vec<u32>)
    ensures
        r@ == keys_of(samples@),
{
    let n = samples.len();
    let mut r: Vec<u32> = Vec::new();
    for i in 0..n
        invariant
            n == samples@.len(),
            r@ == keys_of(samples@).take(i as int),
    {
        r.push(samples[i].confidence_key);
        assert(r@ =~= keys_of(samples@).take(i + 1));
    }
    assert(r@ =~= keys_of(samples@));
    r
}

/// Keeps about two negative samples for each positive one (see
/// `rebalance_status_at`); only label statuses change.
pub fn rebalance_negative_ratio(samples: &mut Vec<SampleRecord>)
    ensures
        same_but_status(old(samples)@, final(samples)@),
        statuses_of(final(samples)@) == rebalance_statuses(
            statuses_of(old(samples)@),
            keys_of(old(samples)@),
        ),
{
    let ghost st = statuses_of(samples@);
    let ghost keys = keys_of(samples@);
    let n = samples.len();
    let correct = status_flags(samples, "correct");
    let wrong = status_flags(samples, "wrong");
    let pending = status_flags(samples, "pending");
    let key = confidence_keys(samples);
    let positives = count_selected(&correct);
    if positives == 0 {
        assert(statuses_of(samples@) =~= rebalance_statuses(st, keys));
        return;
    }
    let target: usize = if positives > usize::MAX / 2 { usize::MAX } else { positives * 2 };
    let negatives = count_selected(&wrong);
    assert(target == negative_target(count_lit(st, correct_lit())));
    if negatives < target {
        let need = target - negatives;
        for i in 0..n
            invariant
                n == samples@.len(),
                n == st.len(),
                key@ == keys,
                pending@ == flags(st, pending_lit()),
                negatives == count_lit(st, wrong_lit()),
                target == negative_target(count_lit(st, correct_lit())),
                count_lit(st, correct_lit()) > 0,
                negatives < target,
                need == target - negatives,
                same_but_status(old(samples)@, samples@),
                st == statuses_of(old(samples)@),
                keys == keys_of(old(samples)@),
                forall|j: int| 0 <= j < i ==> #[trigger] samples@[j].label_status@
                    == rebalance_status_at(st, keys, j),
                forall|j: int| i <= j < n ==> #[trigger] samples@[j].label_status@ == st[j],
        {
            if pending[i] && rank_of(&key, &pending, false, i) < need {
                samples[i].label_status = "wrong".to_owned();
            }
        }
    } else if negatives > target {
        let extra = negatives - target;
        for i in 0..n
            invariant
                n == samples@.len(),
                n == st.len(),
                key@ == keys,
                wrong@ == flags(st, wrong_lit()),
                negatives == count_lit(st, wrong_lit()),
                target == negative_target(count_lit(st, correct_lit())),
                count_lit(st, correct_lit()) > 0,
                negatives > target,
                extra == negatives - target,
                same_but_status(old(samples)@, samples@),
                st == statuses_of(old(samples)@),
                keys == keys_of(old(samples)@),
                forall|j: int| 0 <= j < i ==> #[trigger] samples@[j].label_status@
                    == rebalance_status_at(st, keys, j),
                forall|j: int| i <= j < n ==> #[trigger] samples@[j].label_status@ == st[j],
        {
            if wrong[i] && rank_of(&key, &wrong, true, i) < extra {
                samples[i].label_status = "pending".to_owned();
            }
        }
    }
    assert(statuses_of(samples@) =~= rebalance_statuses(st, keys));
}


proof fn lemma_status_literals_differ()
    ensures
        correct_lit() != wrong_lit(),
        correct_lit() != pending_lit(),
        wrong_lit() != pending_lit(),
{
    reveal_strlit("correct");
    reveal_strlit("wrong");
    reveal_strlit("pending");
    assert(correct_lit().len() != wrong_lit().len());
    assert(correct_lit()[0] != pending_lit()[0]);
    assert(wrong_lit().len() != pending_lit().len());
}

pub open spec fn min_int(a: int, b: int) -> int {
    if a <= b { a } else { b }
}

/// The number of wrong samples after rebalancing.
pub open spec fn rebalanced_wrong_count(st: Seq<Seq<char>>) -> int {
    let p = count_lit(st, correct_lit());
    let w = count_lit(st, wrong_lit()) as int;
    let q = count_lit(st, pending_lit()) as int;
    let t = negative_target(p);
    if p == 0 {
        w
    } else if w < t {
        w + min_int(t - w, q)
    } else if w > t {
        t
    } else {
        w
    }
}

/// Rebalancing keeps the positives and brings the negatives to twice the
/// positives, as far as the pending samples allow: with `p > 0` positives,
/// `w` negatives and `q` pending samples, there are afterwards
/// `min(2p, w + q)` negatives when `w < 2p`, and `2p` when `w > 2p`.
pub proof fn lemma_rebalance_counts(st: Seq<Seq<char>>, keys: Seq<u32>)
    requires
        keys.len() == st.len(),
    ensures
        count_lit(rebalance_statuses(st, keys), correct_lit()) == count_lit(st, correct_lit()),
        count_lit(rebalance_statuses(st, keys), wrong_lit()) == rebalanced_wrong_count(st),
{
    lemma_status_literals_differ();
    let r = rebalance_statuses(st, keys);
    let n = st.len() as int;
    let p = count_lit(st, correct_lit());
    let w = count_lit(st, wrong_lit()) as int;
    let t = negative_target(p);
    assert(flags(r, correct_lit()) =~= flags(st, correct_lit()));
    let rw = flags(r, wrong_lit());
    let sw = flags(st, wrong_lit());
    if p == 0 {
        assert(rw =~= sw);
    } else if w < t {
        let sp = flags(st, pending_lit());
        lemma_count_split(rw, sw, n);
        assert(both(rw, sw) =~= sw);
        assert(but_not(rw, sw) =~= ranked_below(keys, sp, false, t - w));
        lemma_ranked_below_count(keys, sp, false, t - w);
    } else if w > t {
        let below = Seq::new(sw.len(), |i: int| rank(keys, sw, true, i) < w - t);
        lemma_count_split(sw, below, n);
        assert(both(sw, below) =~= ranked_below(keys, sw, true, w - t));
        lemma_ranked_below_count(keys, sw, true, w - t);
        assert(rw =~= but_not(sw, below));
    } else {
        assert(rw =~= sw);
    }
}

/// Two selections that never pick the same item pick at most `u` of the
/// first `u` items together.
proof fn lemma_disjoint_counts(a: Seq<bool>, b: Seq<bool>, u: int)
    requires
        a.len() == b.len(),
        u <= a.len(),
        forall|i: int| 0 <= i < u ==> !(#[trigger] a[i] && b[i]),
    ensures
        count_true(a, u) + count_true(b, u) <= if u < 0 { 0 } else { u },
    decreases u,
{
    if u > 0 {
        lemma_disjoint_counts(a, b, u - 1);
        assert(!(a[u - 1] && b[u - 1]));
    }
}

/// The negatives after rebalancing, stated on the counts alone: with `p`
/// correct, `w` wrong and `q` pending samples, nothing changes when `p` is
/// 0; otherwise the positives stay `p`, and there are `min(2p, w + q)`
/// wrong samples when `w < 2p`, and exactly `2p` when `w >= 2p`.
pub proof fn lemma_rebalance_makes_twice_the_positives_negative(st: Seq<Seq<char>>, keys: Seq<u32>)
    requires
        keys.len() == st.len(),
        st.len() <= usize::MAX,
    ensures
        ({
            let r = rebalance_statuses(st, keys);
            let p = count_lit(st, correct_lit()) as int;
            let w = count_lit(st, wrong_lit()) as int;
            let q = count_lit(st, pending_lit()) as int;
            &&& p == 0 ==> r == st
            &&& count_lit(r, correct_lit()) == p
            &&& p > 0 && w < 2 * p ==> count_lit(r, wrong_lit()) == if 2 * p <= w + q {
                2 * p
            } else {
                w + q
            }
            &&& p > 0 && w >= 2 * p ==> count_lit(r, wrong_lit()) == 2 * p
        }),
{
    lemma_status_literals_differ();
    lemma_rebalance_counts(st, keys);
    let n = st.len() as int;
    let p = count_lit(st, correct_lit()) as int;
    let w = count_lit(st, wrong_lit()) as int;
    let q = count_lit(st, pending_lit()) as int;
    if p == 0 {
        assert(rebalance_statuses(st, keys) =~= st);
    }
    lemma_disjoint_counts(flags(st, wrong_lit()), flags(st, pending_lit()), n);
    crate::rank::lemma_count_true_bound(flags(st, wrong_lit()), n);
}

/// Which samples rebalancing changes: only pending samples become wrong and
/// only wrong samples become pending, never both in one call; a pending
/// sample that becomes wrong is no more confident than any pending sample
/// that stays pending, and a wrong sample that becomes pending is no less
/// confident than any wrong sample that stays wrong.
pub proof fn lemma_rebalance_moves_least_certain(st: Seq<Seq<char>>, keys: Seq<u32>, i: int, j: int)
    requires
        keys.len() == st.len(),
        0 <= i < st.len(),
        0 <= j < st.len(),
    ensures
        ({
            let r = rebalance_statuses(st, keys);
            &&& r[i] != st[i] ==> (st[i] == pending_lit() && r[i] == wrong_lit()) || (st[i]
                == wrong_lit() && r[i] == pending_lit())
            &&& st[i] == pending_lit() && r[i] == wrong_lit() ==> !(st[j] == wrong_lit()
                && r[j] == pending_lit())
            &&& st[i] == pending_lit() && r[i] == wrong_lit() && st[j] == pending_lit() && r[j]
                == pending_lit() ==> keys[i] <= keys[j]
            &&& st[i] == wrong_lit() && r[i] == pending_lit() && st[j] == wrong_lit() && r[j]
                == wrong_lit() ==> keys[i] >= keys[j]
        }),
{
    lemma_status_literals_differ();
    let r = rebalance_statuses(st, keys);
    let sp = flags(st, pending_lit());
    let sw = flags(st, wrong_lit());
    if st[i] == pending_lit() && r[i] == wrong_lit() && st[j] == pending_lit() && r[j]
        == pending_lit() && keys[j] < keys[i] {
        crate::rank::lemma_rank_lt(keys, sp, false, j, i);
    }
    if st[i] == wrong_lit() && r[i] == pending_lit() && st[j] == wrong_lit() && r[j]
        == wrong_lit() && keys[j] > keys[i] {
        crate::rank::lemma_rank_lt(keys, sw, true, j, i);
    }
}

/// Rebalancing a second time changes nothing.
pub proof fn lemma_rebalance_idempotent(st: Seq<Seq<char>>, keys: Seq<u32>)
    requires
        keys.len() == st.len(),
    ensures
        rebalance_statuses(rebalance_statuses(st, keys), keys) == rebalance_statuses(st, keys),
{
    lemma_status_literals_differ();
    lemma_rebalance_counts(st, keys);
    let r = rebalance_statuses(st, keys);
    let n = st.len() as int;
    let p = count_lit(st, correct_lit());
    let w = count_lit(st, wrong_lit()) as int;
    let q = count_lit(st, pending_lit()) as int;
    let t = negative_target(p);
    let w2 = count_lit(r, wrong_lit()) as int;
    if p == 0 || w2 == t {
        assert(rebalance_statuses(r, keys) =~= r);
    } else {
        // Fewer than t negatives remain: every pending sample became negative.
        assert(w < t && q < t - w);
        let sp = flags(st, pending_lit());
        assert forall|i: int| 0 <= i < n implies r[i] != pending_lit() by {
            if st[i] == pending_lit() {
                lemma_rank_bound(keys, sp, false, i);
            }
        }
        assert(rebalance_statuses(r, keys) =~= r);
    }
}


// ---------------------------------------------------------------------------
// Label and phase corrections
// ---------------------------------------------------------------------------

/// What the labelling logic sees of a sample.
pub ghost struct SampleView {
    pub id: Seq<char>,
    pub phase: Seq<char>,
    pub class_id: u32,
    pub roi: [u32; 4],
    pub label_status: Seq<char>,
    pub confidence_key: u32,
}

pub open spec fn view_of(r: SampleRecord) -> SampleView {
    SampleView {
        id: r.id@,
        phase: r.phase@,
        class_id: r.class_id,
        roi: r.roi,
        label_status: r.label_status@,
        confidence_key: r.confidence_key,
    }
}

pub open spec fn views(s: Seq<SampleRecord>) -> Seq<SampleView> {
    Seq::new(s.len(), |i: int| view_of(s[i]))
}

/// Why a label or phase correction is refused.
#[derive(Clone, Copy, Debug, PartialEq, Eq)]
pub enum LabelError {
    /// The status is not `correct`, `wrong` or `pending`.
    UnsupportedStatus,
    /// The phase does not normalise to one of the six labels.
    UnsupportedPhase,
}

/// The statuses a sample may be given.
pub open spec fn is_valid_status_spec(status: Seq<char>) -> bool {
    status == correct_lit() || status == wrong_lit() || status == pending_lit()
}

pub fn is_valid_label_status(status: &str) -> (r: bool)
    ensures
        r == is_valid_status_spec(status@),
{
    let v = chars_of(status);
    chars_eq_str(&v, "correct") || chars_eq_str(&v, "wrong") || chars_eq_str(&v, "pending")
}

/// The index of the first sample with the given id, or -1.
pub open spec fn first_with_id(s: Seq<SampleView>, id: Seq<char>) -> int
    decreases s.len(),
{
    if s.len() == 0 {
        -1
    } else {
        let f = first_with_id(s.drop_last(), id);
        if f >= 0 {
            f
        } else if s.last().id == id {
            s.len() - 1
        } else {
            -1
        }
    }
}

pub proof fn lemma_first_with_id(s: Seq<SampleView>, id: Seq<char>)
    ensures
        -1 <= first_with_id(s, id) < s.len(),
        first_with_id(s, id) >= 0 ==> s[first_with_id(s, id)].id == id,
        forall|j: int| 0 <= j < s.len() && (first_with_id(s, id) < 0 || j < first_with_id(s, id))
            ==> s[j].id != id,
    decreases s.len(),
{
    if s.len() > 0 {
        lemma_first_with_id(s.drop_last(), id);
        assert forall|j: int|
            0 <= j < s.len() && (first_with_id(s, id) < 0 || j < first_with_id(s, id)) implies s[j].id
            != id by {
            if j < s.len() - 1 {
                assert(s[j] == s.drop_last()[j]);
            }
        }
    }
}

/// The samples after setting the status of the first one with the id.
pub open spec fn label_update(s: Seq<SampleView>, id: Seq<char>, status: Seq<char>) -> Seq<SampleView> {
    let k = first_with_id(s, id);
    if k < 0 {
        s
    } else {
        s.update(k, SampleView { label_status: status, ..s[k] })
    }
}

/// The samples after giving the first one with the id a normalised phase,
/// with its class id and default region.
pub open spec fn phase_update(s: Seq<SampleView>, id: Seq<char>, phase: Seq<char>) -> Seq<SampleView> {
    let k = first_with_id(s, id);
    let c = class_id_spec(phase);
    if k < 0 {
        s
    } else {
        s.update(k, SampleView { phase: phase, class_id: c, roi: default_roi_spec(c), ..s[k] })
    }
}

/// Finds the first sample with the id.
fn find_first(samples: &Vec<SampleRecord>, id: &String) -> (r: Option<usize>)
    ensures
        match r {
            Some(k) => k as int == first_with_id(views(samples@), id@) && k < samples@.len(),
            None => first_with_id(views(samples@), id@) < 0,
        },
{
    let n = samples.len();
    proof {
        lemma_first_with_id(views(samples@), id@);
    }
    for i in 0..n
        invariant
            n == samples@.len(),
            n == views(samples@).len(),
            -1 <= first_with_id(views(samples@), id@) < n,
            first_with_id(views(samples@), id@) >= 0 ==> views(samples@)[first_with_id(
                views(samples@),
                id@,
            )].id == id@,
            forall|j: int|
                0 <= j < n && (first_with_id(views(samples@), id@) < 0 || j < first_with_id(
                    views(samples@),
                    id@,
                )) ==> views(samples@)[j].id != id@,
            forall|j: int| 0 <= j < i ==> views(samples@)[j].id != id@,
    {
        if samples[i].id == *id {
            assert(views(samples@)[i as int].id == id@);
            return Some(i);
        }
    }
    None
}

/// Sets the label status of the first sample with the id; says whether one
/// was found. A status other than `correct`, `wrong` or `pending` is refused
/// and changes nothing.
pub fn set_sample_label(samples: &mut Vec<SampleRecord>, sample_id: &str, status: &str) -> (r:
    Result<bool, LabelError>)
    ensures
        !is_valid_status_spec(status@) ==> r == Err::<bool, LabelError>(
            LabelError::UnsupportedStatus,
        ) && final(samples)@ == old(samples)@,
        is_valid_status_spec(status@) ==> {
            &&& r == Ok::<bool, LabelError>(first_with_id(views(old(samples)@), sample_id@) >= 0)
            &&& views(final(samples)@) == label_update(
                views(old(samples)@),
                sample_id@,
                status@,
            )
        },
{
    if !is_valid_label_status(status) {
        return Err(LabelError::UnsupportedStatus);
    }
    let id = sample_id.to_owned();
    match find_first(samples, &id) {
        Some(k) => {
            samples[k].label_status = status.to_owned();
            assert(views(samples@) =~= label_update(views(old(samples)@), sample_id@, status@));
            Ok(true)
        },
        None => {
            assert(views(samples@) =~= label_update(views(old(samples)@), sample_id@, status@));
            Ok(false)
        },
    }
}

/// Gives the first sample with the id a corrected phase: the phase is
/// normalised, and the sample takes its name, class id and default region;
/// says whether one was found. A phase that does not normalise to one of the
/// six labels is refused and changes nothing.
pub fn set_sample_phase(samples: &mut Vec<SampleRecord>, sample_id: &str, phase: &str) -> (r:
    Result<bool, LabelError>)
    ensures
        !phase_labels().contains(normalize_phase_spec(phase@)) ==> r == Err::<bool, LabelError>(
            LabelError::UnsupportedPhase,
        ) && final(samples)@ == old(samples)@,
        phase_labels().contains(normalize_phase_spec(phase@)) ==> {
            &&& r == Ok::<bool, LabelError>(first_with_id(views(old(samples)@), sample_id@) >= 0)
            &&& views(final(samples)@) == phase_update(
                views(old(samples)@),
                sample_id@,
                normalize_phase_spec(phase@),
            )
        },
{
    let normalized = normalize_phase_name(phase);
    if !is_supported_phase_label(normalized.as_str()) {
        return Err(LabelError::UnsupportedPhase);
    }
    let id = sample_id.to_owned();
    match find_first(samples, &id) {
        Some(k) => {
            let info = phase_info(normalized.as_str());
            proof {
                lemma_normalize_phase_idempotent(phase@);
            }
            samples[k].phase = normalized;
            samples[k].class_id = info.class_id;
            samples[k].roi = info.roi;
            assert(views(samples@) =~= phase_update(
                views(old(samples)@),
                sample_id@,
                normalize_phase_spec(phase@),
            ));
            Ok(true)
        },
        None => {
            assert(views(samples@) =~= phase_update(
                views(old(samples)@),
                sample_id@,
                normalize_phase_spec(phase@),
            ));
            Ok(false)
        },
    }
}

/// Setting the same status again changes nothing more.
pub proof fn lemma_label_update_idempotent(s: Seq<SampleView>, id: Seq<char>, status: Seq<char>)
    ensures
        label_update(label_update(s, id, status), id, status) == label_update(s, id, status),
        first_with_id(label_update(s, id, status), id) == first_with_id(s, id),
{
    let k = first_with_id(s, id);
    lemma_first_with_id(s, id);
    if k >= 0 {
        let v = SampleView { label_status: status, ..s[k] };
        lemma_first_with_update(s, id, k, v);
        let s1 = s.update(k, v);
        assert(s1[k] == v);
        assert(label_update(s1, id, status) =~= s1);
    }
}

/// Updating a sample without changing its id keeps the first match.
proof fn lemma_first_with_update(s: Seq<SampleView>, id: Seq<char>, k: int, v: SampleView)
    requires
        k == first_with_id(s, id),
        k >= 0 ==> v.id == s[k].id,
    ensures
        k >= 0 ==> first_with_id(s.update(k, v), id) == k,
{
    if k >= 0 {
        lemma_first_with_id(s, id);
        lemma_first_with_id(s.update(k, v), id);
        let f = first_with_id(s.update(k, v), id);
        if f >= 0 && f < k {
            assert(s[f] == s.update(k, v)[f]);
        }
        assert(s.update(k, v)[k].id == id);
    }
}


/// The ids, as character sequences.
pub open spec fn id_views(ids: Seq<String>) -> Seq<Seq<char>> {
    Seq::new(ids.len(), |j: int| ids[j]@)
}

fn contains_id(ids: &Vec<String>, id: &String) -> (r: bool)
    ensures
        r == id_views(ids@).contains(id@),
{
    let n = ids.len();
    for j in 0..n
        invariant
            n == ids@.len(),
            forall|k: int| 0 <= k < j ==> id_views(ids@)[k] != id@,
    {
        if ids[j] == *id {
            assert(id_views(ids@)[j as int] == id@);
            return true;
        }
    }
    false
}

/// Which samples a bulk status change alters: those listed whose status differs.
pub open spec fn bulk_label_changed(s: Seq<SampleView>, targets: Seq<Seq<char>>, status: Seq<char>) -> Seq<bool> {
    Seq::new(s.len(), |i: int| targets.contains(s[i].id) && s[i].label_status != status)
}

pub open spec fn bulk_label(s: Seq<SampleView>, targets: Seq<Seq<char>>, status: Seq<char>) -> Seq<SampleView> {
    Seq::new(
        s.len(),
        |i: int|
            if targets.contains(s[i].id) && s[i].label_status != status {
                SampleView { label_status: status, ..s[i] }
            } else {
                s[i]
            },
    )
}

/// Sets the status of every listed sample; returns how many changed. A status
/// other than `correct`, `wrong` or `pending` is refused, and an empty list
/// changes nothing.
pub fn set_sample_labels_bulk(samples: &mut Vec<SampleRecord>, sample_ids: &Vec<String>, status: &str) -> (r:
    Result<usize, LabelError>)
    ensures
        !is_valid_status_spec(status@) ==> r == Err::<usize, LabelError>(
            LabelError::UnsupportedStatus,
        ) && final(samples)@ == old(samples)@,
        is_valid_status_spec(status@) ==> {
            &&& r == Ok::<usize, LabelError>(
                count_true(
                    bulk_label_changed(views(old(samples)@), id_views(sample_ids@), status@),
                    old(samples)@.len() as int,
                ) as usize,
            )
            &&& views(final(samples)@) == bulk_label(
                views(old(samples)@),
                id_views(sample_ids@),
                status@,
            )
        },
{
    if !is_valid_label_status(status) {
        return Err(LabelError::UnsupportedStatus);
    }
    let ghost s0 = views(samples@);
    let ghost targets = id_views(sample_ids@);
    let ghost changed = bulk_label_changed(s0, targets, status@);
    if sample_ids.len() == 0 {
        assert(changed =~= Seq::new(s0.len(), |i: int| false));
        proof {
            crate::rank::lemma_count_none(changed, s0.len() as int);
        }
        assert(views(samples@) =~= bulk_label(s0, targets, status@));
        return Ok(0);
    }
    let st = status.to_owned();
    let n = samples.len();
    let mut count: usize = 0;
    for i in 0..n
        invariant
            n == samples@.len(),
            n == s0.len(),
            st@ == status@,
            targets == id_views(sample_ids@),
            changed == bulk_label_changed(s0, targets, status@),
            count == count_true(changed, i as int),
            count <= i,
            forall|j: int| 0 <= j < i ==> #[trigger] views(samples@)[j] == bulk_label(
                s0,
                targets,
                status@,
            )[j],
            forall|j: int| i <= j < n ==> #[trigger] views(samples@)[j] == s0[j],
    {
        let ghost prev = samples@;
        assert(views(samples@)[i as int] == s0[i as int]);
        let listed = contains_id(sample_ids, &samples[i].id);
        let differs = !(samples[i].label_status == st);
        assert(changed[i as int] == (listed && differs));
        if listed && differs {
            samples[i].label_status = st.clone();
            count = count + 1;
        }
        assert(views(samples@)[i as int] == bulk_label(s0, targets, status@)[i as int]);
        assert forall|j: int| 0 <= j < n && j != i implies views(samples@)[j] == views(prev)[j] by {
            assert(samples@[j] == prev[j]);
        }
        assert forall|j: int| 0 <= j < i + 1 implies #[trigger] views(samples@)[j] == bulk_label(s0, targets, status@)[j] by {
            if j < i {
                assert(views(samples@)[j] == views(prev)[j]);
            }
        }
        assert forall|j: int| i + 1 <= j < n implies #[trigger] views(samples@)[j] == s0[j] by {
            assert(views(samples@)[j] == views(prev)[j]);
        }
    }
    assert(views(samples@) =~= bulk_label(s0, targets, status@));
    Ok(count)
}

/// After a bulk status change, repeating it changes no sample.
pub proof fn lemma_bulk_label_settles(s: Seq<SampleView>, targets: Seq<Seq<char>>, status: Seq<char>)
    ensures
        count_true(bulk_label_changed(bulk_label(s, targets, status), targets, status), s.len() as int)
            == 0,
{
    let s1 = bulk_label(s, targets, status);
    crate::rank::lemma_count_none(bulk_label_changed(s1, targets, status), s.len() as int);
}

/// Which samples a bulk phase change alters: those listed whose phase, class
/// id or region differs from the new phase's.
pub open spec fn bulk_phase_changed(s: Seq<SampleView>, targets: Seq<Seq<char>>, phase: Seq<char>) -> Seq<bool> {
    let c = class_id_spec(phase);
    Seq::new(
        s.len(),
        |i: int|
            targets.contains(s[i].id) && (s[i].phase != phase || s[i].class_id != c || !same_roi(
                s[i].roi,
                default_roi_spec(c),
            )),
    )
}

pub open spec fn bulk_phase(s: Seq<SampleView>, targets: Seq<Seq<char>>, phase: Seq<char>) -> Seq<SampleView> {
    let c = class_id_spec(phase);
    Seq::new(
        s.len(),
        |i: int|
            if bulk_phase_changed(s, targets, phase)[i] {
                SampleView { phase: phase, class_id: c, roi: default_roi_spec(c), ..s[i] }
            } else {
                s[i]
            },
    )
}

/// Whether two regions hold the same four coordinates.
pub open spec fn same_roi(a: [u32; 4], b: [u32; 4]) -> bool {
    a[0] == b[0] && a[1] == b[1] && a[2] == b[2] && a[3] == b[3]
}

fn roi_eq(a: [u32; 4], b: [u32; 4]) -> (r: bool)
    ensures
        r == same_roi(a, b),
{
    a[0] == b[0] && a[1] == b[1] && a[2] == b[2] && a[3] == b[3]
}

/// Gives every listed sample a corrected phase, with its class id and
/// default region; returns how many changed. An empty list changes nothing;
/// otherwise a phase that does not normalise to one of the six labels is
/// refused.
pub fn set_sample_phases_bulk(samples: &mut Vec<SampleRecord>, sample_ids: &Vec<String>, phase: &str) -> (r:
    Result<usize, LabelError>)
    ensures
        sample_ids@.len() == 0 ==> r == Ok::<usize, LabelError>(0) && final(samples)@ == old(
            samples,
        )@,
        sample_ids@.len() > 0 && !phase_labels().contains(normalize_phase_spec(phase@)) ==> r
            == Err::<usize, LabelError>(LabelError::UnsupportedPhase) && final(samples)@ == old(
            samples,
        )@,
        sample_ids@.len() > 0 && phase_labels().contains(normalize_phase_spec(phase@)) ==> {
            &&& r == Ok::<usize, LabelError>(
                count_true(
                    bulk_phase_changed(
                        views(old(samples)@),
                        id_views(sample_ids@),
                        normalize_phase_spec(phase@),
                    ),
                    old(samples)@.len() as int,
                ) as usize,
            )
            &&& views(final(samples)@) == bulk_phase(
                views(old(samples)@),
                id_views(sample_ids@),
                normalize_phase_spec(phase@),
            )
        },
{
    if sample_ids.len() == 0 {
        return Ok(0);
    }
    let normalized = normalize_phase_name(phase);
    if !is_supported_phase_label(normalized.as_str()) {
        return Err(LabelError::UnsupportedPhase);
    }
    let info = phase_info(normalized.as_str());
    proof {
        lemma_normalize_phase_idempotent(phase@);
    }
    let ghost np = normalize_phase_spec(phase@);
    let ghost s0 = views(samples@);
    let ghost targets = id_views(sample_ids@);
    let ghost changed = bulk_phase_changed(s0, targets, np);
    assert(info.class_id == class_id_spec(np) && info.roi == default_roi_spec(info.class_id));
    let n = samples.len();
    let mut count: usize = 0;
    for i in 0..n
        invariant
            n == samples@.len(),
            n == s0.len(),
            normalized@ == np,
            info.class_id == class_id_spec(np),
            info.roi == default_roi_spec(info.class_id),
            targets == id_views(sample_ids@),
            changed == bulk_phase_changed(s0, targets, np),
            count == count_true(changed, i as int),
            count <= i,
            forall|j: int| 0 <= j < i ==> #[trigger] views(samples@)[j] == bulk_phase(
                s0,
                targets,
                np,
            )[j],
            forall|j: int| i <= j < n ==> #[trigger] views(samples@)[j] == s0[j],
    {
        let ghost prev = samples@;
        assert(views(samples@)[i as int] == s0[i as int]);
        let listed = contains_id(sample_ids, &samples[i].id);
        let differs = !(samples[i].phase == normalized) || samples[i].class_id != info.class_id
            || !roi_eq(samples[i].roi, info.roi);
        assert(changed[i as int] == (listed && differs));
        if listed && differs {
            samples[i].phase = normalized.clone();
            samples[i].class_id = info.class_id;
            samples[i].roi = info.roi;
            count = count + 1;
        }
        assert(views(samples@)[i as int] == bulk_phase(s0, targets, np)[i as int]);
        assert forall|j: int| 0 <= j < n && j != i implies views(samples@)[j] == views(prev)[j] by {
            assert(samples@[j] == prev[j]);
        }
        assert forall|j: int| 0 <= j < i + 1 implies #[trigger] views(samples@)[j] == bulk_phase(s0, targets, np)[j] by {
            if j < i {
                assert(views(samples@)[j] == views(prev)[j]);
            }
        }
        assert forall|j: int| i + 1 <= j < n implies #[trigger] views(samples@)[j] == s0[j] by {
            assert(views(samples@)[j] == views(prev)[j]);
        }
    }
    assert(views(samples@) =~= bulk_phase(s0, targets, np));
    Ok(count)
}

/// After a bulk phase change, repeating it changes no sample.
pub proof fn lemma_bulk_phase_settles(s: Seq<SampleView>, targets: Seq<Seq<char>>, phase: Seq<char>)
    ensures
        count_true(bulk_phase_changed(bulk_phase(s, targets, phase), targets, phase), s.len() as int)
            == 0,
{
    let s1 = bulk_phase(s, targets, phase);
    crate::rank::lemma_count_none(bulk_phase_changed(s1, targets, phase), s.len() as int);
}


// ---------------------------------------------------------------------------
// Resuming from the staging list of an earlier build
// ---------------------------------------------------------------------------

/// What a build keeps of the staging list written by an earlier one.
pub struct ResumeState {
    /// How many of the earlier samples stay, in order, at the head of the list.
    pub kept: usize,
    /// The ids that are not to be added again.
    pub known_ids: Vec<String>,
    /// The videos that are not to be sampled again.
    pub completed_videos: Vec<String>,
}

/// The non-empty video paths among `paths`, in order.
pub open spec fn non_empty_paths(paths: Seq<Seq<char>>) -> Seq<Seq<char>>
    decreases paths.len(),
{
    if paths.len() == 0 {
        Seq::empty()
    } else {
        let rest = non_empty_paths(paths.drop_last());
        if paths.last().len() > 0 {
            rest.push(paths.last())
        } else {
            rest
        }
    }
}

/// Where an earlier build's samples (`ids[i]` and `video_paths[i]` of each)
/// leave a new build: when existing work is kept, all of them stay at the
/// head of the list, their ids are known, and each non-empty video path is
/// a completed video; otherwise the build starts from nothing.
pub fn resume_from_existing(ids: &Vec<String>, video_paths: &Vec<String>, skip_existing: bool) -> (r: ResumeState)
    requires
        ids@.len() == video_paths@.len(),
    ensures
        skip_existing ==> {
            &&& r.kept == ids@.len()
            &&& id_views(r.known_ids@) == id_views(ids@)
            &&& id_views(r.completed_videos@) == non_empty_paths(id_views(video_paths@))
        },
        !skip_existing ==> r.kept == 0 && r.known_ids@.len() == 0 && r.completed_videos@.len() == 0,
{
    let mut known_ids: Vec<String> = Vec::new();
    let mut completed_videos: Vec<String> = Vec::new();
    if !skip_existing {
        return ResumeState { kept: 0, known_ids, completed_videos };
    }
    let n = ids.len();
    let ghost pv = id_views(video_paths@);
    for i in 0..n
        invariant
            n == ids@.len(),
            n == video_paths@.len(),
            pv == id_views(video_paths@),
            id_views(known_ids@) == id_views(ids@).take(i as int),
            id_views(completed_videos@) == non_empty_paths(pv.take(i as int)),
    {
        let ghost k0 = known_ids@;
        let ghost c0 = completed_videos@;
        assert(k0.len() == i) by {
            assert(id_views(k0).len() == k0.len());
        }
        let c = ids[i].clone();
        known_ids.push(c);
        assert(id_views(known_ids@) =~= id_views(ids@).take(i + 1)) by {
            assert forall|j: int| 0 <= j < i + 1 implies id_views(known_ids@)[j] == id_views(ids@).take(i + 1)[j] by {
                if j < i {
                    assert(known_ids@[j] == k0[j]);
                    assert(id_views(k0)[j] == id_views(ids@).take(i as int)[j]);
                } else {
                    assert(known_ids@[j] == c);
                }
            }
        }
        assert(pv.take(i + 1).drop_last() =~= pv.take(i as int));
        if !video_paths[i].as_str().is_empty() {
            completed_videos.push(video_paths[i].clone());
            assert(id_views(completed_videos@) =~= id_views(c0).push(pv[i as int])) by {
                assert forall|j: int| 0 <= j < i + 1 && j < completed_videos@.len() implies id_views(completed_videos@)[j] == id_views(c0).push(pv[i as int])[j] by {
                    if j < c0.len() {
                        assert(completed_videos@[j] == c0[j]);
                    }
                }
            }
        }
        assert(id_views(completed_videos@) =~= non_empty_paths(pv.take(i + 1)));
    }
    proof {
        assert(id_views(ids@).take(n as int) =~= id_views(ids@));
        assert(pv.take(n as int) =~= pv);
    }
    ResumeState { kept: n, known_ids, completed_videos }
}

/// Whether a video is passed over: existing work is kept and the video is
/// among the completed ones.
pub fn is_completed_video(completed: &Vec<String>, path: &String, skip_existing: bool) -> (r: bool)
    ensures
        r == (skip_existing && id_views(completed@).contains(path@)),
{
    skip_existing && contains_id(completed, path)
}

/// Records a video as completed once a build added samples of it.
pub fn mark_completed(completed: &mut Vec<String>, path: &String, added: usize)
    ensures
        id_views(final(completed)@) == if added > 0 {
            id_views(old(completed)@).push(path@)
        } else {
            id_views(old(completed)@)
        },
{
    if added > 0 {
        let ghost c0 = completed@;
        completed.push(path.clone());
        assert(id_views(completed@) =~= id_views(c0).push(path@)) by {
            assert forall|j: int| 0 <= j < completed@.len() implies id_views(completed@)[j] == id_views(c0).push(path@)[j] by {
                if j < c0.len() {
                    assert(completed@[j] == c0[j]);
                }
            }
        }
    }
}

// ---------------------------------------------------------------------------
// Which sample points of a video become new samples
// ---------------------------------------------------------------------------

/// Whether the frame of a sample point is extracted: its sample is not in
/// the staging list yet and, where existing work is kept, its frame is not
/// on disk already.
pub open spec fn needs_extraction(known: bool, frame_on_disk: bool, skip_existing: bool) -> bool {
    !known && !(skip_existing && frame_on_disk)
}

/// The indices, in order, of the first `n` sample points whose frame is
/// extracted.
pub open spec fn extraction_indices(known: Seq<bool>, on_disk: Seq<bool>, skip_existing: bool, n: int) -> Seq<usize>
    decreases n,
{
    if n <= 0 {
        Seq::empty()
    } else {
        let rest = extraction_indices(known, on_disk, skip_existing, n - 1);
        if needs_extraction(known[n - 1], on_disk[n - 1], skip_existing) {
            rest.push((n - 1) as usize)
        } else {
            rest
        }
    }
}

/// The sample points of a video whose frame is extracted (see
/// `needs_extraction`), by index. `known[i]` says whether the sample of
/// point `i` is in the staging list, `on_disk[i]` whether its frame file
/// exists.
pub fn frames_to_extract(known: &Vec<bool>, on_disk: &Vec<bool>, skip_existing: bool) -> (r: Vec<usize>)
    requires
        known@.len() == on_disk@.len(),
    ensures
        r@ == extraction_indices(known@, on_disk@, skip_existing, known@.len() as int),
        forall|k: int| 0 <= k < r@.len() ==> r@[k] < known@.len() && !known@[r@[k] as int],
        forall|k: int, l: int| 0 <= k < l < r@.len() ==> r@[k] < r@[l],
{
    let n = known.len();
    let mut r: Vec<usize> = Vec::new();
    for i in 0..n
        invariant
            n == known@.len(),
            n == on_disk@.len(),
            r@ == extraction_indices(known@, on_disk@, skip_existing, i as int),
            forall|k: int| 0 <= k < r@.len() ==> r@[k] < i && !known@[r@[k] as int],
            forall|k: int, l: int| 0 <= k < l < r@.len() ==> r@[k] < r@[l],
    {
        if !known[i] && !(skip_existing && on_disk[i]) {
            r.push(i);
        }
    }
    r
}

/// The ids of the chosen points.
pub open spec fn ids_at(ids: Seq<Seq<char>>, chosen: Seq<usize>) -> Seq<Seq<char>> {
    Seq::new(chosen.len(), |k: int| ids[chosen[k] as int])
}

/// The indices, in order, of the first `n` sample points that become new
/// samples: a point is taken when its sample is not in the staging list,
/// its frame is available, and no point taken before it has the same id.
pub open spec fn new_sample_indices(ids: Seq<Seq<char>>, known: Seq<bool>, available: Seq<bool>, n: int) -> Seq<usize>
    decreases n,
{
    if n <= 0 {
        Seq::empty()
    } else {
        let rest = new_sample_indices(ids, known, available, n - 1);
        if !known[n - 1] && available[n - 1] && !ids_at(ids, rest).contains(ids[n - 1]) {
            rest.push((n - 1) as usize)
        } else {
            rest
        }
    }
}

/// The sample points of a video that become new samples, by index (see
/// `new_sample_indices`). `ids[i]` is the sample id of point `i`, `known[i]`
/// whether that id is in the staging list, and `available[i]` whether the
/// frame of point `i` is on disk or was just extracted. No id is taken
/// twice, and none that is already known.
pub fn new_sample_points(ids: &Vec<String>, known: &Vec<bool>, available: &Vec<bool>) -> (r: Vec<usize>)
    requires
        ids@.len() == known@.len(),
        ids@.len() == available@.len(),
    ensures
        r@ == new_sample_indices(id_views(ids@), known@, available@, ids@.len() as int),
        forall|k: int|
            0 <= k < r@.len() ==> r@[k] < ids@.len() && !known@[r@[k] as int] && available@[r@[k] as int],
        forall|k: int, l: int| 0 <= k < l < r@.len() ==> r@[k] < r@[l],
        forall|k: int, l: int|
            0 <= k < l < r@.len() ==> ids@[r@[k] as int]@ != ids@[r@[l] as int]@,
{
    let n = ids.len();
    let ghost idv = id_views(ids@);
    let mut r: Vec<usize> = Vec::new();
    let mut taken: Vec<String> = Vec::new();
    for i in 0..n
        invariant
            n == ids@.len(),
            n == known@.len(),
            n == available@.len(),
            idv == id_views(ids@),
            r@ == new_sample_indices(idv, known@, available@, i as int),
            id_views(taken@) == ids_at(idv, r@),
            forall|k: int|
                0 <= k < r@.len() ==> r@[k] < i && !known@[r@[k] as int] && available@[r@[k] as int],
            forall|k: int, l: int| 0 <= k < l < r@.len() ==> r@[k] < r@[l],
            forall|k: int, l: int| 0 <= k < l < r@.len() ==> idv[r@[k] as int] != idv[r@[l] as int],
    {
        if !known[i] && available[i] {
            let id = &ids[i];
            assert(id@ == idv[i as int]);
            if !contains_id(&taken, id) {
                proof {
                    assert forall|k: int| 0 <= k < r@.len() implies idv[r@[k] as int] != idv[i as int] by {
                        assert(ids_at(idv, r@)[k] == idv[r@[k] as int]);
                    }
                }
                let ghost r0 = r@;
                let ghost t0 = taken@;
                assert(t0.len() == id_views(t0).len());
                assert(r0.len() == ids_at(idv, r0).len());
                r.push(i);
                let c = id.clone();
                assert(c@ == idv[i as int]);
                taken.push(c);
                assert(taken@.len() == r@.len());
                assert forall|k: int| 0 <= k < r@.len() implies id_views(taken@)[k] == ids_at(idv, r@)[k] by {
                    if k < r0.len() {
                        assert(id_views(t0)[k] == ids_at(idv, r0)[k]);
                    } else {
                        assert(taken@[k] == c);
                        assert(r@[k] == i);
                    }
                }
                assert(id_views(taken@) =~= ids_at(idv, r@));
            }
        }
    }
    r
}

// ---------------------------------------------------------------------------
// Counting and default labels
// ---------------------------------------------------------------------------

/// How many samples have the given status.
pub fn count_label_status(samples: &Vec<SampleRecord>, status: &str) -> (r: usize)
    ensures
        r == count_lit(statuses_of(samples@), status@),
{
    let f = status_flags(samples, status);
    count_selected(&f)
}

/// The status a new sample starts with: `correct` when its confidence
/// reaches the high threshold, otherwise `wrong` when it is at most the low
/// threshold, otherwise `pending`.
pub fn default_label_status(reaches_high: bool, at_most_low: bool) -> (r: &'static str)
    ensures
        r@ == (if reaches_high {
            correct_lit()
        } else if at_most_low {
            wrong_lit()
        } else {
            pending_lit()
        }),
{
    if reaches_high {
        "correct"
    } else if at_most_low {
        "wrong"
    } else {
        "pending"
    }
}

/// The detection that labels a sample, among detections sorted by falling
/// confidence: the first of the sample's class, else the first of all.
pub fn select_detection(classes: &Vec<u32>, sample_class: u32) -> (r: Option<usize>)
    ensures
        match r {
            Some(k) => {
                &&& k < classes@.len()
                &&& (classes@[k as int] == sample_class && forall|j: int|
                    0 <= j < k ==> classes@[j] != sample_class)
                    || (k == 0 && forall|j: int| 0 <= j < classes@.len() ==> classes@[j] != sample_class)
            },
            None => classes@.len() == 0,
        },
{
    let n = classes.len();
    for i in 0..n
        invariant
            n == classes@.len(),
            forall|j: int| 0 <= j < i ==> classes@[j] != sample_class,
    {
        if classes[i] == sample_class {
            return Some(i);
        }
    }
    if n > 0 {
        Some(0)
    } else {
        None
    }
}

/// Whether a sample goes into the exported dataset: every sample except
/// those marked wrong.
pub fn is_exported(label_status: &str) -> (r: bool)
    ensures
        r == (label_status@ != wrong_lit()),
{
    !chars_eq_str(&chars_of(label_status), "wrong")
}

/// The `dataset.yaml` written beside an exported YOLO dataset.
pub open spec fn dataset_yaml_spec() -> Seq<char> {
    "path: .\ntrain: images/train\nval: images/val\nnames:\n  0: banpick\n  1: loading\n  2: gaming\n  3: victory_or_defeat\n  4: ending\n  5: other\n"@
}

pub fn dataset_yaml() -> (r: String)
    ensures
        r@ == dataset_yaml_spec(),
{
    "path: .\ntrain: images/train\nval: images/val\nnames:\n  0: banpick\n  1: loading\n  2: gaming\n  3: victory_or_defeat\n  4: ending\n  5: other\n".to_owned()
}

} // verus!
