//! Shortening of text produced by external tools: the OCR preview, the
//! whitespace-collapsed OCR field values, and the tails of training logs.
use vstd::prelude::*;
use crate::text::{
    append_chars, chars_of, chars_range, is_whitespace_char, is_ws, string_from_chars, trim_chars,
    trim_seq,
};

verus! {

/// Most lines kept in an OCR preview.
pub const PREVIEW_MAX_LINES: usize = 6;

/// Most characters kept in an OCR preview.
pub const PREVIEW_MAX_CHARS: usize = 240;

/// The pieces of `s` between `'\n'` characters (`str::split('\n')`): always
/// at least one piece, an empty one for the empty text.
pub open spec fn split_lines(s: Seq<char>) -> Seq<Seq<char>>
    decreases s.len(),
{
    if s.len() == 0 {
        seq![Seq::<char>::empty()]
    } else {
        let p = split_lines(s.drop_last());
        if s.last() == '\n' {
            p.push(Seq::<char>::empty())
        } else {
            p.update(p.len() - 1, p.last().push(s.last()))
        }
    }
}

/// `trim`, as a function value.
pub open spec fn trim_piece() -> spec_fn(Seq<char>) -> Seq<char> {
    |l: Seq<char>| trim_seq(l)
}

/// Non-emptiness, as a predicate value.
pub open spec fn is_nonempty() -> spec_fn(Seq<char>) -> bool {
    |l: Seq<char>| l.len() > 0
}

/// The trimmed lines of `s` that are not empty, in order.
///
/// `str::lines` differs from splitting at `'\n'` only by a trailing `'\r'` on
/// a line and by a last empty line, and trimming and dropping empty lines
/// removes both.
pub open spec fn nonempty_trimmed_lines(s: Seq<char>) -> Seq<Seq<char>> {
    split_lines(s).map_values(trim_piece()).filter(is_nonempty())
}

/// Pieces joined with `sep` between them (`join`).
pub open spec fn join_with(ls: Seq<Seq<char>>, sep: char) -> Seq<char>
    decreases ls.len(),
{
    if ls.len() == 0 {
        Seq::<char>::empty()
    } else if ls.len() == 1 {
        ls[0]
    } else {
        join_with(ls.drop_last(), sep) + seq![sep] + ls.last()
    }
}

pub open spec fn min_int(a: int, b: int) -> int {
    if a <= b { a } else { b }
}

/// The first lines, joined, before the length cut.
pub open spec fn preview_compact(s: Seq<char>) -> Seq<char> {
    let ls = nonempty_trimmed_lines(s);
    join_with(ls.take(min_int(PREVIEW_MAX_LINES as int, ls.len() as int)), '\n')
}

/// The preview of an OCR text: its first six non-empty trimmed lines, joined
/// with `'\n'`, cut to its first 240 characters.
pub open spec fn trim_preview_spec(s: Seq<char>) -> Seq<char> {
    let c = preview_compact(s);
    if c.len() > PREVIEW_MAX_CHARS { c.take(PREVIEW_MAX_CHARS as int) } else { c }
}

proof fn lemma_filter_push(a: Seq<Seq<char>>, x: Seq<char>)
    ensures
        a.push(x).filter(is_nonempty()) == (if x.len() > 0 {
            a.filter(is_nonempty()).push(x)
        } else {
            a.filter(is_nonempty())
        }),
{
    assert(a.push(x).drop_last() =~= a);
    reveal_with_fuel(Seq::filter, 1);
}

proof fn lemma_map_trim_push(a: Seq<Seq<char>>, x: Seq<char>)
    ensures
        a.push(x).map_values(trim_piece()) == a.map_values(
            trim_piece(),
        ).push(trim_seq(x)),
{
    assert(a.push(x).map_values(trim_piece()) =~= a.map_values(
        trim_piece(),
    ).push(trim_seq(x)));
}

/// The non-empty trimmed lines of a text, each as a character vector.
fn collect_nonempty_lines(s: &Vec<char>) -> (out: Vec<Vec<char>>)
    ensures
        out@.len() == nonempty_trimmed_lines(s@).len(),
        forall|k: int| 0 <= k < out@.len() ==> #[trigger] out@[k]@ == nonempty_trimmed_lines(s@)[k],
{
    let n = s.len();
    let mut out: Vec<Vec<char>> = Vec::new();
    let ghost mut kept: Seq<Seq<char>> = Seq::empty();
    let ghost mut done: Seq<Seq<char>> = Seq::empty();
    let mut cur: Vec<char> = Vec::new();
    for i in 0..n
        invariant
            n == s@.len(),
            split_lines(s@.take(i as int)) == done.push(cur@),
            kept == done.map_values(trim_piece()).filter(
                is_nonempty(),
            ),
            out@.len() == kept.len(),
            forall|k: int| 0 <= k < out@.len() ==> #[trigger] out@[k]@ == kept[k],
    {
        let c = s[i];
        assert(s@.take(i + 1).drop_last() =~= s@.take(i as int));
        if c == '\n' {
            let t = trim_chars(&cur);
            proof {
                lemma_map_trim_push(done, cur@);
                lemma_filter_push(done.map_values(trim_piece()), t@);
                done = done.push(cur@);
            }
            if t.len() > 0 {
                out.push(t);
                proof {
                    kept = kept.push(t@);
                }
            }
            cur = Vec::new();
            assert(split_lines(s@.take(i + 1)) =~= done.push(cur@));
        } else {
            let ghost old_cur = cur@;
            cur.push(c);
            assert(split_lines(s@.take(i + 1)) =~= done.push(cur@));
        }
    }
    assert(s@.take(n as int) =~= s@);
    let t = trim_chars(&cur);
    proof {
        lemma_map_trim_push(done, cur@);
        lemma_filter_push(done.map_values(trim_piece()), t@);
    }
    if t.len() > 0 {
        out.push(t);
        proof {
            kept = kept.push(t@);
        }
    }
    out
}

/// Joins the first `m` pieces with `sep`.
fn join_first(ls: &Vec<Vec<char>>, m: usize, sep: char, Ghost(g): Ghost<Seq<Seq<char>>>) -> (out: Vec<char>)
    requires
        m <= ls@.len(),
        ls@.len() == g.len(),
        forall|k: int| 0 <= k < ls@.len() ==> #[trigger] ls@[k]@ == g[k],
    ensures
        out@ == join_with(g.take(m as int), sep),
{
    let mut out: Vec<char> = Vec::new();
    for k in 0..m
        invariant
            m <= ls@.len(),
            ls@.len() == g.len(),
            forall|j: int| 0 <= j < ls@.len() ==> #[trigger] ls@[j]@ == g[j],
            out@ == join_with(g.take(k as int), sep),
    {
        assert(g.take(k + 1).drop_last() =~= g.take(k as int));
        if k > 0 {
            out.push(sep);
        }
        append_chars(&mut out, &ls[k]);
        assert(ls@[k as int]@ == g[k as int]);
        if k == 0 {
            assert(out@ =~= join_with(g.take(1), sep));
        } else {
            assert(out@ =~= join_with(g.take(k + 1), sep));
        }
    }
    out
}

/// The OCR preview of a text (see `trim_preview_spec`).
pub fn trim_preview(text: &str) -> (r: String)
    ensures
        r@ == trim_preview_spec(text@),
        r@.len() <= PREVIEW_MAX_CHARS,
{
    let s = chars_of(text);
    let lines = collect_nonempty_lines(&s);
    let ghost g = nonempty_trimmed_lines(s@);
    let m = if lines.len() < PREVIEW_MAX_LINES { lines.len() } else { PREVIEW_MAX_LINES };
    let compact = join_first(&lines, m, '\n', Ghost(g));
    if compact.len() > PREVIEW_MAX_CHARS {
        string_from_chars(&chars_range(&compact, 0, PREVIEW_MAX_CHARS))
    } else {
        string_from_chars(&compact)
    }
}

/// The last `max_chars` characters of `s`, or all of `s` when it is shorter.
pub open spec fn trim_tail_spec(s: Seq<char>, max_chars: nat) -> Seq<char> {
    if s.len() <= max_chars { s } else { s.skip(s.len() - max_chars) }
}

/// Keeps the end of a long log text.
pub fn trim_tail(s: &str, max_chars: usize) -> (r: String)
    ensures
        r@ == trim_tail_spec(s@, max_chars as nat),
{
    let v = chars_of(s);
    if v.len() <= max_chars {
        return s.to_owned();
    }
    let start = v.len() - max_chars;
    let tail = chars_range(&v, start, v.len());
    assert(tail@ =~= v@.skip(start as int));
    string_from_chars(&tail)
}

/// What `trim_tail` keeps is a suffix of the text, exactly `min(len, max)` long.
pub proof fn lemma_trim_tail_suffix(s: Seq<char>, max_chars: nat)
    ensures
        trim_tail_spec(s, max_chars).len() == min_int(s.len() as int, max_chars as int),
        s.skip(s.len() - trim_tail_spec(s, max_chars).len()) == trim_tail_spec(s, max_chars),
{
    assert(s.skip(0) =~= s);
}


/// The words of `s` seen so far and the word being read: a word is a maximal
/// run of non-whitespace characters.
pub open spec fn word_state(s: Seq<char>) -> (Seq<Seq<char>>, Seq<char>)
    decreases s.len(),
{
    if s.len() == 0 {
        (Seq::<Seq<char>>::empty(), Seq::<char>::empty())
    } else {
        let (done, cur) = word_state(s.drop_last());
        if is_ws(s.last()) {
            if cur.len() > 0 {
                (done.push(cur), Seq::<char>::empty())
            } else {
                (done, Seq::<char>::empty())
            }
        } else {
            (done, cur.push(s.last()))
        }
    }
}

/// `str::split_whitespace`.
pub open spec fn words(s: Seq<char>) -> Seq<Seq<char>> {
    let (done, cur) = word_state(s);
    if cur.len() > 0 {
        done.push(cur)
    } else {
        done
    }
}

/// An OCR field value: its words joined by single spaces, then trimmed.
pub open spec fn clean_ocr_field_spec(s: Seq<char>) -> Seq<char> {
    trim_seq(join_with(words(s), ' '))
}

/// Collapses the whitespace of an OCR field value.
pub fn clean_ocr_field(text: &str) -> (r: String)
    ensures
        r@ == clean_ocr_field_spec(text@),
{
    let s = chars_of(text);
    let n = s.len();
    let mut out: Vec<Vec<char>> = Vec::new();
    let ghost mut done: Seq<Seq<char>> = Seq::empty();
    let mut cur: Vec<char> = Vec::new();
    for i in 0..n
        invariant
            n == s@.len(),
            word_state(s@.take(i as int)) == (done, cur@),
            out@.len() == done.len(),
            forall|k: int| 0 <= k < out@.len() ==> #[trigger] out@[k]@ == done[k],
    {
        let c = s[i];
        assert(s@.take(i + 1).drop_last() =~= s@.take(i as int));
        assert(s@.take(i + 1).last() == c);
        if is_whitespace_char(c) {
            if cur.len() > 0 {
                proof { done = done.push(cur@); }
                out.push(cur);
                cur = Vec::new();
            }
        } else {
            cur.push(c);
        }
    }
    assert(s@.take(n as int) =~= s@);
    let ghost all = words(s@);
    if cur.len() > 0 {
        out.push(cur);
    }
    assert(out@.len() == all.len());
    let m = out.len();
    let joined = join_first(&out, m, ' ', Ghost(all));
    assert(all.take(m as int) =~= all);
    let t = trim_chars(&joined);
    string_from_chars(&t)
}

} // verus!
