//! Merging per-window recognition output into one ordered, deduplicated
//! token stream, and cutting that stream into transcript segments.

use vstd::prelude::*;
use crate::text::{chars_of, trim, trim_bounds, starts_with, ends_with, occurs_at_exec};
use crate::window::TimeWindow;

verus! {

/// Step used to place tokens that came without a timestamp.
pub const ESTIMATE_STEP_MS: u64 = 50;

/// What the recognizer returned for one window. Timestamps are relative to
/// the window's start, in milliseconds, one per token or fewer.
pub struct RecognitionResult {
    pub language: String,
    pub text: String,
    pub tokens: Vec<String>,
    pub timestamps_ms: Vec<u64>,
}

/// A token kept after normalisation: not blank and not a `<|...|>` control marker.
pub open spec fn token_kept(t: Seq<char>) -> bool {
    let u = trim(t);
    u.len() > 0 && !(starts_with(u, seq!['<', '|']) && ends_with(u, seq!['|', '>']))
}

/// The token itself when it carries text; `None` for blank tokens and
/// `<|...|>` control markers.
pub fn normalize_sense_token(tok: &str) -> (r: Option<String>)
    ensures
        r is Some <==> token_kept(tok@),
        r matches Some(t) ==> t@ == tok@,
{
    let v = chars_of(tok);
    let (i, j) = trim_bounds(v.as_slice());
    if i == j {
        return None;
    }
    let u = crate::text::slice_chars(v.as_slice(), i, j);
    let open = vec!['<', '|'];
    let close = vec!['|', '>'];
    proof {
        assert(open@ =~= seq!['<', '|']);
        assert(close@ =~= seq!['|', '>']);
    }
    let n = u.len();
    if n >= 2 && occurs_at_exec(u.as_slice(), open.as_slice(), 0) && occurs_at_exec(
        u.as_slice(),
        close.as_slice(),
        n - 2,
    ) {
        return None;
    }
    Some(crate::text::string_of(v.as_slice()))
}

/// Timestamp of token `i` before the non-decreasing clamp: its own entry, or
/// past the last known timestamp in steps of `ESTIMATE_STEP_MS`.
pub open spec fn raw_timestamp(ts: Seq<u64>, i: int) -> u64 {
    if i < ts.len() {
        ts[i]
    } else {
        let base: int = if ts.len() == 0 {
            0
        } else {
            ts.last() as int
        };
        let t = base + (i - ts.len() + 1) * ESTIMATE_STEP_MS;
        if t > u64::MAX {
            u64::MAX
        } else {
            t as u64
        }
    }
}

/// The kept tokens among the first `n`, each with a timestamp that never
/// goes below the one before it.
pub open spec fn projected(toks: Seq<String>, ts: Seq<u64>, n: int) -> Seq<(u64, String)>
    decreases n,
{
    if n <= 0 {
        Seq::empty()
    } else {
        let prev = projected(toks, ts, n - 1);
        if token_kept(toks[n - 1]@) {
            let floor: u64 = if prev.len() == 0 {
                0
            } else {
                prev.last().0
            };
            let t = raw_timestamp(ts, n - 1);
            prev.push((if t < floor { floor } else { t }, toks[n - 1]))
        } else {
            prev
        }
    }
}

/// The kept tokens of one result with their timestamps relative to the window.
pub fn tokens_with_estimated_timestamps_ms(res: &RecognitionResult) -> (r: Vec<(u64, String)>)
    ensures
        r@ == projected(res.tokens@, res.timestamps_ms@, res.tokens@.len() as int),
{
    let ts = &res.timestamps_ms;
    let base: u64 = if ts.len() == 0 {
        0
    } else {
        ts[ts.len() - 1]
    };
    let mut out: Vec<(u64, String)> = Vec::new();
    let mut prev_ms: u64 = 0;
    let mut i: usize = 0;
    while i < res.tokens.len()
        invariant
            i <= res.tokens@.len(),
            base == (if ts@.len() == 0 { 0 } else { ts@.last() }),
            out@ == projected(res.tokens@, ts@, i as int),
            prev_ms == (if out@.len() == 0 { 0 } else { out@.last().0 }),
        decreases res.tokens@.len() - i,
    {
        let tok = &res.tokens[i];
        let kept = normalize_sense_token(tok.as_str());
        if kept.is_some() {
            let raw: u64 = if i < ts.len() {
                ts[i]
            } else {
                let extra: u64 = (i - ts.len()) as u64 + 1;
                let span: u64 = if extra > u64::MAX / ESTIMATE_STEP_MS {
                    u64::MAX
                } else {
                    extra * ESTIMATE_STEP_MS
                };
                base.saturating_add(span)
            };
            let t = if raw < prev_ms {
                prev_ms
            } else {
                raw
            };
            out.push((t, tok.clone()));
            prev_ms = t;
        }
        i = i + 1;
    }
    out
}


/// Tokens closer than this to a boundary shared with another window are dropped.
pub const EDGE_GUARD_MS: u64 = 2500;

/// The guard applies only when it leaves more than this much of the window.
pub const MIN_GUARDED_SPAN_MS: u64 = 500;

/// A token placed on the global timeline, with its distance to the nearer
/// edge of the window it came from.
pub struct MergedToken {
    pub ts_ms: u64,
    pub text: String,
    pub margin_ms: u64,
}

impl MergedToken {
    /// A copy of this token.
    pub fn copy(&self) -> (r: MergedToken)
        ensures
            r == *self,
    {
        MergedToken { ts_ms: self.ts_ms, text: self.text.clone(), margin_ms: self.margin_ms }
    }
}

/// The span `[left, right]` of relative times that survives the edge guard,
/// and whether the guard applies at all.
pub open spec fn guard_span(w: TimeWindow, first: bool, last: bool) -> (u64, u64, bool) {
    let left: u64 = if first {
        0
    } else {
        EDGE_GUARD_MS
    };
    let right: u64 = if last {
        w.duration_ms
    } else {
        w.duration_ms.saturating_sub(EDGE_GUARD_MS)
    };
    (left, right, w.duration_ms > 0 && right > left + MIN_GUARDED_SPAN_MS)
}

/// A relative time clamped into the window.
pub open spec fn clamp_rel(w: TimeWindow, rel: u64) -> u64 {
    if w.duration_ms > 0 && rel > w.duration_ms {
        w.duration_ms
    } else {
        rel
    }
}

/// The first `n` tokens of one window that survive the edge guard, placed on
/// the global timeline.
pub open spec fn placed(
    toks: Seq<(u64, String)>,
    w: TimeWindow,
    first: bool,
    last: bool,
    n: int,
) -> Seq<MergedToken>
    decreases n,
{
    if n <= 0 {
        Seq::empty()
    } else {
        let prev = placed(toks, w, first, last, n - 1);
        let rel = clamp_rel(w, toks[n - 1].0);
        let (left, right, guard) = guard_span(w, first, last);
        if guard && (rel < left || rel > right) {
            prev
        } else {
            let margin: u64 = if w.duration_ms > 0 {
                if rel < (w.duration_ms - rel) as u64 {
                    rel
                } else {
                    (w.duration_ms - rel) as u64
                }
            } else {
                0
            };
            prev.push(
                MergedToken {
                    ts_ms: w.start_ms.saturating_add(rel),
                    text: toks[n - 1].1,
                    margin_ms: margin,
                },
            )
        }
    }
}

/// Appends the tokens of one window that survive the edge guard to `all`.
fn place_window_tokens(
    all: &mut Vec<MergedToken>,
    toks: Vec<(u64, String)>,
    w: TimeWindow,
    first: bool,
    last: bool,
)
    ensures
        final(all)@ == old(all)@ + placed(toks@, w, first, last, toks@.len() as int),
{
    let left: u64 = if first {
        0
    } else {
        EDGE_GUARD_MS
    };
    let right: u64 = if last {
        w.duration_ms
    } else {
        w.duration_ms.saturating_sub(EDGE_GUARD_MS)
    };
    let guard = w.duration_ms > 0 && right > left + MIN_GUARDED_SPAN_MS;
    let ghost base = all@;
    let mut i: usize = 0;
    while i < toks.len()
        invariant
            i <= toks@.len(),
            guard_span(w, first, last) == (left, right, guard),
            all@ == base + placed(toks@, w, first, last, i as int),
        decreases toks@.len() - i,
    {
        let rel = if w.duration_ms > 0 && toks[i].0 > w.duration_ms {
            w.duration_ms
        } else {
            toks[i].0
        };
        if !(guard && (rel < left || rel > right)) {
            let margin: u64 = if w.duration_ms > 0 {
                if rel < w.duration_ms - rel {
                    rel
                } else {
                    w.duration_ms - rel
                }
            } else {
                0
            };
            all.push(
                MergedToken {
                    ts_ms: w.start_ms.saturating_add(rel),
                    text: toks[i].1.clone(),
                    margin_ms: margin,
                },
            );
            proof {
                assert(all@ =~= base + placed(toks@, w, first, last, i + 1));
            }
        }
        i = i + 1;
    }
}

/// The placed tokens of the first `n` windows, window by window.
pub open spec fn collected(
    results: Seq<RecognitionResult>,
    windows: Seq<TimeWindow>,
    n: int,
) -> Seq<MergedToken>
    decreases n,
{
    if n <= 0 {
        Seq::empty()
    } else {
        let r = results[n - 1];
        let toks = projected(r.tokens@, r.timestamps_ms@, r.tokens@.len() as int);
        collected(results, windows, n - 1) + placed(
            toks,
            windows[n - 1],
            n - 1 == 0,
            n >= windows.len(),
            toks.len() as int,
        )
    }
}

/// Number of windows that have a result.
pub open spec fn paired(results: Seq<RecognitionResult>, windows: Seq<TimeWindow>) -> int {
    if results.len() < windows.len() {
        results.len() as int
    } else {
        windows.len() as int
    }
}

/// All tokens of all windows that survive the edge guard, on the global timeline.
pub fn collect_tokens(results: &[RecognitionResult], windows: &[TimeWindow]) -> (r: Vec<
    MergedToken,
>)
    ensures
        r@ == collected(results@, windows@, paired(results@, windows@)),
{
    let n = if results.len() < windows.len() {
        results.len()
    } else {
        windows.len()
    };
    let mut all: Vec<MergedToken> = Vec::new();
    let mut k: usize = 0;
    while k < n
        invariant
            k <= n,
            n == paired(results@, windows@),
            n <= results@.len(),
            n <= windows@.len(),
            all@ == collected(results@, windows@, k as int),
        decreases n - k,
    {
        let toks = tokens_with_estimated_timestamps_ms(&results[k]);
        place_window_tokens(&mut all, toks, windows[k], k == 0, k + 1 >= windows.len());
        k = k + 1;
    }
    all
}

/// `a` goes before `b`: earlier, or at the same time further from a window edge.
pub open spec fn goes_before(a: MergedToken, b: MergedToken) -> bool {
    a.ts_ms < b.ts_ms || (a.ts_ms == b.ts_ms && a.margin_ms > b.margin_ms)
}

/// Where `x` enters the ordered `s`: after every element it does not go before.
pub open spec fn insert_pos(s: Seq<MergedToken>, x: MergedToken) -> int
    decreases s.len(),
{
    if s.len() > 0 && goes_before(x, s.last()) {
        insert_pos(s.drop_last(), x)
    } else {
        s.len() as int
    }
}

/// `s` in stable order of `goes_before`: equal keys keep their order.
pub open spec fn sorted_tokens(s: Seq<MergedToken>) -> Seq<MergedToken>
    decreases s.len(),
{
    if s.len() == 0 {
        s
    } else {
        let t = sorted_tokens(s.drop_last());
        t.insert(insert_pos(t, s.last()), s.last())
    }
}

proof fn lemma_insert_pos_bounds(s: Seq<MergedToken>, x: MergedToken)
    ensures
        0 <= insert_pos(s, x) <= s.len(),
    decreases s.len(),
{
    if s.len() > 0 && goes_before(x, s.last()) {
        lemma_insert_pos_bounds(s.drop_last(), x);
    }
}

proof fn lemma_sorted_len(s: Seq<MergedToken>)
    ensures
        sorted_tokens(s).len() == s.len(),
    decreases s.len(),
{
    if s.len() > 0 {
        lemma_sorted_len(s.drop_last());
        lemma_insert_pos_bounds(sorted_tokens(s.drop_last()), s.last());
    }
}

/// The tokens in stable order of time, the one furthest from an edge first.
pub fn sort_tokens(v: Vec<MergedToken>) -> (r: Vec<MergedToken>)
    ensures
        r@ == sorted_tokens(v@),
{
    let mut out: Vec<MergedToken> = Vec::new();
    let mut i: usize = 0;
    while i < v.len()
        invariant
            i <= v@.len(),
            out@ == sorted_tokens(v@.subrange(0, i as int)),
        decreases v@.len() - i,
    {
        let x = v[i].copy();
        let ghost s = out@;
        let mut j: usize = out.len();
        assert(s.subrange(0, j as int) =~= s);
        while j > 0 && (x.ts_ms < out[j - 1].ts_ms || (x.ts_ms == out[j - 1].ts_ms && x.margin_ms
            > out[j - 1].margin_ms))
            invariant
                j <= out@.len(),
                out@ == s,
                insert_pos(s, x) == insert_pos(s.subrange(0, j as int), x),
            decreases j,
        {
            assert(s.subrange(0, j as int).drop_last() =~= s.subrange(0, j - 1));
            j = j - 1;
        }
        proof {
            assert(s.subrange(0, j as int).len() == j);
            if j > 0 {
                assert(s.subrange(0, j as int).last() == s[j - 1]);
            }
            assert(insert_pos(s.subrange(0, j as int), x) == j);
            assert(v@.subrange(0, i + 1).drop_last() =~= v@.subrange(0, i as int));
            assert(v@.subrange(0, i + 1).last() == v@[i as int]);
        }
        out.insert(j, x);
        i = i + 1;
    }
    proof {
        assert(v@.subrange(0, v@.len() as int) =~= v@);
    }
    out
}


/// Two equal tokens closer than this (inclusive) are one emission seen twice.
pub const DEDUP_MS: u64 = 120;

pub open spec fn dist(a: u64, b: u64) -> int {
    if a >= b {
        a - b
    } else {
        b - a
    }
}

/// The first `n` sorted tokens without the repeats: a token equal in text to
/// the last kept one and within `DEDUP_MS` of it is dropped.
pub open spec fn deduped(s: Seq<MergedToken>, n: int) -> Seq<(u64, String)>
    decreases n,
{
    if n <= 0 {
        Seq::empty()
    } else {
        let prev = deduped(s, n - 1);
        let x = s[n - 1];
        if prev.len() > 0 && dist(x.ts_ms, prev.last().0) <= DEDUP_MS && x.text@ == prev.last().1@ {
            prev
        } else {
            prev.push((x.ts_ms, x.text))
        }
    }
}

/// The sorted tokens without repeated emissions from overlapping windows.
pub fn dedup_tokens(s: Vec<MergedToken>) -> (r: Vec<(u64, String)>)
    ensures
        r@ == deduped(s@, s@.len() as int),
{
    let mut out: Vec<(u64, String)> = Vec::new();
    let mut i: usize = 0;
    while i < s.len()
        invariant
            i <= s@.len(),
            out@ == deduped(s@, i as int),
        decreases s@.len() - i,
    {
        let x = &s[i];
        let mut dup = false;
        if out.len() > 0 {
            let last = &out[out.len() - 1];
            let d = if x.ts_ms >= last.0 {
                x.ts_ms - last.0
            } else {
                last.0 - x.ts_ms
            };
            dup = d <= DEDUP_MS && x.text == last.1;
        }
        if !dup {
            out.push((x.ts_ms, x.text.clone()));
        }
        i = i + 1;
    }
    out
}

/// True when the hint names English, the language split most eagerly.
pub open spec fn hint_is_en(hint: Option<Seq<char>>) -> bool {
    match hint {
        Some(h) => trim(h) == seq!['e', 'n'] || trim(h) == seq!['E', 'N'],
        None => false,
    }
}

/// Sentence-ending punctuation, alone in a token.
pub open spec fn is_sentence_end(t: Seq<char>) -> bool {
    let u = trim(t);
    u == seq!['。'] || u == seq!['！'] || u == seq!['？'] || u == seq!['.'] || u == seq!['!']
        || u == seq!['?'] || u == seq!['；'] || u == seq![';'] || u == seq!['…'] || u == seq![
        '…',
        '…',
    ]
}

/// A pause longer than this may close a segment.
pub open spec fn gap_limit(en: bool) -> u64 {
    if en {
        700
    } else {
        1200
    }
}

/// A segment this long (in characters) is closed.
pub open spec fn length_limit(en: bool) -> int {
    if en {
        110
    } else {
        140
    }
}

/// A pause closes a segment only once it holds this many characters.
pub const MIN_SEGMENT_CHARS: usize = 16;

/// Closed segments, the open segment's text and the open segment's start.
pub type SegState = (Seq<(u64, u64, Seq<char>)>, Seq<char>, Option<u64>);

/// The segmentation after token `i` has been added.
pub open spec fn seg_step(toks: Seq<(u64, String)>, en: bool, i: int, st: SegState) -> SegState {
    let ts = toks[i].0;
    let start = match st.2 {
        Some(s) => s,
        None => ts,
    };
    let cur = st.1 + toks[i].1@;
    let gap: u64 = if i + 1 < toks.len() {
        toks[i + 1].0.saturating_sub(ts)
    } else {
        0
    };
    let close = is_sentence_end(toks[i].1@) || (gap > gap_limit(en) && cur.len()
        >= MIN_SEGMENT_CHARS) || cur.len() >= length_limit(en);
    if close {
        let txt = trim(cur);
        (
            if txt.len() > 0 {
                st.0.push((start, ts, txt))
            } else {
                st.0
            },
            Seq::empty(),
            None,
        )
    } else {
        (st.0, cur, Some(start))
    }
}

/// The segmentation after the first `n` tokens.
pub open spec fn seg_state(toks: Seq<(u64, String)>, en: bool, n: int) -> SegState
    decreases n,
{
    if n <= 0 {
        (Seq::empty(), Seq::empty(), None)
    } else {
        seg_step(toks, en, n - 1, seg_state(toks, en, n - 1))
    }
}

/// The segments `(start_ms, end_ms, text)` cut from a merged token stream.
pub open spec fn segments_of(toks: Seq<(u64, String)>, en: bool) -> Seq<(u64, u64, Seq<char>)> {
    let st = seg_state(toks, en, toks.len() as int);
    let last_ms: u64 = if toks.len() == 0 {
        0
    } else {
        toks.last().0
    };
    let txt = trim(st.1);
    if txt.len() > 0 {
        st.0.push(
            (
                match st.2 {
                    Some(s) => s,
                    None => last_ms,
                },
                last_ms,
                txt,
            ),
        )
    } else {
        st.0
    }
}

/// The view of a list of segments.
pub open spec fn segs_view(v: Seq<(u64, u64, String)>) -> Seq<(u64, u64, Seq<char>)> {
    v.map_values(|x: (u64, u64, String)| (x.0, x.1, x.2@))
}

fn hint_en(lang_hint: Option<&str>) -> (r: bool)
    ensures
        r == hint_is_en(
            match lang_hint {
                Some(h) => Some(h@),
                None => None,
            },
        ),
{
    match lang_hint {
        None => false,
        Some(h) => {
            let v = chars_of(h);
            let t = crate::text::trim_chars(v.as_slice());
            proof {
                assert(seq!['e', 'n'].len() == 2);
                assert(seq!['E', 'N'].len() == 2);
            }
            if t.len() == 2 && ((t[0] == 'e' && t[1] == 'n') || (t[0] == 'E' && t[1] == 'N')) {
                proof {
                    if t[0] == 'e' {
                        assert(t@ =~= seq!['e', 'n']);
                    } else {
                        assert(t@ =~= seq!['E', 'N']);
                    }
                }
                true
            } else {
                proof {
                    if t@.len() == 2 {
                        assert(t@ != seq!['e', 'n'] ==> t@[0] != 'e' || t@[1] != 'n');
                        assert(seq!['e', 'n'][0] == 'e' && seq!['e', 'n'][1] == 'n');
                        assert(seq!['E', 'N'][0] == 'E' && seq!['E', 'N'][1] == 'N');
                    }
                }
                false
            }
        }
    }
}

fn sentence_end(tok: &String) -> (r: bool)
    ensures
        r == is_sentence_end(tok@),
{
    let v = chars_of(tok.as_str());
    let t = crate::text::trim_chars(v.as_slice());
    let r = if t.len() == 1 {
        let c = t[0];
        c == '。' || c == '！' || c == '？' || c == '.' || c == '!' || c == '?' || c == '；' || c
            == ';' || c == '…'
    } else {
        t.len() == 2 && t[0] == '…' && t[1] == '…'
    };
    proof {
        let u = t@;
        if u.len() == 1 {
            assert(u =~= seq![u[0]]);
        } else if u.len() == 2 {
            assert(u =~= seq![u[0], u[1]]);
        }
        assert(seq!['…', '…'][0] == '…' && seq!['…', '…'][1] == '…');
    }
    r
}

proof fn lemma_segs_view_push(v: Seq<(u64, u64, String)>, x: (u64, u64, String))
    ensures
        segs_view(v.push(x)) == segs_view(v).push((x.0, x.1, x.2@)),
{
    assert(segs_view(v.push(x)) =~= segs_view(v).push((x.0, x.1, x.2@)));
}

/// Cuts a merged, time-ordered token stream into segments: a segment closes
/// at sentence-ending punctuation, at a long pause once it holds enough
/// text, or when it grows too long; English closes sooner.
pub fn segments_from_merged_tokens_with_lang(tokens: &[(u64, String)], lang_hint: Option<&str>)
    -> (r: Vec<(u64, u64, String)>)
    ensures
        segs_view(r@) == segments_of(
            tokens@,
            hint_is_en(
                match lang_hint {
                    Some(h) => Some(h@),
                    None => None,
                },
            ),
        ),
{
    let en = hint_en(lang_hint);
    let gap_th: u64 = if en {
        700
    } else {
        1200
    };
    let max_len: usize = if en {
        110
    } else {
        140
    };
    let mut out: Vec<(u64, u64, String)> = Vec::new();
    let mut cur: Vec<char> = Vec::new();
    let mut start: Option<u64> = None;
    let mut i: usize = 0;
    while i < tokens.len()
        invariant
            i <= tokens@.len(),
            gap_th == gap_limit(en),
            max_len == length_limit(en),
            seg_state(tokens@, en, i as int) == (segs_view(out@), cur@, start),
        decreases tokens@.len() - i,
    {
        let ts = tokens[i].0;
        let s0 = match start {
            Some(s) => s,
            None => ts,
        };
        let tv = chars_of(tokens[i].1.as_str());
        let mut k: usize = 0;
        let ghost cur0 = cur@;
        while k < tv.len()
            invariant
                k <= tv@.len(),
                cur@ == cur0 + tv@.subrange(0, k as int),
            decreases tv@.len() - k,
        {
            cur.push(tv[k]);
            k = k + 1;
            assert(cur@ =~= cur0 + tv@.subrange(0, k as int));
        }
        assert(tv@.subrange(0, tv@.len() as int) =~= tv@);
        let gap: u64 = if i + 1 < tokens.len() {
            tokens[i + 1].0.saturating_sub(ts)
        } else {
            0
        };
        let close = sentence_end(&tokens[i].1) || (gap > gap_th && cur.len() >= MIN_SEGMENT_CHARS)
            || cur.len() >= max_len;
        if close {
            let txt = crate::text::trim_chars(cur.as_slice());
            if txt.len() > 0 {
                let st = crate::text::string_of(txt.as_slice());
                proof {
                    lemma_segs_view_push(out@, (s0, ts, st));
                }
                out.push((s0, ts, st));
            }
            cur = Vec::new();
            start = None;
        } else {
            start = Some(s0);
        }
        i = i + 1;
    }
    let txt = crate::text::trim_chars(cur.as_slice());
    if txt.len() > 0 {
        let last_ms: u64 = if tokens.len() == 0 {
            0
        } else {
            tokens[tokens.len() - 1].0
        };
        let s0 = match start {
            Some(s) => s,
            None => last_ms,
        };
        let st = crate::text::string_of(txt.as_slice());
        proof {
            lemma_segs_view_push(out@, (s0, last_ms, st));
        }
        out.push((s0, last_ms, st));
    }
    out
}


/// One segment per window with text, from the windows' plain text: the
/// fallback when no window produced a usable token.
pub open spec fn fallback_segments(
    results: Seq<RecognitionResult>,
    windows: Seq<TimeWindow>,
    n: int,
) -> Seq<(u64, u64, Seq<char>)>
    decreases n,
{
    if n <= 0 {
        Seq::empty()
    } else {
        let prev = fallback_segments(results, windows, n - 1);
        let w = windows[n - 1];
        let t = trim(results[n - 1].text@);
        if t.len() > 0 {
            prev.push((w.start_ms, w.start_ms.saturating_add(w.duration_ms), t))
        } else {
            prev
        }
    }
}

/// The transcript that `merge_sense_voice_chunks` returns.
pub open spec fn merged_transcript(
    results: Seq<RecognitionResult>,
    windows: Seq<TimeWindow>,
    en: bool,
) -> Seq<(u64, u64, Seq<char>)> {
    let all = collected(results, windows, paired(results, windows));
    if all.len() == 0 {
        fallback_segments(results, windows, paired(results, windows))
    } else {
        segments_of(deduped(sorted_tokens(all), all.len() as int), en)
    }
}

fn fallback_from_text(results: &[RecognitionResult], windows: &[TimeWindow]) -> (r: Vec<
    (u64, u64, String),
>)
    ensures
        segs_view(r@) == fallback_segments(results@, windows@, paired(results@, windows@)),
{
    let n = if results.len() < windows.len() {
        results.len()
    } else {
        windows.len()
    };
    let mut out: Vec<(u64, u64, String)> = Vec::new();
    let mut k: usize = 0;
    while k < n
        invariant
            k <= n,
            n == paired(results@, windows@),
            n <= results@.len(),
            n <= windows@.len(),
            segs_view(out@) == fallback_segments(results@, windows@, k as int),
        decreases n - k,
    {
        let v = chars_of(results[k].text.as_str());
        let t = crate::text::trim_chars(v.as_slice());
        if t.len() > 0 {
            let w = windows[k];
            let st = crate::text::string_of(t.as_slice());
            let seg = (w.start_ms, w.start_ms.saturating_add(w.duration_ms), st);
            proof {
                lemma_segs_view_push(out@, seg);
            }
            out.push(seg);
        }
        k = k + 1;
    }
    out
}

/// Reconciles the results of consecutive windows (result `k` belongs to
/// window `k`) into one transcript of `(start_ms, end_ms, text)` segments:
/// tokens are placed on the global timeline, those near shared window edges
/// dropped, the rest ordered and deduplicated, then cut into segments. When
/// no token survives, each window's plain text becomes a segment.
pub fn merge_sense_voice_chunks(
    results: &[RecognitionResult],
    windows: &[TimeWindow],
    lang_hint: Option<&str>,
) -> (r: Vec<(u64, u64, String)>)
    ensures
        segs_view(r@) == merged_transcript(
            results@,
            windows@,
            hint_is_en(
                match lang_hint {
                    Some(h) => Some(h@),
                    None => None,
                },
            ),
        ),
{
    let all = collect_tokens(results, windows);
    if all.len() == 0 {
        return fallback_from_text(results, windows);
    }
    let ghost all_v = all@;
    let sorted = sort_tokens(all);
    proof {
        lemma_sorted_len(all_v);
    }
    let merged = dedup_tokens(sorted);
    segments_from_merged_tokens_with_lang(merged.as_slice(), lang_hint)
}


/// Below this much weighted evidence no language is locked in.
pub const MIN_LOCK_EVIDENCE: u64 = 80;

/// The language a result declares, or `None` when it declares none
/// (blank or `auto`).
pub open spec fn declared_language(r: RecognitionResult) -> Option<Seq<char>> {
    let l = trim(r.language@);
    if l.len() == 0 || l == seq!['a', 'u', 't', 'o'] {
        None
    } else {
        Some(l)
    }
}

/// Number of non-whitespace characters in `s`.
pub open spec fn visible_chars(s: Seq<char>) -> nat
    decreases s.len(),
{
    if s.len() == 0 {
        0
    } else {
        visible_chars(s.drop_last()) + if crate::text::is_ws(s.last()) {
            0nat
        } else {
            1nat
        }
    }
}

/// The weight of a result's language evidence: its visible characters, at least 1.
pub open spec fn result_weight(r: RecognitionResult) -> nat {
    let c = visible_chars(r.text@);
    if c == 0 {
        1
    } else {
        c
    }
}

/// The weight that the first `n` results give to language `lang`.
pub open spec fn language_weight(results: Seq<RecognitionResult>, lang: Seq<char>, n: int) -> nat
    decreases n,
{
    if n <= 0 {
        0
    } else {
        language_weight(results, lang, n - 1) + if declared_language(results[n - 1]) == Some(
            lang,
        ) {
            result_weight(results[n - 1])
        } else {
            0nat
        }
    }
}

/// The weight of all declared languages over the first `n` results.
pub open spec fn total_weight(results: Seq<RecognitionResult>, n: int) -> nat
    decreases n,
{
    if n <= 0 {
        0
    } else {
        total_weight(results, n - 1) + if declared_language(results[n - 1]) is Some {
            result_weight(results[n - 1])
        } else {
            0nat
        }
    }
}

/// `w` is at least 80% of `total`.
pub open spec fn dominates(w: int, total: int) -> bool {
    5 * w >= 4 * total
}

/// Entry `i` of `ws` holds at least 80% of `total`.
pub open spec fn dominant_entry(ws: Seq<(String, u64)>, i: int, total: u64) -> bool {
    dominates(ws[i].1 as int, total as int)
}

/// The language to pin for a second recognition pass, chosen from
/// `(language, weight)` pairs over a total weight: the one holding at least
/// 80% of the total, when the total reaches `MIN_LOCK_EVIDENCE`.
pub fn dominant_language(weights: &[(String, u64)], total: u64) -> (r: Option<String>)
    ensures
        r is None <==> (total < MIN_LOCK_EVIDENCE || forall|i: int|
            0 <= i < weights@.len() ==> !#[trigger] dominant_entry(weights@, i, total)),
        r matches Some(l) ==> exists|i: int|
            0 <= i < weights@.len() && #[trigger] dominant_entry(weights@, i, total)
                && weights@[i].0@ == l@ && forall|k: int|
                0 <= k < i ==> !dominant_entry(weights@, k, total),
{
    if total < MIN_LOCK_EVIDENCE {
        return None;
    }
    let mut i: usize = 0;
    while i < weights.len()
        invariant
            i <= weights@.len(),
            total >= MIN_LOCK_EVIDENCE,
            forall|k: int| 0 <= k < i ==> !#[trigger] dominant_entry(weights@, k, total),
        decreases weights@.len() - i,
    {
        if 5 * (weights[i].1 as u128) >= 4 * (total as u128) {
            let l = weights[i].0.clone();
            assert(l@ == weights@[i as int].0@);
            assert(dominant_entry(weights@, i as int, total));
            return Some(l);
        }
        i = i + 1;
    }
    None
}

fn visible_count(s: &String) -> (r: u64)
    ensures
        r as int == if visible_chars(s@) > u64::MAX { u64::MAX as int } else { visible_chars(s@) as int },
{
    let v = chars_of(s.as_str());
    let mut n: u64 = 0;
    let mut i: usize = 0;
    while i < v.len()
        invariant
            i <= v@.len(),
            n as int == if visible_chars(v@.subrange(0, i as int)) > u64::MAX {
                u64::MAX as int
            } else {
                visible_chars(v@.subrange(0, i as int)) as int
            },
        decreases v@.len() - i,
    {
        assert(v@.subrange(0, i + 1).drop_last() =~= v@.subrange(0, i as int));
        if !crate::text::is_ws_char(v[i]) {
            n = n.saturating_add(1);
        }
        i = i + 1;
    }
    assert(v@.subrange(0, v@.len() as int) =~= v@);
    n
}

fn declared_language_exec(r: &RecognitionResult) -> (out: Option<Vec<char>>)
    ensures
        match out {
            Some(l) => declared_language(*r) == Some(l@),
            None => declared_language(*r) is None,
        },
{
    let v = chars_of(r.language.as_str());
    let l = crate::text::trim_chars(v.as_slice());
    let auto = vec!['a', 'u', 't', 'o'];
    assert(auto@ =~= seq!['a', 'u', 't', 'o']);
    if l.len() == 0 {
        return None;
    }
    if l.len() == 4 && crate::text::occurs_at_exec(l.as_slice(), auto.as_slice(), 0) {
        assert(l@.subrange(0, 4) =~= l@);
        return None;
    }
    proof {
        if l@ == auto@ {
            assert(l@.subrange(0, 4) =~= l@);
        }
    }
    Some(l)
}

proof fn lemma_total_bounds(results: Seq<RecognitionResult>, l: Seq<char>, i: int, j: int)
    requires
        0 <= i <= j <= results.len(),
    ensures
        total_weight(results, i) <= total_weight(results, j),
        language_weight(results, l, i) <= total_weight(results, i),
    decreases j,
{
    if j > i {
        lemma_total_bounds(results, l, i, j - 1);
    } else if i > 0 {
        lemma_total_bounds(results, l, i - 1, i - 1);
    }
}

/// True when `ws` holds an entry for language `l`.
pub open spec fn has_language(ws: Seq<(String, u64)>, l: Seq<char>) -> bool {
    exists|k: int| 0 <= k < ws.len() && #[trigger] ws[k].0@ == l
}

/// Position of the entry for `l` in `weights`.
fn find_language(weights: &Vec<(String, u64)>, l: &Vec<char>) -> (r: Option<usize>)
    ensures
        match r {
            Some(k) => k < weights@.len() && weights@[k as int].0@ == l@,
            None => forall|m: int| 0 <= m < weights@.len() ==> weights@[m].0@ != l@,
        },
{
    let mut k: usize = 0;
    while k < weights.len()
        invariant
            k <= weights@.len(),
            forall|m: int| 0 <= m < k ==> weights@[m].0@ != l@,
        decreases weights@.len() - k,
    {
        let key = chars_of(weights[k].0.as_str());
        if crate::text::same_chars(key.as_slice(), l.as_slice()) {
            return Some(k);
        }
        k = k + 1;
    }
    None
}

/// The declared languages of the results with their weights, each language
/// once, and the total weight.
pub fn language_weights(results: &[RecognitionResult]) -> (r: (Vec<(String, u64)>, u64))
    requires
        total_weight(results@, results@.len() as int) <= u64::MAX,
    ensures
        r.1 as int == total_weight(results@, results@.len() as int),
        forall|k: int|
            0 <= k < r.0@.len() ==> #[trigger] r.0@[k].1 as int == language_weight(
                results@,
                r.0@[k].0@,
                results@.len() as int,
            ),
        forall|l: Seq<char>|
            #[trigger] language_weight(results@, l, results@.len() as int) > 0 ==> has_language(
                r.0@,
                l,
            ),
{
    let mut weights: Vec<(String, u64)> = Vec::new();
    let mut total: u64 = 0;
    let mut i: usize = 0;
    while i < results.len()
        invariant
            i <= results@.len(),
            total_weight(results@, results@.len() as int) <= u64::MAX,
            total as int == total_weight(results@, i as int),
            forall|k: int|
                0 <= k < weights@.len() ==> #[trigger] weights@[k].1 as int == language_weight(
                    results@,
                    weights@[k].0@,
                    i as int,
                ),
            forall|l: Seq<char>|
                #[trigger] language_weight(results@, l, i as int) > 0 ==> has_language(
                    weights@,
                    l,
                ),
            forall|k: int, m: int|
                0 <= k < m < weights@.len() ==> #[trigger] weights@[k].0@ != #[trigger] weights@[m].0@,
        decreases results@.len() - i,
    {
        let ghost old_w = weights@;
        match declared_language_exec(&results[i]) {
            None => {
                assert forall|k: int| 0 <= k < weights@.len() implies #[trigger] weights@[k].1 as int
                    == language_weight(results@, weights@[k].0@, i + 1) by {}
                assert forall|l: Seq<char>| #[trigger]
                    language_weight(results@, l, i + 1) > 0 implies has_language(weights@, l) by {
                    assert(language_weight(results@, l, i as int) > 0);
                }
            },
            Some(l) => {
                let c = visible_count(&results[i].text);
                let w: u64 = if c == 0 {
                    1
                } else {
                    c
                };
                proof {
                    lemma_total_bounds(results@, l@, i + 1, results@.len() as int);
                    lemma_total_bounds(results@, l@, i as int, i as int);
                }
                total = total + w;
                match find_language(&weights, &l) {
                    Some(k) => {
                        let nw = weights[k].1 + w;
                        let key = weights[k].0.clone();
                        weights.set(k, (key, nw));
                        assert forall|m: int| 0 <= m < weights@.len() implies #[trigger] weights@[m].1 as int
                            == language_weight(results@, weights@[m].0@, i + 1) by {
                            if m != k {
                                assert(weights@[m] == old_w[m]);
                            }
                        }
                        assert forall|l2: Seq<char>| #[trigger]
                            language_weight(results@, l2, i + 1) > 0 implies has_language(weights@, l2) by {
                            if l2 != l@ {
                                assert(language_weight(results@, l2, i as int) > 0);
                                let m = choose|m: int| 0 <= m < old_w.len() && #[trigger] old_w[m].0@ == l2;
                                assert(weights@[m].0@ == l2);
                            } else {
                                assert(weights@[k as int].0@ == l2);
                            }
                        }
                    },
                    None => {
                        let key = crate::text::string_of(l.as_slice());
                        weights.push((key, w));
                        assert forall|m: int| 0 <= m < weights@.len() implies #[trigger] weights@[m].1 as int
                            == language_weight(results@, weights@[m].0@, i + 1) by {
                            if m < old_w.len() {
                                assert(weights@[m] == old_w[m]);
                            } else {
                                lemma_language_weight_absent(results@, l@, i as int, old_w);
                            }
                        }
                        assert forall|l2: Seq<char>| #[trigger]
                            language_weight(results@, l2, i + 1) > 0 implies has_language(weights@, l2) by {
                            if l2 != l@ {
                                assert(language_weight(results@, l2, i as int) > 0);
                                let m = choose|m: int| 0 <= m < old_w.len() && #[trigger] old_w[m].0@ == l2;
                                assert(weights@[m].0@ == l2);
                            } else {
                                assert(weights@[old_w.len() as int].0@ == l2);
                            }
                        }
                    },
                }
            },
        }
        i = i + 1;
    }
    assert forall|l: Seq<char>| #[trigger]
        language_weight(results@, l, results@.len() as int) > 0 implies has_language(
        weights@,
        l,
    ) by {
        assert(language_weight(results@, l, i as int) > 0);
    }
    (weights, total)
}

proof fn lemma_language_weight_absent(
    results: Seq<RecognitionResult>,
    l: Seq<char>,
    i: int,
    ws: Seq<(String, u64)>,
)
    requires
        forall|m: int| 0 <= m < ws.len() ==> ws[m].0@ != l,
        forall|l2: Seq<char>| #[trigger] language_weight(results, l2, i) > 0 ==> has_language(ws, l2),
    ensures
        language_weight(results, l, i) == 0,
{
    if language_weight(results, l, i) > 0 {
        let k = choose|k: int| 0 <= k < ws.len() && #[trigger] ws[k].0@ == l;
    }
}

/// The language to pin for a second recognition pass over the same windows:
/// each result weighs its declared language by its visible characters (at
/// least 1); a language holding at least 80% of a total of at least
/// `MIN_LOCK_EVIDENCE` is returned.
pub fn pick_dominant_language_from_results(results: &[RecognitionResult]) -> (r: Option<String>)
    requires
        total_weight(results@, results@.len() as int) <= u64::MAX,
    ensures
        r is None <==> (total_weight(results@, results@.len() as int) < MIN_LOCK_EVIDENCE
            || forall|l: Seq<char>|
            !dominates(
                #[trigger] language_weight(results@, l, results@.len() as int) as int,
                total_weight(results@, results@.len() as int) as int,
            )),
        r matches Some(l) ==> dominates(
            language_weight(results@, l@, results@.len() as int) as int,
            total_weight(results@, results@.len() as int) as int,
        ),
{
    let (weights, total) = language_weights(results);
    let r = dominant_language(weights.as_slice(), total);
    proof {
        let n = results@.len() as int;
        if r is None && total >= MIN_LOCK_EVIDENCE {
            assert forall|l: Seq<char>|
                !dominates(
                    #[trigger] language_weight(results@, l, n) as int,
                    total as int,
                ) by {
                if language_weight(results@, l, n) > 0 {
                    let k = choose|k: int| 0 <= k < weights@.len() && #[trigger] weights@[k].0@ == l;
                    assert(!dominant_entry(weights@, k, total));
                }
            }
        }
        if r is Some {
            let k = choose|k: int|
                0 <= k < weights@.len() && #[trigger] dominant_entry(weights@, k, total)
                    && weights@[k].0@ == r->0@;
            assert(weights@[k].1 as int == language_weight(results@, weights@[k].0@, n));
        }
    }
    r
}


/// Tokens in non-decreasing order of time.
pub open spec fn tokens_time_ordered(s: Seq<MergedToken>) -> bool {
    forall|i: int, j: int| 0 <= i < j < s.len() ==> s[i].ts_ms <= s[j].ts_ms
}

/// Timed tokens in non-decreasing order of time.
pub open spec fn timed_ordered(s: Seq<(u64, String)>) -> bool {
    forall|i: int, j: int| 0 <= i < j < s.len() ==> s[i].0 <= s[j].0
}

/// Segments in non-decreasing order of start, each ending no earlier than it starts.
pub open spec fn segments_time_ordered(segs: Seq<(u64, u64, Seq<char>)>) -> bool {
    &&& forall|i: int, j: int| 0 <= i < j < segs.len() ==> segs[i].0 <= segs[j].0
    &&& forall|i: int| 0 <= i < segs.len() ==> segs[i].0 <= #[trigger] segs[i].1
}

proof fn lemma_insert_pos_props(t: Seq<MergedToken>, x: MergedToken)
    ensures
        0 <= insert_pos(t, x) <= t.len(),
        forall|k: int| insert_pos(t, x) <= k < t.len() ==> goes_before(x, #[trigger] t[k]),
        insert_pos(t, x) > 0 ==> !goes_before(x, t[insert_pos(t, x) - 1]),
    decreases t.len(),
{
    if t.len() > 0 && goes_before(x, t.last()) {
        lemma_insert_pos_props(t.drop_last(), x);
        assert forall|k: int| insert_pos(t, x) <= k < t.len() implies goes_before(x, #[trigger] t[k]) by {
            if k < t.len() - 1 {
                assert(t[k] == t.drop_last()[k]);
            }
        }
    }
}

proof fn lemma_sorted_tokens_ordered(s: Seq<MergedToken>)
    ensures
        tokens_time_ordered(sorted_tokens(s)),
        sorted_tokens(s).len() == s.len(),
    decreases s.len(),
{
    lemma_sorted_len(s);
    if s.len() > 0 {
        let t = sorted_tokens(s.drop_last());
        let x = s.last();
        lemma_sorted_tokens_ordered(s.drop_last());
        lemma_insert_pos_props(t, x);
        let p = insert_pos(t, x);
        let r = t.insert(p, x);
        assert forall|i: int, j: int| 0 <= i < j < r.len() implies r[i].ts_ms <= r[j].ts_ms by {
            if i < p && j < p {
                assert(r[i] == t[i] && r[j] == t[j]);
            } else if i < p && j == p {
                assert(t[p - 1].ts_ms <= x.ts_ms);
                assert(r[i] == t[i]);
            } else if i < p && j > p {
                assert(r[i] == t[i] && r[j] == t[j - 1]);
            } else if i == p {
                assert(r[j] == t[j - 1]);
                assert(goes_before(x, t[j - 1]));
            } else {
                assert(r[i] == t[i - 1] && r[j] == t[j - 1]);
            }
        }
    }
}

proof fn lemma_deduped_ordered(s: Seq<MergedToken>, n: int)
    requires
        tokens_time_ordered(s),
        0 <= n <= s.len(),
    ensures
        timed_ordered(deduped(s, n)),
        n > 0 ==> forall|k: int|
            0 <= k < deduped(s, n).len() ==> #[trigger] deduped(s, n)[k].0 <= s[n - 1].ts_ms,
    decreases n,
{
    if n > 0 {
        lemma_deduped_ordered(s, n - 1);
        let prev = deduped(s, n - 1);
        let d = deduped(s, n);
        if n > 1 {
            assert(s[n - 2].ts_ms <= s[n - 1].ts_ms);
        }
        assert forall|k: int| 0 <= k < d.len() implies #[trigger] d[k].0 <= s[n - 1].ts_ms by {
            if k < prev.len() {
                assert(d[k] == prev[k]);
            }
        }
        assert forall|i: int, j: int| 0 <= i < j < d.len() implies d[i].0 <= d[j].0 by {
            if j < prev.len() {
                assert(d[i] == prev[i] && d[j] == prev[j]);
            } else {
                assert(d[i] == prev[i]);
            }
        }
    }
}

/// The segmentation keeps its segments ordered and below the current token.
pub open spec fn seg_state_ordered(st: SegState, toks: Seq<(u64, String)>, n: int) -> bool {
    &&& segments_time_ordered(st.0)
    &&& n > 0 ==> forall|k: int| 0 <= k < st.0.len() ==> #[trigger] st.0[k].1 <= toks[n - 1].0
    &&& st.2 matches Some(s) ==> n > 0 && s <= toks[n - 1].0 && forall|k: int|
        0 <= k < st.0.len() ==> #[trigger] st.0[k].1 <= s
}

proof fn lemma_seg_state_ordered(toks: Seq<(u64, String)>, en: bool, n: int)
    requires
        timed_ordered(toks),
        0 <= n <= toks.len(),
    ensures
        seg_state_ordered(seg_state(toks, en, n), toks, n),
    decreases n,
{
    if n > 0 {
        lemma_seg_state_ordered(toks, en, n - 1);
        let st = seg_state(toks, en, n - 1);
        let i = n - 1;
        let ts = toks[i].0;
        if n > 1 {
            assert(toks[n - 2].0 <= ts);
        }
        let start = match st.2 {
            Some(s) => s,
            None => ts,
        };
        assert(start <= ts);
        assert forall|k: int| 0 <= k < st.0.len() implies #[trigger] st.0[k].1 <= start by {}
        let nst = seg_state(toks, en, n);
        assert(nst == seg_step(toks, en, i, st));
        let out = nst.0;
        if out.len() > st.0.len() {
            assert(out == st.0.push((start, ts, trim(st.1 + toks[i].1@))));
            assert forall|a: int, b: int| 0 <= a < b < out.len() implies out[a].0 <= out[b].0 by {
                if b < st.0.len() {
                    assert(out[a] == st.0[a] && out[b] == st.0[b]);
                } else {
                    assert(out[a] == st.0[a]);
                    assert(st.0[a].0 <= st.0[a].1);
                }
            }
            assert forall|a: int| 0 <= a < out.len() implies out[a].0 <= #[trigger] out[a].1 by {
                if a < st.0.len() {
                    assert(out[a] == st.0[a]);
                }
            }
            assert forall|k: int| 0 <= k < out.len() implies #[trigger] out[k].1 <= toks[n - 1].0 by {
                if k < st.0.len() {
                    assert(out[k] == st.0[k]);
                }
            }
        }
    }
}

proof fn lemma_segments_ordered(toks: Seq<(u64, String)>, en: bool)
    requires
        timed_ordered(toks),
    ensures
        segments_time_ordered(segments_of(toks, en)),
{
    let n = toks.len() as int;
    lemma_seg_state_ordered(toks, en, n);
    let st = seg_state(toks, en, n);
    let out = segments_of(toks, en);
    if out.len() > st.0.len() {
        let last_ms: u64 = toks.last().0;
        let start = match st.2 {
            Some(s) => s,
            None => last_ms,
        };
        assert(out == st.0.push((start, last_ms, trim(st.1))));
        assert forall|k: int| 0 <= k < st.0.len() implies #[trigger] st.0[k].1 <= start by {}
        assert forall|a: int, b: int| 0 <= a < b < out.len() implies out[a].0 <= out[b].0 by {
            if b < st.0.len() {
                assert(out[a] == st.0[a] && out[b] == st.0[b]);
            } else {
                assert(out[a] == st.0[a]);
                assert(st.0[a].0 <= st.0[a].1);
            }
        }
        assert forall|a: int| 0 <= a < out.len() implies out[a].0 <= #[trigger] out[a].1 by {
            if a < st.0.len() {
                assert(out[a] == st.0[a]);
            }
        }
    }
}

proof fn lemma_fallback_ordered(results: Seq<RecognitionResult>, windows: Seq<TimeWindow>, n: int)
    requires
        0 <= n <= windows.len(),
        n <= results.len(),
        forall|i: int, j: int| 0 <= i < j < windows.len() ==> windows[i].start_ms <= windows[j].start_ms,
    ensures
        segments_time_ordered(fallback_segments(results, windows, n)),
        n > 0 ==> forall|k: int|
            0 <= k < fallback_segments(results, windows, n).len() ==> #[trigger] fallback_segments(
                results,
                windows,
                n,
            )[k].0 <= windows[n - 1].start_ms,
    decreases n,
{
    if n > 0 {
        lemma_fallback_ordered(results, windows, n - 1);
        let prev = fallback_segments(results, windows, n - 1);
        let out = fallback_segments(results, windows, n);
        if n > 1 {
            assert(windows[n - 2].start_ms <= windows[n - 1].start_ms);
        }
        assert forall|k: int| 0 <= k < out.len() implies #[trigger] out[k].0 <= windows[n - 1].start_ms by {
            if k < prev.len() {
                assert(out[k] == prev[k]);
            }
        }
        assert forall|a: int, b: int| 0 <= a < b < out.len() implies out[a].0 <= out[b].0 by {
            if b < prev.len() {
                assert(out[a] == prev[a] && out[b] == prev[b]);
            } else {
                assert(out[a] == prev[a]);
            }
        }
        assert forall|a: int| 0 <= a < out.len() implies out[a].0 <= #[trigger] out[a].1 by {
            if a < prev.len() {
                assert(out[a] == prev[a]);
            }
        }
    }
}

/// The transcript is in time order: segment starts never decrease along
/// it, and no segment ends before it starts. Holds for windows given in
/// order of their starts, as `plan_windows` makes them.
pub proof fn lemma_transcript_time_ordered(
    results: Seq<RecognitionResult>,
    windows: Seq<TimeWindow>,
    en: bool,
)
    requires
        forall|i: int, j: int| 0 <= i < j < windows.len() ==> windows[i].start_ms <= windows[j].start_ms,
    ensures
        segments_time_ordered(merged_transcript(results, windows, en)),
{
    let all = collected(results, windows, paired(results, windows));
    if all.len() == 0 {
        lemma_fallback_ordered(results, windows, paired(results, windows));
    } else {
        let sorted = sorted_tokens(all);
        lemma_sorted_tokens_ordered(all);
        lemma_deduped_ordered(sorted, all.len() as int);
        lemma_segments_ordered(deduped(sorted, all.len() as int), en);
    }
}

/// Reconciling the same results over the same windows twice gives the same
/// transcript.
pub proof fn lemma_reconciliation_repeatable(
    results: Seq<RecognitionResult>,
    windows: Seq<TimeWindow>,
    en: bool,
    first: Seq<(u64, u64, String)>,
    second: Seq<(u64, u64, String)>,
)
    requires
        segs_view(first) == merged_transcript(results, windows, en),
        segs_view(second) == merged_transcript(results, windows, en),
    ensures
        segs_view(first) == segs_view(second),
{
}


/// Every token has a non-blank text.
pub open spec fn all_visible(s: Seq<MergedToken>) -> bool {
    forall|i: int| 0 <= i < s.len() ==> trim((#[trigger] s[i]).text@).len() > 0
}

proof fn lemma_projected_visible(toks: Seq<String>, ts: Seq<u64>, n: int)
    ensures
        forall|i: int|
            0 <= i < projected(toks, ts, n).len() ==> trim((#[trigger] projected(toks, ts, n)[i]).1@).len() > 0,
    decreases n,
{
    if n > 0 {
        lemma_projected_visible(toks, ts, n - 1);
        let prev = projected(toks, ts, n - 1);
        let cur = projected(toks, ts, n);
        assert forall|i: int| 0 <= i < cur.len() implies trim((#[trigger] cur[i]).1@).len() > 0 by {
            if i < prev.len() {
                assert(cur[i] == prev[i]);
            }
        }
    }
}

proof fn lemma_placed_visible(toks: Seq<(u64, String)>, w: TimeWindow, first: bool, last: bool, n: int)
    requires
        n <= toks.len(),
        forall|i: int| 0 <= i < toks.len() ==> trim((#[trigger] toks[i]).1@).len() > 0,
    ensures
        all_visible(placed(toks, w, first, last, n)),
    decreases n,
{
    if n > 0 {
        lemma_placed_visible(toks, w, first, last, n - 1);
        let prev = placed(toks, w, first, last, n - 1);
        let cur = placed(toks, w, first, last, n);
        assert forall|i: int| 0 <= i < cur.len() implies trim((#[trigger] cur[i]).text@).len() > 0 by {
            if i < prev.len() {
                assert(cur[i] == prev[i]);
            } else {
                assert(cur[i].text == toks[n - 1].1);
            }
        }
    }
}

proof fn lemma_collected_visible(results: Seq<RecognitionResult>, windows: Seq<TimeWindow>, n: int)
    requires
        n <= results.len(),
        n <= windows.len(),
    ensures
        all_visible(collected(results, windows, n)),
    decreases n,
{
    if n > 0 {
        lemma_collected_visible(results, windows, n - 1);
        let r = results[n - 1];
        let toks = projected(r.tokens@, r.timestamps_ms@, r.tokens@.len() as int);
        lemma_projected_visible(r.tokens@, r.timestamps_ms@, r.tokens@.len() as int);
        lemma_placed_visible(toks, windows[n - 1], n - 1 == 0, n >= windows.len(), toks.len() as int);
        let a = collected(results, windows, n - 1);
        let b = placed(toks, windows[n - 1], n - 1 == 0, n >= windows.len(), toks.len() as int);
        assert forall|i: int| 0 <= i < (a + b).len() implies trim((#[trigger] (a + b)[i]).text@).len() > 0 by {
            if i < a.len() {
                assert((a + b)[i] == a[i]);
            } else {
                assert((a + b)[i] == b[i - a.len()]);
            }
        }
    }
}

proof fn lemma_sorted_visible(s: Seq<MergedToken>)
    requires
        all_visible(s),
    ensures
        all_visible(sorted_tokens(s)),
    decreases s.len(),
{
    if s.len() > 0 {
        let t = sorted_tokens(s.drop_last());
        let x = s.last();
        assert forall|i: int| 0 <= i < s.drop_last().len() implies trim((#[trigger] s.drop_last()[i]).text@).len() > 0 by {
            assert(s.drop_last()[i] == s[i]);
        }
        lemma_sorted_visible(s.drop_last());
        lemma_insert_pos_bounds(t, x);
        let p = insert_pos(t, x);
        let r = t.insert(p, x);
        assert forall|i: int| 0 <= i < r.len() implies trim((#[trigger] r[i]).text@).len() > 0 by {
            if i < p {
                assert(r[i] == t[i]);
            } else if i > p {
                assert(r[i] == t[i - 1]);
            }
        }
    }
}

proof fn lemma_deduped_visible(s: Seq<MergedToken>, n: int)
    requires
        all_visible(s),
        0 <= n <= s.len(),
    ensures
        forall|i: int| 0 <= i < deduped(s, n).len() ==> trim((#[trigger] deduped(s, n)[i]).1@).len() > 0,
        n > 0 ==> deduped(s, n).len() > 0,
    decreases n,
{
    if n > 0 {
        lemma_deduped_visible(s, n - 1);
        let prev = deduped(s, n - 1);
        let cur = deduped(s, n);
        assert forall|i: int| 0 <= i < cur.len() implies trim((#[trigger] cur[i]).1@).len() > 0 by {
            if i < prev.len() {
                assert(cur[i] == prev[i]);
            }
        }
    }
}

proof fn lemma_seg_state_visible(toks: Seq<(u64, String)>, en: bool, n: int)
    requires
        0 <= n <= toks.len(),
        forall|i: int| 0 <= i < toks.len() ==> trim((#[trigger] toks[i]).1@).len() > 0,
    ensures
        n > 0 ==> seg_state(toks, en, n).0.len() > 0 || trim(seg_state(toks, en, n).1).len() > 0,
    decreases n,
{
    if n > 0 {
        lemma_seg_state_visible(toks, en, n - 1);
        let st = seg_state(toks, en, n - 1);
        crate::text::lemma_visible_concat(st.1, toks[n - 1].1@);
    }
}

proof fn lemma_fallback_grows(results: Seq<RecognitionResult>, windows: Seq<TimeWindow>, k: int, n: int)
    requires
        0 <= k < n,
        trim(results[k].text@).len() > 0,
    ensures
        fallback_segments(results, windows, n).len() > 0,
    decreases n,
{
    if n - 1 > k {
        lemma_fallback_grows(results, windows, k, n - 1);
    }
}

/// A transcript is never empty when a window with a result produced text:
/// its tokens, or failing those its plain text, make at least one segment.
pub proof fn lemma_transcript_not_empty(
    results: Seq<RecognitionResult>,
    windows: Seq<TimeWindow>,
    en: bool,
    k: int,
)
    requires
        0 <= k < paired(results, windows),
        trim(results[k].text@).len() > 0,
    ensures
        merged_transcript(results, windows, en).len() > 0,
{
    let n = paired(results, windows);
    let all = collected(results, windows, n);
    if all.len() == 0 {
        lemma_fallback_grows(results, windows, k, n);
    } else {
        lemma_collected_visible(results, windows, n);
        lemma_sorted_visible(all);
        lemma_sorted_len(all);
        let sorted = sorted_tokens(all);
        lemma_deduped_visible(sorted, all.len() as int);
        let toks = deduped(sorted, all.len() as int);
        lemma_seg_state_visible(toks, en, toks.len() as int);
    }
}

} // verus!
