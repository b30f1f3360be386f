//! Decisions of the batch translation pipeline: batching, classification of
//! failures, the bisecting work-list that repairs incomplete batches, and the
//! assembly of the translated and bilingual tracks.

use vstd::prelude::*;
use vstd::string::StrSliceExecFns;
use vstd::string::StringExecFns;
use crate::text::{chars_of, contains, lower_of, lowercase, str_contains, trim, trim_chars, string_of};

verus! {

/// True when `s` contains any of `needles`.
pub open spec fn contains_any(s: Seq<char>, needles: Seq<Seq<char>>) -> bool {
    exists|i: int| 0 <= i < needles.len() && contains(s, #[trigger] needles[i])
}

pub(crate) fn contains_any_exec(s: &str, needles: &Vec<&str>) -> (r: bool)
    ensures
        r == contains_any(s@, needles@.map_values(|n: &str| n@)),
{
    let ghost ns = needles@.map_values(|n: &str| n@);
    let mut i: usize = 0;
    while i < needles.len()
        invariant
            i <= needles@.len(),
            ns == needles@.map_values(|n: &str| n@),
            forall|k: int| 0 <= k < i ==> !contains(s@, #[trigger] ns[k]),
        decreases needles@.len() - i,
    {
        if str_contains(s, needles[i]) {
            assert(contains(s@, ns[i as int]));
            return true;
        }
        i = i + 1;
    }
    false
}

/// Failure messages that mean the reply was cut off or unusable, so that a
/// smaller batch may succeed where this one failed.
pub open spec fn split_markers() -> Seq<Seq<char>> {
    seq![
        "translate output missing json"@,
        "missing segments array"@,
        "had no usable segments"@,
        "translate output too few items"@,
        "does not look like chinese"@,
        "openai response missing content"@,
        "event-stream returned no content"@,
    ]
}

/// True when a failed batch should be bisected rather than given up: its
/// lower-cased message names a truncated, unparsable or implausible reply.
pub fn should_split_translation_error(err: &str) -> (r: bool)
    ensures
        r == contains_any(lower_of(err@), split_markers()),
{
    let e = lowercase(err);
    let needles = vec![
        "translate output missing json",
        "missing segments array",
        "had no usable segments",
        "translate output too few items",
        "does not look like chinese",
        "openai response missing content",
        "event-stream returned no content",
    ];
    assert(needles@.map_values(|n: &str| n@) =~= split_markers());
    contains_any_exec(e.as_str(), &needles)
}

/// Failure messages of a transient upstream condition, worth retrying as they are.
pub open spec fn transient_markers() -> Seq<Seq<char>> {
    seq![
        "http 429"@,
        "rate limit"@,
        "http 503"@,
        "http 502"@,
        "http 504"@,
        "timeout"@,
        "temporarily"@,
        "try again"@,
    ]
}

/// True when a failed request names a transient condition (rate limiting,
/// a gateway error, a timeout, an explicit request to try again).
pub fn is_transient_error(err: &str) -> (r: bool)
    ensures
        r == contains_any(lower_of(err@), transient_markers()),
{
    let e = lowercase(err);
    let needles = vec![
        "http 429",
        "rate limit",
        "http 503",
        "http 502",
        "http 504",
        "timeout",
        "temporarily",
        "try again",
    ];
    assert(needles@.map_values(|n: &str| n@) =~= transient_markers());
    contains_any_exec(e.as_str(), &needles)
}

/// Requests made for one output format before giving up on it.
pub const MAX_ATTEMPTS: usize = 3;

/// The pause before retrying after attempt `attempt` (from 0).
pub open spec fn backoff_ms(attempt: int) -> u64 {
    if attempt == 0 {
        350
    } else if attempt == 1 {
        900
    } else {
        1700
    }
}

/// After attempt `attempt` (from 0) failed with `err`: the pause before the
/// next attempt, or `None` when the failure is not transient or the attempts
/// are used up.
pub fn retry_delay_ms(attempt: usize, err: &str) -> (r: Option<u64>)
    ensures
        r == (if contains_any(lower_of(err@), transient_markers()) && attempt + 1
            < MAX_ATTEMPTS {
            Some(backoff_ms(attempt as int))
        } else {
            None
        }),
{
    if !is_transient_error(err) || attempt >= MAX_ATTEMPTS - 1 {
        return None;
    }
    if attempt == 0 {
        Some(350)
    } else if attempt == 1 {
        Some(900)
    } else {
        Some(1700)
    }
}


/// One segment to translate.
pub struct TranslationUnit {
    pub id: String,
    pub text: String,
}

/// The units of the first `n` segments `(id, text)`: both trimmed, kept
/// when neither is blank.
pub open spec fn units_of(segs: Seq<(String, String)>, n: int) -> Seq<(Seq<char>, Seq<char>)>
    decreases n,
{
    if n <= 0 {
        Seq::empty()
    } else {
        let prev = units_of(segs, n - 1);
        let id = trim(segs[n - 1].0@);
        let text = trim(segs[n - 1].1@);
        if id.len() > 0 && text.len() > 0 {
            prev.push((id, text))
        } else {
            prev
        }
    }
}

/// The view of a list of units.
pub open spec fn units_view(v: Seq<TranslationUnit>) -> Seq<(Seq<char>, Seq<char>)> {
    v.map_values(|u: TranslationUnit| (u.id@, u.text@))
}

/// The translation units of a track's segments `(id, text)`.
pub fn collect_units(segs: &[(String, String)]) -> (r: Vec<TranslationUnit>)
    ensures
        units_view(r@) == units_of(segs@, segs@.len() as int),
{
    let mut out: Vec<TranslationUnit> = Vec::new();
    let mut i: usize = 0;
    while i < segs.len()
        invariant
            i <= segs@.len(),
            units_view(out@) == units_of(segs@, i as int),
        decreases segs@.len() - i,
    {
        let a = chars_of(segs[i].0.as_str());
        let b = chars_of(segs[i].1.as_str());
        let id = trim_chars(a.as_slice());
        let text = trim_chars(b.as_slice());
        if id.len() > 0 && text.len() > 0 {
            let u = TranslationUnit { id: string_of(id.as_slice()), text: string_of(text.as_slice()) };
            let ghost before = out@;
            out.push(u);
            assert(units_view(out@) =~= units_view(before).push((id@, text@)));
        }
        i = i + 1;
    }
    out
}

/// What a unit adds to a batch's character budget.
pub open spec fn unit_cost(u: TranslationUnit) -> int {
    u.text@.len() as int + 32
}

/// Closed batches `[start, end)`, the open batch's start and its cost so far.
pub type BatchState = (Seq<(usize, usize)>, int, int);

/// The batches after the first `n` units: a unit opens a new batch when the
/// open one is non-empty and already holds `max_items` units or would exceed
/// `max_chars` with it.
pub open spec fn batch_state(units: Seq<TranslationUnit>, max_items: usize, max_chars: usize, n: int) -> BatchState
    decreases n,
{
    if n <= 0 {
        (Seq::empty(), 0, 0)
    } else {
        let st = batch_state(units, max_items, max_chars, n - 1);
        let add = unit_cost(units[n - 1]);
        if n - 1 > st.1 && (n - 1 - st.1 >= max_items || st.2 + add > max_chars) {
            (st.0.push((st.1 as usize, (n - 1) as usize)), n - 1, add)
        } else {
            (st.0, st.1, st.2 + add)
        }
    }
}

/// The contiguous batches `[start, end)` of the units, bounded by a count of
/// items and a budget of characters (each unit costs its length plus 32).
pub open spec fn batches_of(units: Seq<TranslationUnit>, max_items: usize, max_chars: usize) -> Seq<(usize, usize)> {
    let st = batch_state(units, max_items, max_chars, units.len() as int);
    if units.len() > st.1 {
        st.0.push((st.1 as usize, units.len() as usize))
    } else {
        st.0
    }
}

/// Groups the units into contiguous batches bounded by `max_items` units and
/// `max_chars` characters (a unit costs its length plus 32); a unit that
/// alone exceeds the budget forms a batch of its own.
pub fn plan_batches(units: &[TranslationUnit], max_items: usize, max_chars: usize) -> (r: Vec<
    (usize, usize),
>)
    ensures
        r@ == batches_of(units@, max_items, max_chars),
{
    let mut out: Vec<(usize, usize)> = Vec::new();
    let mut cur_start: usize = 0;
    let mut cur_chars: u128 = 0;
    let mut i: usize = 0;
    while i < units.len()
        invariant
            i <= units@.len(),
            batch_state(units@, max_items, max_chars, i as int) == (out@, cur_start as int, cur_chars as int),
            cur_start <= i,
            cur_start == i ==> cur_chars == 0,
            cur_chars <= 0x2_0000_0000_0000_0000u128,
        decreases units@.len() - i,
    {
        let add: u128 = units[i].text.as_str().unicode_len() as u128 + 32;
        if i > cur_start && ((i - cur_start) >= max_items || cur_chars + add > max_chars as u128) {
            out.push((cur_start, i));
            cur_start = i;
            cur_chars = add;
        } else {
            cur_chars = cur_chars + add;
        }
        i = i + 1;
    }
    if units.len() > cur_start {
        out.push((cur_start, units.len()));
    }
    out
}


/// Most bisections one work-list performs.
pub const MAX_SPLITS: usize = 512;

/// Most ranges one work-list takes up.
pub const MAX_ITERATIONS: usize = 2048;

/// The work-list of one translation pass over `ids` (indices of units): a
/// stack of ranges `[start, end)` over `ids`, the earlier half of a split on
/// top, bounded by `MAX_SPLITS` bisections and `MAX_ITERATIONS` ranges.
pub struct AutoSplit {
    pub ids: Vec<usize>,
    pub pending: Vec<(usize, usize)>,
    pub splits: usize,
    pub iterations: usize,
    pub finished: bool,
    pub last_error: Option<String>,
}

/// A batch to send: the range of the work-list's ids and the untranslated
/// units in it, in order.
pub struct BatchRequest {
    pub start: usize,
    pub end: usize,
    pub units: Vec<usize>,
}

/// The untranslated units among `ids[s..e]`, in order.
pub open spec fn untranslated(ids: Seq<usize>, done: Seq<Option<String>>, s: int, e: int) -> Seq<usize>
    decreases e - s,
{
    if e <= s {
        Seq::empty()
    } else {
        let prev = untranslated(ids, done, s, e - 1);
        let u = ids[e - 1];
        if u < done.len() && done[u as int] is None {
            prev.push(u)
        } else {
            prev
        }
    }
}

/// Taking ranges off the stack until one holds untranslated units: the
/// stack left, the iteration count, and that range (clipped to `ids`) if
/// one was found before the stack or the iteration budget ran out.
pub open spec fn scan(
    pending: Seq<(usize, usize)>,
    iters: int,
    ids: Seq<usize>,
    done: Seq<Option<String>>,
) -> (Seq<(usize, usize)>, int, Option<(int, int)>)
    decreases pending.len(),
{
    if pending.len() == 0 {
        (pending, iters, None)
    } else {
        let top = pending.last();
        let rest = pending.drop_last();
        let it = iters + 1;
        if it > MAX_ITERATIONS {
            (rest, it, None)
        } else {
            let e: int = if top.1 < ids.len() {
                top.1 as int
            } else {
                ids.len() as int
            };
            if top.0 >= e || untranslated(ids, done, top.0 as int, e).len() == 0 {
                scan(rest, it, ids, done)
            } else {
                (rest, it, Some((top.0 as int, e)))
            }
        }
    }
}

proof fn lemma_scan_counts(
    pending: Seq<(usize, usize)>,
    iters: int,
    ids: Seq<usize>,
    done: Seq<Option<String>>,
)
    requires
        iters <= MAX_ITERATIONS,
    ensures
        scan(pending, iters, ids, done).1 >= iters,
        scan(pending, iters, ids, done).1 <= MAX_ITERATIONS + 1,
        scan(pending, iters, ids, done).2 is Some ==> iters < scan(pending, iters, ids, done).1
            <= MAX_ITERATIONS,
        scan(pending, iters, ids, done).2 matches Some(r) ==> 0 <= r.0 < r.1 <= ids.len(),
    decreases pending.len(),
{
    if pending.len() > 0 && iters + 1 <= MAX_ITERATIONS {
        lemma_scan_counts(pending.drop_last(), iters + 1, ids, done);
    }
}

impl AutoSplit {
    /// The bookkeeping stays within its ceilings.
    pub open spec fn wf(&self) -> bool {
        &&& self.splits <= MAX_SPLITS
        &&& self.iterations <= MAX_ITERATIONS + 1
        &&& !self.finished ==> self.iterations <= MAX_ITERATIONS
    }

    /// A work-list holding one range over all of `ids`.
    pub fn new(ids: Vec<usize>) -> (r: AutoSplit)
        ensures
            r.wf(),
            r.ids == ids,
            r.pending@ == seq![(0usize, ids@.len() as usize)],
            r.splits == 0,
            r.iterations == 0,
            !r.finished,
            r.last_error is None,
    {
        let n = ids.len();
        let mut pending: Vec<(usize, usize)> = Vec::new();
        pending.push((0, n));
        AutoSplit { ids, pending, splits: 0, iterations: 0, finished: false, last_error: None }
    }

    /// The untranslated units among `ids[s..e]`.
    fn untranslated_in(&self, done: &Vec<Option<String>>, s: usize, e: usize) -> (r: Vec<usize>)
        requires
            s <= e <= self.ids@.len(),
        ensures
            r@ == untranslated(self.ids@, done@, s as int, e as int),
    {
        let mut out: Vec<usize> = Vec::new();
        let mut k: usize = s;
        while k < e
            invariant
                s <= k <= e <= self.ids@.len(),
                out@ == untranslated(self.ids@, done@, s as int, k as int),
            decreases e - k,
        {
            let u = self.ids[k];
            if u < done.len() && done[u].is_none() {
                out.push(u);
            }
            k = k + 1;
        }
        out
    }

    /// The next batch to send: ranges come off the stack, each counting
    /// against the iteration budget, until one holds untranslated units.
    /// `None` once the stack is empty or the budget spent; the work-list is
    /// then finished and stays so. Each batch handed out raises the count,
    /// which never passes `MAX_ITERATIONS`, so a work-list hands out at most
    /// `MAX_ITERATIONS` batches whatever their outcomes.
    pub fn next_batch(&mut self, done: &Vec<Option<String>>) -> (r: Option<BatchRequest>)
        requires
            old(self).wf(),
        ensures
            final(self).wf(),
            final(self).ids == old(self).ids,
            final(self).splits == old(self).splits,
            final(self).last_error == old(self).last_error,
            old(self).finished ==> r is None && *final(self) == *old(self),
            !old(self).finished ==> {
                let sc = scan(old(self).pending@, old(self).iterations as int, old(self).ids@, done@);
                &&& final(self).pending@ == sc.0
                &&& final(self).iterations == sc.1
                &&& final(self).finished == (sc.2 is None)
                &&& match r {
                    None => sc.2 is None,
                    Some(req) => sc.2 == Some((req.start as int, req.end as int)) && req.units@
                        == untranslated(old(self).ids@, done@, req.start as int, req.end as int),
                }
            },
            r is Some ==> old(self).iterations < final(self).iterations <= MAX_ITERATIONS,
            r matches Some(req) ==> req.start < req.end <= final(self).ids@.len() && req.units@.len() > 0,
    {
        if self.finished {
            return None;
        }
        let ghost stack0 = self.pending@;
        let ghost iters0 = self.iterations as int;
        proof {
            lemma_scan_counts(stack0, iters0, self.ids@, done@);
        }
        loop
            invariant
                self.wf(),
                !self.finished,
                !old(self).finished,
                stack0 == old(self).pending@,
                iters0 == old(self).iterations as int,
                iters0 <= self.iterations,
                scan(stack0, iters0, self.ids@, done@).2 is Some ==> iters0 < scan(stack0, iters0, self.ids@, done@).1
                    <= MAX_ITERATIONS,
                self.ids == old(self).ids,
                self.splits == old(self).splits,
                self.last_error == old(self).last_error,
                scan(self.pending@, self.iterations as int, self.ids@, done@) == scan(stack0, iters0, self.ids@, done@),
            decreases self.pending@.len(),
        {
            proof {
                lemma_scan_counts(self.pending@, self.iterations as int, self.ids@, done@);
            }
            let ghost before = self.pending@;
            let top = match self.pending.pop() {
                None => {
                    self.finished = true;
                    return None;
                },
                Some(t) => t,
            };
            assert(before.drop_last() == self.pending@);
            self.iterations = self.iterations + 1;
            if self.iterations > MAX_ITERATIONS {
                self.finished = true;
                return None;
            }
            let n = self.ids.len();
            let e = if top.1 < n {
                top.1
            } else {
                n
            };
            if top.0 < e {
                let units = self.untranslated_in(done, top.0, e);
                if units.len() > 0 {
                    return Some(BatchRequest { start: top.0, end: e, units });
                }
            }
        }
    }

    /// Fills `done` from a reply's pairs, for the units of `ids[s..e]`.
    fn apply_reply(
        &self,
        done: &mut Vec<Option<String>>,
        units: &[TranslationUnit],
        s: usize,
        e: usize,
        pairs: &Vec<(String, String)>,
    )
        requires
            s <= e <= self.ids@.len(),
        ensures
            final(done)@ == apply_pairs(old(done)@, units@, self.ids@, s as int, e as int, pairs@, pairs@.len() as int),
    {
        let mut i: usize = 0;
        while i < pairs.len()
            invariant
                s <= e <= self.ids@.len(),
                i <= pairs@.len(),
                done@ == apply_pairs(old(done)@, units@, self.ids@, s as int, e as int, pairs@, i as int),
            decreases pairs@.len() - i,
        {
            let ghost d0 = done@;
            let p = &pairs[i];
            let mut k: usize = s;
            while k < e
                invariant
                    s <= k <= e <= self.ids@.len(),
                    done@.len() == d0.len(),
                    forall|u: int|
                        0 <= u < d0.len() ==> #[trigger] done@[u] == if p.1@.len() > 0 && u < units@.len()
                            && units@[u].id@ == p.0@ && in_range(self.ids@, s as int, k as int, u) {
                            Some(p.1)
                        } else {
                            d0[u]
                        },
                decreases e - k,
            {
                let u = self.ids[k];
                let hit = u < done.len() && u < units.len() && p.1.as_str().unicode_len() > 0
                    && units[u].id == p.0;
                if hit {
                    done.set(u, Some(p.1.clone()));
                }
                proof {
                    assert forall|w: int| 0 <= w < d0.len() implies #[trigger] done@[w] == if p.1@.len() > 0
                        && w < units@.len() && units@[w].id@ == p.0@ && in_range(
                        self.ids@,
                        s as int,
                        k + 1,
                        w,
                    ) {
                        Some(p.1)
                    } else {
                        d0[w]
                    } by {
                        if in_range(self.ids@, s as int, k + 1, w) && !in_range(self.ids@, s as int, k as int, w) {
                            let j = choose|j: int| s <= j < k + 1 && self.ids@[j] == w;
                            assert(j == k);
                        }
                        if in_range(self.ids@, s as int, k as int, w) {
                            let j = choose|j: int| s <= j < k && self.ids@[j] == w;
                            assert(s <= j < k + 1 && self.ids@[j] == w);
                        }
                        if w == u {
                            assert(self.ids@[k as int] == w);
                        }
                    }
                }
                k = k + 1;
            }
            assert(done@ =~= apply_pair(d0, units@, self.ids@, s as int, e as int, pairs@[i as int]));
            i = i + 1;
        }
    }

    /// Counts the untranslated units among `ids[s..e]`.
    fn count_untranslated(&self, done: &Vec<Option<String>>, s: usize, e: usize) -> (r: usize)
        requires
            s <= e <= self.ids@.len(),
        ensures
            r == untranslated(self.ids@, done@, s as int, e as int).len(),
    {
        let v = self.untranslated_in(done, s, e);
        v.len()
    }

    /// Takes the outcome of the batch `req`: the pairs of a reply fill the
    /// translations of the units in its range; a failure keeps its message.
    /// The range is then bisected (earlier half on top) as `splits_after`
    /// says.
    pub fn record(
        &mut self,
        req: &BatchRequest,
        outcome: Result<Vec<(String, String)>, String>,
        units: &[TranslationUnit],
        done: &mut Vec<Option<String>>,
    )
        requires
            old(self).wf(),
            req.start <= req.end <= old(self).ids@.len(),
        ensures
            final(self).wf(),
            final(self).ids == old(self).ids,
            final(self).iterations == old(self).iterations,
            final(self).finished == old(self).finished,
            ({
                let s = req.start as int;
                let e = req.end as int;
                let done2 = match outcome {
                    Ok(pairs) => apply_pairs(old(done)@, units@, old(self).ids@, s, e, pairs@, pairs@.len() as int),
                    Err(_) => old(done)@,
                };
                let split = splits_after(
                    outcome is Ok,
                    untranslated(old(self).ids@, done2, s, e).len() as int,
                    req.units@.len() as int,
                    match outcome {
                        Ok(_) => false,
                        Err(m) => contains_any(lower_of(m@), split_markers()),
                    },
                    old(self).splits as int,
                );
                &&& final(done)@ == done2
                &&& final(self).last_error == match outcome {
                    Ok(_) => old(self).last_error,
                    Err(m) => Some(m),
                }
                &&& final(self).splits == old(self).splits + if split { 1int } else { 0int }
                &&& final(self).pending@ == if split {
                    split_ranges(old(self).pending@, s, e)
                } else {
                    old(self).pending@
                }
            }),
    {
        let s = req.start;
        let e = req.end;
        match outcome {
            Ok(pairs) => {
                self.apply_reply(done, units, s, e, &pairs);
                let remaining = self.count_untranslated(done, s, e);
                if remaining > 0 && req.units.len() > 1 && self.splits < MAX_SPLITS {
                    self.split(s, e);
                }
            },
            Err(msg) => {
                let cut = should_split_translation_error(msg.as_str());
                if req.units.len() > 1 && cut && self.splits < MAX_SPLITS {
                    self.split(s, e);
                }
                self.last_error = Some(msg);
            },
        }
    }

    /// Pushes the two halves of `[s, e)`, the earlier on top, when the range
    /// can still be split.
    fn split(&mut self, s: usize, e: usize)
        requires
            old(self).wf(),
            old(self).splits < MAX_SPLITS,
            s <= e,
        ensures
            final(self).wf(),
            final(self).ids == old(self).ids,
            final(self).iterations == old(self).iterations,
            final(self).finished == old(self).finished,
            final(self).last_error == old(self).last_error,
            final(self).splits == old(self).splits + 1,
            final(self).pending@ == split_ranges(old(self).pending@, s as int, e as int),
    {
        self.splits = self.splits + 1;
        let mid = s + (e - s) / 2;
        if mid > s && mid < e {
            self.pending.push((mid, e));
            self.pending.push((s, mid));
        }
    }
}

/// True when unit `u` is among `ids[s..e]`.
pub open spec fn in_range(ids: Seq<usize>, s: int, e: int, u: int) -> bool {
    exists|k: int| s <= k < e && ids[k] == u
}

/// The translations after taking pair `p`: it fills every unit of
/// `ids[s..e]` whose id it names, when its text is not empty.
pub open spec fn apply_pair(
    done: Seq<Option<String>>,
    units: Seq<TranslationUnit>,
    ids: Seq<usize>,
    s: int,
    e: int,
    p: (String, String),
) -> Seq<Option<String>> {
    Seq::new(
        done.len(),
        |u: int|
            if p.1@.len() > 0 && u < units.len() && units[u].id@ == p.0@ && in_range(ids, s, e, u) {
                Some(p.1)
            } else {
                done[u]
            },
    )
}

/// The translations after taking the first `n` pairs in order.
pub open spec fn apply_pairs(
    done: Seq<Option<String>>,
    units: Seq<TranslationUnit>,
    ids: Seq<usize>,
    s: int,
    e: int,
    pairs: Seq<(String, String)>,
    n: int,
) -> Seq<Option<String>>
    decreases n,
{
    if n <= 0 {
        done
    } else {
        apply_pair(apply_pairs(done, units, ids, s, e, pairs, n - 1), units, ids, s, e, pairs[n - 1])
    }
}

/// What the work-list does with the outcome of a batch on `ids[s..e]` that
/// asked for `asked` units: on a reply, split when units are still missing;
/// on a failure, keep its message and split when it names a cut-off or
/// unusable reply. A batch of one unit, or a work-list out of splits, is
/// not split.
pub open spec fn splits_after(
    outcome_ok: bool,
    still_missing: int,
    asked: int,
    err_splits: bool,
    splits: int,
) -> bool {
    asked > 1 && splits < MAX_SPLITS && if outcome_ok {
        still_missing > 0
    } else {
        err_splits
    }
}

/// The stack after splitting `[s, e)` at its midpoint: both halves pushed,
/// the earlier on top; a range too short to split adds nothing.
pub open spec fn split_ranges(pending: Seq<(usize, usize)>, s: int, e: int) -> Seq<(usize, usize)> {
    let mid = s + (e - s) / 2;
    if mid > s && mid < e {
        pending.push((mid as usize, e as usize)).push((s as usize, mid as usize))
    } else {
        pending
    }
}


/// Every filled translation is non-empty.
pub open spec fn filled_nonempty(done: Seq<Option<String>>) -> bool {
    forall|u: int| 0 <= u < done.len() ==> (#[trigger] done[u] matches Some(t) ==> t@.len() > 0)
}

/// Taking replies never fills a translation with empty text.
pub proof fn lemma_apply_pairs_nonempty(
    done: Seq<Option<String>>,
    units: Seq<TranslationUnit>,
    ids: Seq<usize>,
    s: int,
    e: int,
    pairs: Seq<(String, String)>,
    n: int,
)
    requires
        filled_nonempty(done),
        n <= pairs.len(),
    ensures
        filled_nonempty(apply_pairs(done, units, ids, s, e, pairs, n)),
        apply_pairs(done, units, ids, s, e, pairs, n).len() == done.len(),
    decreases n,
{
    if n > 0 {
        lemma_apply_pairs_nonempty(done, units, ids, s, e, pairs, n - 1);
    }
}

/// Copies into `global` every translation that `local` holds.
pub fn merge_translations(global: &mut Vec<Option<String>>, local: &Vec<Option<String>>)
    requires
        old(global)@.len() == local@.len(),
    ensures
        final(global)@.len() == old(global)@.len(),
        forall|u: int|
            0 <= u < local@.len() ==> #[trigger] final(global)@[u] == if local@[u] is Some {
                local@[u]
            } else {
                old(global)@[u]
            },
{
    let mut i: usize = 0;
    while i < local.len()
        invariant
            i <= local@.len(),
            global@.len() == local@.len(),
            forall|u: int|
                0 <= u < local@.len() ==> #[trigger] global@[u] == if u < i && local@[u] is Some {
                    local@[u]
                } else {
                    old(global)@[u]
                },
        decreases local@.len() - i,
    {
        match &local[i] {
            Some(t) => {
                global.set(i, Some(t.clone()));
            },
            None => {},
        }
        i = i + 1;
    }
}

/// The units still without a translation, in order.
pub open spec fn missing_of(done: Seq<Option<String>>, n: int) -> Seq<usize>
    decreases n,
{
    if n <= 0 {
        Seq::empty()
    } else if done[n - 1] is None {
        missing_of(done, n - 1).push((n - 1) as usize)
    } else {
        missing_of(done, n - 1)
    }
}

/// The units still without a translation, for the final repair pass.
pub fn missing_units(done: &Vec<Option<String>>) -> (r: Vec<usize>)
    ensures
        r@ == missing_of(done@, done@.len() as int),
{
    let mut out: Vec<usize> = Vec::new();
    let mut i: usize = 0;
    while i < done.len()
        invariant
            i <= done@.len(),
            out@ == missing_of(done@, i as int),
        decreases done@.len() - i,
    {
        if done[i].is_none() {
            out.push(i);
        }
        i = i + 1;
    }
    out
}

/// The translated and the bilingual text of every unit, and how many units
/// got a genuine translation.
pub struct Assembly {
    pub translated: Vec<String>,
    pub bilingual: Vec<String>,
    pub translated_count: usize,
}

/// The text shown for a unit: its translation, or its source text.
pub open spec fn shown_text(u: TranslationUnit, t: Option<String>) -> Seq<char> {
    match t {
        Some(x) => x@,
        None => u.text@,
    }
}

/// Number of filled translations among the first `n`.
pub open spec fn filled_count(done: Seq<Option<String>>, n: int) -> int
    decreases n,
{
    if n <= 0 {
        0
    } else {
        filled_count(done, n - 1) + if done[n - 1] is Some {
            1int
        } else {
            0int
        }
    }
}

/// `a` assembles `units` with translations `done`.
pub open spec fn is_assembly(a: Assembly, units: Seq<TranslationUnit>, done: Seq<Option<String>>) -> bool {
    &&& a.translated@.len() == units.len()
    &&& a.bilingual@.len() == units.len()
    &&& a.translated_count == filled_count(done, units.len() as int)
    &&& forall|i: int|
        0 <= i < units.len() ==> #[trigger] a.translated@[i]@ == shown_text(units[i], done[i])
            && a.bilingual@[i]@ == units[i].text@ + seq!['\n'] + shown_text(units[i], done[i])
}

/// Both output tracks: for each unit its translation, or its source text
/// when it has none; the bilingual track joins source and shown text with a
/// line break.
pub fn assemble(units: &[TranslationUnit], done: &Vec<Option<String>>) -> (r: Assembly)
    requires
        done@.len() == units@.len(),
    ensures
        is_assembly(r, units@, done@),
{
    let mut translated: Vec<String> = Vec::new();
    let mut bilingual: Vec<String> = Vec::new();
    let mut count: usize = 0;
    let mut i: usize = 0;
    while i < units.len()
        invariant
            i <= units@.len(),
            done@.len() == units@.len(),
            translated@.len() == i,
            bilingual@.len() == i,
            count == filled_count(done@, i as int),
            count <= i,
            forall|k: int|
                0 <= k < i ==> #[trigger] translated@[k]@ == shown_text(units@[k], done@[k])
                    && bilingual@[k]@ == units@[k].text@ + seq!['\n'] + shown_text(units@[k], done@[k]),
        decreases units@.len() - i,
    {
        let shown = match &done[i] {
            Some(t) => {
                count = count + 1;
                t.clone()
            },
            None => units[i].text.clone(),
        };
        let mut both = units[i].text.clone();
        both.append("\n");
        proof {
            reveal_strlit("\n");
            assert("\n"@ =~= seq!['\n']);
        }
        both.append(shown.as_str());
        translated.push(shown);
        bilingual.push(both);
        i = i + 1;
    }
    Assembly { translated, bilingual, translated_count: count }
}

/// Every unit of the output has text, a translation or its source: with
/// non-empty source texts and non-empty translations, the assembled track
/// has one non-empty entry per unit, each the translation when there is one
/// and the source text otherwise.
pub proof fn lemma_coverage(a: Assembly, units: Seq<TranslationUnit>, done: Seq<Option<String>>)
    requires
        is_assembly(a, units, done),
        done.len() == units.len(),
        forall|i: int| 0 <= i < units.len() ==> (#[trigger] units[i]).text@.len() > 0,
        filled_nonempty(done),
    ensures
        a.translated@.len() == units.len(),
        forall|i: int|
            0 <= i < units.len() ==> (#[trigger] a.translated@[i])@.len() > 0 && match done[i] {
                Some(t) => a.translated@[i]@ == t@,
                None => a.translated@[i]@ == units[i].text@,
            },
{
    assert forall|i: int| 0 <= i < units.len() implies (#[trigger] a.translated@[i])@.len() > 0
        && match done[i] {
        Some(t) => a.translated@[i]@ == t@,
        None => a.translated@[i]@ == units[i].text@,
    } by {
        assert(a.translated@[i]@ == shown_text(units[i], done[i]));
        assert(units[i].text@.len() > 0);
        if done[i] is Some {
            assert(done[i]->0@.len() > 0);
        }
    }
}


/// A character of the CJK Unified Ideographs block.
pub open spec fn is_han(c: char) -> bool {
    0x4E00 <= (c as u32) && (c as u32) <= 0x9FFF
}

/// True when some text of the pairs holds a Han character.
pub open spec fn has_han(pairs: Seq<(Seq<char>, Seq<char>)>) -> bool {
    exists|i: int, j: int|
        0 <= i < pairs.len() && 0 <= j < pairs[i].1.len() && is_han(#[trigger] pairs[i].1[j])
}

fn has_han_exec(pairs: &Vec<(String, String)>) -> (r: bool)
    ensures
        r == has_han(crate::response::pairs_view(pairs@)),
{
    let ghost pv = crate::response::pairs_view(pairs@);
    let mut i: usize = 0;
    while i < pairs.len()
        invariant
            i <= pairs@.len(),
            pv == crate::response::pairs_view(pairs@),
            forall|a: int, b: int|
                0 <= a < i && 0 <= b < pv[a].1.len() ==> !is_han(#[trigger] pv[a].1[b]),
        decreases pairs@.len() - i,
    {
        let v = chars_of(pairs[i].1.as_str());
        let mut j: usize = 0;
        while j < v.len()
            invariant
                i < pairs@.len(),
                pv == crate::response::pairs_view(pairs@),
                v@ == pv[i as int].1,
                forall|a: int, b: int|
                    0 <= a < i && 0 <= b < pv[a].1.len() ==> !is_han(#[trigger] pv[a].1[b]),
                j <= v@.len(),
                forall|b: int| 0 <= b < j ==> !is_han(#[trigger] v@[b]),
            decreases v@.len() - j,
        {
            let c = v[j] as u32;
            if 0x4E00 <= c && c <= 0x9FFF {
                assert(is_han(pv[i as int].1[j as int]));
                return true;
            }
            j = j + 1;
        }
        assert forall|a: int, b: int|
            0 <= a < i + 1 && 0 <= b < pv[a].1.len() implies !is_han(#[trigger] pv[a].1[b]) by {
            if a == i {
                assert(pv[a].1[b] == v@[b]);
            }
        }
        i = i + 1;
    }
    false
}

/// Below this many requested items the script of a reply is not checked.
pub const MIN_ITEMS_FOR_SCRIPT_CHECK: usize = 3;

/// Reads a batch reply and checks that it is plausible for the target
/// language. Parse failures keep the parser's message; a reply that should
/// be Chinese and holds no Han character fails with a validation message.
pub fn interpret_reply(raw: &str, want_zh: bool, expected: usize) -> (r: Result<Vec<(String, String)>, String>)
    ensures
        match crate::response::pairs_result(raw@) {
            Err(m) => r matches Err(e) && e@ == m,
            Ok(pv) => if want_zh && expected >= MIN_ITEMS_FOR_SCRIPT_CHECK && !has_han(pv) {
                r matches Err(e) && e@ == "translate output does not look like Chinese"@
            } else {
                r matches Ok(v) && crate::response::pairs_view(v@) == pv
            },
        },
{
    match crate::response::parse_translation_pairs(raw) {
        Err(e) => Err(e),
        Ok(pairs) => {
            if want_zh && expected >= MIN_ITEMS_FOR_SCRIPT_CHECK && !has_han_exec(&pairs) {
                return Err(String::from_str("translate output does not look like Chinese"));
            }
            Ok(pairs)
        },
    }
}


/// Output formats asked of the service, in the order they are tried:
/// newline-delimited JSON, a compact list of pairs, an object with a list.
pub const FORMAT_COUNT: usize = 3;

/// The text before the target language in the prompt for `format`.
pub open spec fn prompt_head(format: usize) -> Seq<char> {
    if format == 0 {
        "You are a translation engine. Translate each item to "@
    } else {
        "Translate to "@
    }
}

/// The text between the target language and the payload in the prompt for `format`.
pub open spec fn prompt_body(format: usize) -> Seq<char> {
    if format == 0 {
        ".\nOutput format: JSONL (one JSON object per line).\nEach line MUST be: {\"id\":\"...\",\"text\":\"...\"}\nRules:\n- Output ONLY JSONL lines. No markdown, no extra text.\n- Keep ids unchanged. Do NOT add/remove items.\n- Translate naturally.\n\nInput JSON array:\n"@
    } else if format == 1 {
        ". Output ONLY JSON. No markdown.\nFormat: [[\"id\",\"text\"], ...] (array of 2-item arrays).\nKeep ids unchanged. Do NOT add/remove items.\n\nInput:\n"@
    } else {
        ". Output ONLY JSON object (no markdown).\nSchema: {\"segments\":[{\"id\":string,\"text\":string}]}\nKeep ids unchanged. Do NOT add/remove items.\n\nInput:\n"@
    }
}

/// The prompt asking for `format`: instructions naming the target language,
/// then the payload, then a line break.
pub open spec fn prompt_text(format: usize, lang_label: Seq<char>, payload: Seq<char>) -> Seq<char> {
    prompt_head(format) + lang_label + prompt_body(format) + payload + "\n"@
}

/// The prompt for output format `format` (0, 1 or 2).
pub fn build_prompt(format: usize, lang_label: &str, payload: &str) -> (r: String)
    requires
        format < FORMAT_COUNT,
    ensures
        r@ == prompt_text(format, lang_label@, payload@),
{
    let mut r = if format == 0 {
        String::from_str("You are a translation engine. Translate each item to ")
    } else {
        String::from_str("Translate to ")
    };
    r.append(lang_label);
    if format == 0 {
        r.append(".\nOutput format: JSONL (one JSON object per line).\nEach line MUST be: {\"id\":\"...\",\"text\":\"...\"}\nRules:\n- Output ONLY JSONL lines. No markdown, no extra text.\n- Keep ids unchanged. Do NOT add/remove items.\n- Translate naturally.\n\nInput JSON array:\n");
    } else if format == 1 {
        r.append(". Output ONLY JSON. No markdown.\nFormat: [[\"id\",\"text\"], ...] (array of 2-item arrays).\nKeep ids unchanged. Do NOT add/remove items.\n\nInput:\n");
    } else {
        r.append(". Output ONLY JSON object (no markdown).\nSchema: {\"segments\":[{\"id\":string,\"text\":string}]}\nKeep ids unchanged. Do NOT add/remove items.\n\nInput:\n");
    }
    r.append(payload);
    r.append("\n");
    r
}

/// What follows one output format's attempt on a batch.
pub enum FormatStep {
    /// The batch's outcome.
    Done(Result<Vec<(String, String)>, String>),
    /// Try this output format next; the failure so far.
    Next(usize, String),
}

/// After output format `format` was tried on a batch: a reply that reads
/// ends the batch; a failure (of the request, of parsing or of validation)
/// moves on to the next format, and ends the batch when none is left.
pub fn after_format(format: usize, outcome: Result<Vec<(String, String)>, String>) -> (r: FormatStep)
    requires
        format < FORMAT_COUNT,
    ensures
        match outcome {
            Ok(p) => r == FormatStep::Done(Ok(p)),
            Err(e) => if format + 1 < FORMAT_COUNT {
                r == FormatStep::Next((format + 1) as usize, e)
            } else {
                r == FormatStep::Done(Err(e))
            },
        },
{
    match outcome {
        Ok(p) => FormatStep::Done(Ok(p)),
        Err(e) => {
            if format + 1 < FORMAT_COUNT {
                FormatStep::Next(format + 1, e)
            } else {
                FormatStep::Done(Err(e))
            }
        },
    }
}

/// The standing instruction sent with every prompt.
pub fn system_prompt(lang_label: &str) -> (r: String)
    ensures
        r@ == "You are a translation engine. Translate to "@ + lang_label@ + ". Output ONLY JSON."@,
{
    let mut r = String::from_str("You are a translation engine. Translate to ");
    r.append(lang_label);
    r.append(". Output ONLY JSON.");
    r
}

/// True when the normalised target language is Chinese.
pub open spec fn is_chinese_target(lang: Seq<char>) -> bool {
    crate::text::starts_with(lang, "zh"@)
}

/// The target language as the pipeline uses it: trimmed and lower-cased.
pub fn normalize_target_lang(target: &str) -> (r: String)
    ensures
        r@ == lower_of(trim(target@)),
{
    let v = chars_of(target);
    let t = trim_chars(v.as_slice());
    let ts = string_of(t.as_slice());
    lowercase(ts.as_str())
}

/// True when the (normalised) target language is Chinese.
pub fn wants_chinese(lang: &str) -> (r: bool)
    ensures
        r == is_chinese_target(lang@),
{
    let v = chars_of(lang);
    let zh = chars_of("zh");
    crate::text::occurs_at_exec(v.as_slice(), zh.as_slice(), 0)
}

/// How the target language is named in prompts: "Simplified Chinese" for
/// Chinese, else the language code itself.
pub fn language_label(lang: &str) -> (r: String)
    ensures
        r@ == if is_chinese_target(lang@) {
            "Simplified Chinese"@
        } else {
            lang@
        },
{
    if wants_chinese(lang) {
        String::from_str("Simplified Chinese")
    } else {
        String::from_str(lang)
    }
}

/// Characters of the last error shown when nothing was translated.
pub const ERROR_PREVIEW_CHARS: usize = 380;

/// The message of a job that translated nothing: the start of the last
/// error, or "unknown error" when there was none.
pub open spec fn failure_text(last_error: Option<Seq<char>>) -> Seq<char> {
    let hint = match last_error {
        Some(e) => {
            let t = trim(e);
            if t.len() == 0 {
                "unknown error"@
            } else {
                t.subrange(0, if t.len() < ERROR_PREVIEW_CHARS { t.len() as int } else { ERROR_PREVIEW_CHARS as int })
            }
        },
        None => "unknown error"@,
    };
    "translation produced no segments\n\nlast error (first 380 chars):\n"@ + hint
}

/// The message of a job that translated nothing.
pub fn failure_message(last_error: Option<&str>) -> (r: String)
    ensures
        r@ == failure_text(
            match last_error {
                Some(e) => Some(e@),
                None => None,
            },
        ),
{
    let mut r = String::from_str("translation produced no segments\n\nlast error (first 380 chars):\n");
    match last_error {
        Some(e) => {
            let v = chars_of(e);
            let t = trim_chars(v.as_slice());
            if t.len() == 0 {
                r.append("unknown error");
            } else {
                let n = if t.len() < ERROR_PREVIEW_CHARS {
                    t.len()
                } else {
                    ERROR_PREVIEW_CHARS
                };
                let head = crate::text::slice_chars(t.as_slice(), 0, n);
                let hs = string_of(head.as_slice());
                r.append(hs.as_str());
            }
        },
        None => {
            r.append("unknown error");
        },
    }
    r
}

} // verus!
