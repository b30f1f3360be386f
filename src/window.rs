//! Division of a signal of known duration into overlapping time windows.

use vstd::prelude::*;

verus! {

/// The smallest distance between the starts of two consecutive windows.
pub const MIN_STEP_MS: u64 = 1000;

/// One window of the signal: `[start_ms, start_ms + duration_ms)`.
#[derive(Clone, Copy, Debug, PartialEq, Eq)]
pub struct TimeWindow {
    pub index: usize,
    pub start_ms: u64,
    pub duration_ms: u64,
}

/// Distance between the starts of consecutive windows.
pub open spec fn step_of(window_ms: u64, overlap_ms: u64) -> int {
    let raw = if overlap_ms >= window_ms {
        0int
    } else {
        window_ms - overlap_ms
    };
    if raw < MIN_STEP_MS {
        MIN_STEP_MS as int
    } else {
        raw
    }
}

/// Window `k` of a signal of `total_ms`: it starts at `k * step` and is
/// clipped to the end of the signal.
pub open spec fn planned_window(total_ms: u64, window_ms: u64, step: int, k: int) -> TimeWindow {
    let start = k * step;
    TimeWindow {
        index: k as usize,
        start_ms: start as u64,
        duration_ms: if total_ms - start < window_ms {
            (total_ms - start) as u64
        } else {
            window_ms
        },
    }
}

/// The windows that `plan_windows(total_ms, window_ms, overlap_ms)` returns.
pub open spec fn is_plan(ws: Seq<TimeWindow>, total_ms: u64, window_ms: u64, overlap_ms: u64) -> bool {
    let step = step_of(window_ms, overlap_ms);
    if total_ms == 0 {
        ws.len() == 1 && ws[0] == TimeWindow { index: 0, start_ms: 0, duration_ms: window_ms }
    } else {
        &&& (ws.len() - 1) * step < total_ms <= ws.len() * step
        &&& forall|k: int|
            0 <= k < ws.len() ==> #[trigger] ws[k] == planned_window(total_ms, window_ms, step, k)
    }
}

/// Plans the windows over a signal of `total_ms`: each `window_ms` long, the
/// next starting `max(window_ms - overlap_ms, MIN_STEP_MS)` later, the last
/// clipped to the end. An unknown (zero) duration gives one window of
/// `window_ms`.
pub fn plan_windows(total_ms: u64, window_ms: u64, overlap_ms: u64) -> (r: Vec<TimeWindow>)
    requires
        window_ms > 0,
    ensures
        is_plan(r@, total_ms, window_ms, overlap_ms),
{
    let step: u64 = if overlap_ms >= window_ms || window_ms - overlap_ms < MIN_STEP_MS {
        MIN_STEP_MS
    } else {
        window_ms - overlap_ms
    };
    let mut r: Vec<TimeWindow> = Vec::new();
    if total_ms == 0 {
        r.push(TimeWindow { index: 0, start_ms: 0, duration_ms: window_ms });
        return r;
    }
    let mut start: u64 = 0;
    loop
        invariant_except_break
            start == r@.len() * step && start < total_ms,
        invariant
            step == step_of(window_ms, overlap_ms),
            total_ms > 0,
            forall|k: int|
                0 <= k < r@.len() ==> #[trigger] r@[k] == planned_window(
                    total_ms,
                    window_ms,
                    step as int,
                    k,
                ),
        ensures
            r@.len() > 0 && (r@.len() - 1) * step < total_ms <= r@.len() * step,
        decreases total_ms - start,
    {
        let remaining = total_ms - start;
        let len = if remaining < window_ms {
            remaining
        } else {
            window_ms
        };
        let ghost n = r@.len();
        r.push(TimeWindow { index: r.len(), start_ms: start, duration_ms: len });
        proof {
            assert((n + 1) * step == n * step + step) by (nonlinear_arith);
            assert(r@[n as int] == planned_window(total_ms, window_ms, step as int, n as int));
        }
        if remaining <= step {
            break;
        }
        start = start + step;
    }
    r
}

/// True when instant `t` lies in one of the windows.
pub open spec fn covered(ws: Seq<TimeWindow>, t: int) -> bool {
    exists|k: int| 0 <= k < ws.len() && #[trigger] ws[k].start_ms <= t < ws[k].start_ms + ws[k].duration_ms
}

/// The windows of a signal of known length cover it without gaps and end
/// within it: every instant of `[0, total_ms)` lies in some window, and no
/// window reaches past `total_ms`. (With `window_ms` below `MIN_STEP_MS` the
/// step exceeds the window length and gaps appear.)
pub proof fn lemma_windows_cover_timeline(
    ws: Seq<TimeWindow>,
    total_ms: u64,
    window_ms: u64,
    overlap_ms: u64,
)
    requires
        is_plan(ws, total_ms, window_ms, overlap_ms),
        total_ms > 0,
        overlap_ms < window_ms,
        window_ms >= MIN_STEP_MS,
    ensures
        ws[0].start_ms == 0,
        forall|k: int|
            0 <= k < ws.len() ==> #[trigger] ws[k].start_ms + ws[k].duration_ms <= total_ms,
        forall|t: int| 0 <= t < total_ms ==> #[trigger] covered(ws, t),
{
    let step = step_of(window_ms, overlap_ms);
    assert(0 * step == 0);
    assert(ws[0] == planned_window(total_ms, window_ms, step, 0));
    assert forall|k: int| 0 <= k < ws.len() implies #[trigger] ws[k].start_ms
        + ws[k].duration_ms <= total_ms by {
        assert(ws[k] == planned_window(total_ms, window_ms, step, k));
        lemma_start_fits(ws.len() as int, step, k, total_ms as int);
    }
    assert forall|t: int| 0 <= t < total_ms implies #[trigger] covered(ws, t) by {
        let k = t / step;
        lemma_div_bounds(t, step);
        lemma_index_in_range(ws.len() as int, step, k, t, total_ms as int);
        assert(ws[k] == planned_window(total_ms, window_ms, step, k));
        lemma_start_fits(ws.len() as int, step, k, total_ms as int);
        assert(ws[k].start_ms <= t < ws[k].start_ms + ws[k].duration_ms);
    }
}

proof fn lemma_div_bounds(t: int, step: int)
    requires
        t >= 0,
        step > 0,
    ensures
        0 <= (t / step) * step <= t < (t / step) * step + step,
        t / step >= 0,
{
    vstd::arithmetic::div_mod::lemma_fundamental_div_mod(t, step);
    vstd::arithmetic::div_mod::lemma_div_pos_is_pos(t, step);
    vstd::arithmetic::div_mod::lemma_mod_bound(t, step);
    let q = t / step;
    let m = t % step;
    assert(0 <= q * step <= t < q * step + step) by (nonlinear_arith)
        requires
            q >= 0,
            step > 0,
            t == step * q + m,
            0 <= m < step,
    ;
}

proof fn lemma_index_in_range(n: int, step: int, k: int, t: int, total: int)
    requires
        step > 0,
        k >= 0,
        k * step <= t < total <= n * step,
    ensures
        k < n,
{
    assert(k < n) by (nonlinear_arith)
        requires
            step > 0,
            k * step < n * step,
    ;
}

proof fn lemma_start_fits(n: int, step: int, k: int, total: int)
    requires
        step > 0,
        0 <= k < n,
        (n - 1) * step < total,
    ensures
        0 <= k * step < total,
{
    assert(0 <= k * step < total) by (nonlinear_arith)
        requires
            step > 0,
            0 <= k <= n - 1,
            (n - 1) * step < total,
    ;
}

} // verus!
