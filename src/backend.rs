//! Decisions around a run of the recognizer: which inference provider to
//! use, when a failed accelerated run falls back to the CPU, and the latch
//! that remembers, for the life of its owner, that the accelerator is out.

use vstd::prelude::*;
use vstd::string::StringExecFns;
use crate::text::{chars_of, contains, lower_of, lowercase, str_contains, string_of, trim, trim_chars};

verus! {

/// What is known of the accelerated backend.
#[derive(Clone, Copy, Debug, PartialEq, Eq, Structural)]
pub enum BackendState {
    Untested,
    Available,
    Unavailable,
}

/// A one-way latch on the accelerated backend: once found unavailable it
/// stays so.
pub struct AcceleratorLatch {
    pub state: BackendState,
}

/// The provider a run uses when `requested` was asked for in `state`.
pub open spec fn provider_in(state: BackendState, requested: Seq<char>) -> Seq<char> {
    if requested == "cuda"@ && state == BackendState::Unavailable {
        "cpu"@
    } else {
        requested
    }
}

impl AcceleratorLatch {
    /// A latch that knows nothing yet.
    pub fn new() -> (r: AcceleratorLatch)
        ensures
            r.state == BackendState::Untested,
    {
        AcceleratorLatch { state: BackendState::Untested }
    }

    /// The provider to run with: the CPU in place of an accelerator known
    /// to be out.
    pub fn provider_for(&self, requested: &str) -> (r: String)
        ensures
            r@ == provider_in(self.state, requested@),
    {
        let cuda = chars_of("cuda");
        let req = chars_of(requested);
        if self.state == BackendState::Unavailable && crate::text::same_chars(req.as_slice(), cuda.as_slice()) {
            String::from_str("cpu")
        } else {
            String::from_str(requested)
        }
    }

    /// Records a successful accelerated run; an unavailable backend stays so.
    pub fn mark_available(&mut self)
        ensures
            final(self).state == if old(self).state == BackendState::Unavailable {
                BackendState::Unavailable
            } else {
                BackendState::Available
            },
    {
        if self.state != BackendState::Unavailable {
            self.state = BackendState::Available;
        }
    }

    /// Records that the accelerated backend cannot run.
    pub fn mark_unavailable(&mut self)
        ensures
            final(self).state == BackendState::Unavailable,
    {
        self.state = BackendState::Unavailable;
    }
}

/// The output of a failed run names a missing accelerator runtime library.
pub open spec fn names_missing_runtime(s: Seq<char>) -> bool {
    (contains(s, "cudnn64_"@) && contains(s, "missing"@)) || (contains(
        s,
        "onnxruntime_providers_cuda.dll"@,
    ) && (contains(s, "missing"@) || contains(s, "error 126"@) || contains(s, "error loading"@)
        || contains(s, "fail"@)))
}

/// True when a failed run's error and standard output, lower-cased, show
/// that the accelerator's runtime libraries could not be loaded.
pub fn is_cuda_dependency_missing(stderr: &str, stdout: &str) -> (r: bool)
    ensures
        r == names_missing_runtime(lower_of(stderr@ + "\n"@ + stdout@)),
{
    let mut all = String::from_str(stderr);
    all.append("\n");
    all.append(stdout);
    let s = lowercase(all.as_str());
    let t = s.as_str();
    (str_contains(t, "cudnn64_") && str_contains(t, "missing")) || (str_contains(
        t,
        "onnxruntime_providers_cuda.dll",
    ) && (str_contains(t, "missing") || str_contains(t, "error 126") || str_contains(
        t,
        "error loading",
    ) || str_contains(t, "fail")))
}

/// The languages the recognizer accepts by name.
pub open spec fn known_language(l: Seq<char>) -> bool {
    l == "zh"@ || l == "en"@ || l == "ja"@ || l == "ko"@ || l == "yue"@ || l == "auto"@
}

fn str_is(a: &Vec<char>, b: &str) -> (r: bool)
    ensures
        r == (a@ == b@),
{
    let bv = chars_of(b);
    crate::text::same_chars(a.as_slice(), bv.as_slice())
}

/// The language to ask the recognizer for: the trimmed request when it is
/// one it knows, else `auto`.
pub fn recognizer_language(language: &str) -> (r: String)
    ensures
        r@ == if known_language(trim(language@)) {
            trim(language@)
        } else {
            "auto"@
        },
{
    let v = chars_of(language);
    let t = trim_chars(v.as_slice());
    if str_is(&t, "zh") || str_is(&t, "en") || str_is(&t, "ja") || str_is(&t, "ko") || str_is(&t, "yue")
        || str_is(&t, "auto") {
        string_of(t.as_slice())
    } else {
        String::from_str("auto")
    }
}

/// Runs of the recognizer for one pass: the first, and one on the CPU.
pub const MAX_RUNS: usize = 2;

/// The message of a failed run: a fixed first line, then the trimmed error
/// output and standard output when they are not blank.
pub open spec fn run_failure_text(stderr: Seq<char>, stdout: Seq<char>) -> Seq<char> {
    let e = trim(stderr);
    let o = trim(stdout);
    "sherpa-onnx-offline failed"@ + (if e.len() > 0 {
        "\n"@ + e
    } else {
        Seq::empty()
    }) + (if o.len() > 0 {
        "\n"@ + o
    } else {
        Seq::empty()
    })
}

/// What follows a failed run: `None` to run again on the CPU (the first
/// accelerated run failed for want of its runtime libraries, and the latch
/// now says so), or the failure message of the pass.
pub fn after_failed_run(
    latch: &mut AcceleratorLatch,
    attempt: usize,
    provider: &str,
    stderr: &str,
    stdout: &str,
) -> (r: Option<String>)
    ensures
        ({
            let fallback = attempt == 0 && provider@ == "cuda"@ && names_missing_runtime(
                lower_of(stderr@ + "\n"@ + stdout@),
            );
            &&& fallback ==> r is None && final(latch).state == BackendState::Unavailable
            &&& !fallback ==> (*final(latch) == *old(latch) && (r matches Some(m) && m@
                == run_failure_text(stderr@, stdout@)))
        }),
{
    let p = chars_of(provider);
    if attempt == 0 && str_is(&p, "cuda") && is_cuda_dependency_missing(stderr, stdout) {
        latch.mark_unavailable();
        return None;
    }
    let mut reason = String::from_str("sherpa-onnx-offline failed");
    let ev = chars_of(stderr);
    let e = trim_chars(ev.as_slice());
    if e.len() > 0 {
        reason.append("\n");
        let es = string_of(e.as_slice());
        reason.append(es.as_str());
    }
    let ov = chars_of(stdout);
    let o = trim_chars(ov.as_slice());
    if o.len() > 0 {
        reason.append("\n");
        let os = string_of(o.as_slice());
        reason.append(os.as_str());
    }
    proof {
        reveal_strlit("\n");
    }
    assert(reason@ =~= run_failure_text(stderr@, stdout@));
    Some(reason)
}

} // verus!
