//! The single input pipeline shared by every input modality.
//!
//! Whatever produced a raw value — a typed change, a hover, a touch-drag or
//! a click — the same steps run: the engine resolves the value, then the
//! outcome drives the error tracker. A valid value clears both error kinds;
//! an out-of-range value raises the out-of-range error and clears
//! not-a-number; a malformed value raises not-a-number and clears
//! out-of-range; an empty value clears both. So no two dispatches can
//! disagree about what an input means, and the two error kinds are never
//! displayed together.

use vstd::prelude::*;
use vstd::string::StringSliceAdditionalSpecFns;

use crate::engine::{highlight_for, outcome_for, Outcome, RackAddressEngine, MAX_SEQUENCE,
    MIN_SEQUENCE};
use crate::errors::{has_kind, kinds_unique, released_handle, with_error, without_kind,
    ErrorStateTracker, RackError};

verus! {

/// Everything one dispatch tells the rendering adapter: the outcome to
/// display, the error raised with its fresh handle (at most one per
/// dispatch), and the handle released for each error kind that was cleared.
#[derive(Clone, Copy, Debug, PartialEq, Eq)]
pub struct InputResponse {
    pub outcome: Outcome,
    pub raised: Option<(RackError, usize)>,
    pub cleared_not_a_number: Option<usize>,
    pub cleared_out_of_range: Option<usize>,
}

/// The error collection owed after dispatching an outcome against the
/// active errors `s`, with `h` the next handle to issue.
pub open spec fn entries_after(s: Seq<(RackError, usize)>, out: Outcome, h: usize) -> Seq<
    (RackError, usize),
> {
    match out {
        Outcome::Valid { .. } => without_kind(
            without_kind(s, RackError::NotANumber),
            RackError::OutOfRange(MIN_SEQUENCE, MAX_SEQUENCE),
        ),
        Outcome::OutOfRange { .. } => with_error(
            without_kind(s, RackError::NotANumber),
            RackError::OutOfRange(MIN_SEQUENCE, MAX_SEQUENCE),
            h,
        ),
        Outcome::Invalid => with_error(
            without_kind(s, RackError::OutOfRange(MIN_SEQUENCE, MAX_SEQUENCE)),
            RackError::NotANumber,
            h,
        ),
        Outcome::Empty => without_kind(
            without_kind(s, RackError::OutOfRange(MIN_SEQUENCE, MAX_SEQUENCE)),
            RackError::NotANumber,
        ),
    }
}

/// The notifications owed to the rendering adapter for one dispatch:
/// (raised error with its handle, released not-a-number handle, released
/// out-of-range handle).
pub open spec fn notices_for(s: Seq<(RackError, usize)>, out: Outcome, h: usize) -> (
    Option<(RackError, usize)>,
    Option<usize>,
    Option<usize>,
) {
    let oor = RackError::OutOfRange(MIN_SEQUENCE, MAX_SEQUENCE);
    let nan = RackError::NotANumber;
    match out {
        Outcome::Valid { .. } => (
            None,
            released_handle(s, nan),
            released_handle(without_kind(s, nan), oor),
        ),
        Outcome::OutOfRange { .. } => (
            if has_kind(without_kind(s, nan), oor) {
                None
            } else {
                Some((oor, h))
            },
            released_handle(s, nan),
            None,
        ),
        Outcome::Invalid => (
            if has_kind(without_kind(s, oor), nan) {
                None
            } else {
                Some((nan, h))
            },
            None,
            released_handle(s, oor),
        ),
        Outcome::Empty => (
            None,
            released_handle(without_kind(s, oor), nan),
            released_handle(s, oor),
        ),
    }
}

/// Feed one raw value through the full pipeline: resolve it, move or clear
/// the highlight, and apply the owed error transitions to the tracker.
pub fn process_input(
    engine: &mut RackAddressEngine,
    tracker: &mut ErrorStateTracker,
    raw: &str,
) -> (response: InputResponse)
    requires
        old(tracker).next_handle < usize::MAX,
    ensures
        response.outcome == outcome_for(raw.spec_bytes()),
        final(engine).highlight == highlight_for(raw.spec_bytes()),
        final(engine).wf(),
        final(tracker).entries@ == entries_after(
            old(tracker).entries@,
            response.outcome,
            old(tracker).next_handle,
        ),
        (response.raised, response.cleared_not_a_number, response.cleared_out_of_range)
            == notices_for(old(tracker).entries@, response.outcome, old(tracker).next_handle),
        final(tracker).next_handle == (if response.raised.is_some() {
            old(tracker).next_handle + 1
        } else {
            old(tracker).next_handle as int
        }),
        old(tracker).wf() ==> final(tracker).wf(),
        old(tracker).wf() ==> !(has_kind(final(tracker).entries@, RackError::NotANumber)
            && has_kind(
            final(tracker).entries@,
            RackError::OutOfRange(MIN_SEQUENCE, MAX_SEQUENCE),
        )),
{
    let outcome = engine.evaluate(raw);
    let mut raised: Option<(RackError, usize)> = None;
    let mut cleared_not_a_number: Option<usize> = None;
    let mut cleared_out_of_range: Option<usize> = None;
    match outcome {
        Outcome::Valid { .. } => {
            cleared_not_a_number = tracker.clear_error(RackError::NotANumber);
            cleared_out_of_range = tracker.clear_error(
                RackError::OutOfRange(MIN_SEQUENCE, MAX_SEQUENCE),
            );
        },
        Outcome::OutOfRange { .. } => {
            cleared_not_a_number = tracker.clear_error(RackError::NotANumber);
            match tracker.add_error(RackError::OutOfRange(MIN_SEQUENCE, MAX_SEQUENCE)) {
                Some(h) => {
                    raised = Some((RackError::OutOfRange(MIN_SEQUENCE, MAX_SEQUENCE), h));
                },
                None => {},
            }
        },
        Outcome::Invalid => {
            cleared_out_of_range = tracker.clear_error(
                RackError::OutOfRange(MIN_SEQUENCE, MAX_SEQUENCE),
            );
            match tracker.add_error(RackError::NotANumber) {
                Some(h) => {
                    raised = Some((RackError::NotANumber, h));
                },
                None => {},
            }
        },
        Outcome::Empty => {
            cleared_out_of_range = tracker.clear_error(
                RackError::OutOfRange(MIN_SEQUENCE, MAX_SEQUENCE),
            );
            cleared_not_a_number = tracker.clear_error(RackError::NotANumber);
        },
    }
    InputResponse { outcome, raised, cleared_not_a_number, cleared_out_of_range }
}

/// Mutual exclusion: whatever errors were active before, one dispatch never
/// leaves not-a-number and out-of-range displayed together.
pub proof fn lemma_dispatch_exclusive(s: Seq<(RackError, usize)>, out: Outcome, h: usize)
    requires
        kinds_unique(s),
    ensures
        !(has_kind(entries_after(s, out, h), RackError::NotANumber) && has_kind(
            entries_after(s, out, h),
            RackError::OutOfRange(MIN_SEQUENCE, MAX_SEQUENCE),
        )),
{
    let oor = RackError::OutOfRange(MIN_SEQUENCE, MAX_SEQUENCE);
    let nan = RackError::NotANumber;
    match out {
        Outcome::Valid { .. } => {
            lemma_without_kind_unique(s, nan);
            lemma_without_kind_clears(without_kind(s, nan), oor);
        },
        Outcome::OutOfRange { .. } => {
            lemma_without_kind_clears(s, nan);
            lemma_with_error_keeps_absent(without_kind(s, nan), oor, h, nan);
        },
        Outcome::Invalid => {
            lemma_without_kind_clears(s, oor);
            lemma_with_error_keeps_absent(without_kind(s, oor), nan, h, oor);
        },
        Outcome::Empty => {
            lemma_without_kind_unique(s, oor);
            lemma_without_kind_clears(without_kind(s, oor), nan);
        },
    }
}

/// Clearing a kind from a collection with unique kinds leaves that kind
/// inactive.
proof fn lemma_without_kind_clears(s: Seq<(RackError, usize)>, e: RackError)
    requires
        kinds_unique(s),
    ensures
        !has_kind(without_kind(s, e), e),
{
    if has_kind(s, e) {
        crate::errors::lemma_first_kind_index(s, e);
        let i = crate::errors::first_kind_index(s, e);
        let t = without_kind(s, e);
        s.remove_ensures(i);
        assert forall|k: int| 0 <= k < t.len() implies !crate::errors::same_kind(
            #[trigger] t[k].0,
            e,
        ) by {
            if k < i {
                assert(t[k] == s[k]);
            } else {
                assert(t[k] == s[k + 1]);
                if crate::errors::same_kind(s[k + 1].0, e) {
                    crate::errors::lemma_same_kind_trans(s[i].0, e, s[k + 1].0);
                    assert(crate::errors::same_kind(s[i].0, s[k + 1].0));
                }
            }
        }
    }
}

/// Clearing one kind keeps every collection's unique kinds unique.
proof fn lemma_without_kind_unique(s: Seq<(RackError, usize)>, e: RackError)
    requires
        kinds_unique(s),
    ensures
        kinds_unique(without_kind(s, e)),
{
    if has_kind(s, e) {
        crate::errors::lemma_first_kind_index(s, e);
        let i = crate::errors::first_kind_index(s, e);
        let t = without_kind(s, e);
        s.remove_ensures(i);
        assert forall|a: int, b: int| 0 <= a < b < t.len() implies !(
        #[trigger] crate::errors::same_kind(t[a].0, t[b].0)) by {
            assert(t[a] == (if a < i {
                s[a]
            } else {
                s[a + 1]
            }));
            assert(t[b] == (if b < i {
                s[b]
            } else {
                s[b + 1]
            }));
        }
    }
}

/// Raising one kind leaves a different kind exactly as active as before.
proof fn lemma_with_error_keeps_absent(
    s: Seq<(RackError, usize)>,
    e: RackError,
    h: usize,
    f: RackError,
)
    requires
        !crate::errors::same_kind(e, f),
        !has_kind(s, f),
    ensures
        !has_kind(with_error(s, e, h), f),
{
    let t = with_error(s, e, h);
    if !has_kind(s, e) {
        assert forall|k: int| 0 <= k < t.len() implies !crate::errors::same_kind(
            #[trigger] t[k].0,
            f,
        ) by {
            if k < s.len() {
                assert(t[k] == s[k]);
            } else {
                assert(t[k] == (e, h));
            }
        }
    }
}

} // verus!
