//! The error-state tracker: the ordered set of currently displayed
//! validation errors, de-duplicated by error kind.
//!
//! Two errors count as the same when they are the same variant; the numeric
//! bounds carried by an out-of-range error never enter the comparison.
//! Every active error owns a display handle, issued when the error is
//! raised and released when it is cleared, so a rendering adapter can keep
//! one visible message per handle. Handles are never reused.

use vstd::prelude::*;

verus! {

/// A user-input validation failure.
#[derive(Clone, Copy, Debug, PartialEq, Eq)]
pub enum RackError {
    /// The input parsed as a number but lies outside `min..=max`.
    OutOfRange(usize, usize),
    /// The input was non-empty and did not read as a non-negative integer.
    NotANumber,
}

/// The two errors are the same kind: the same variant, whatever bounds an
/// out-of-range error carries.
pub open spec fn same_kind(a: RackError, b: RackError) -> bool {
    match (a, b) {
        (RackError::OutOfRange(_, _), RackError::OutOfRange(_, _)) => true,
        (RackError::NotANumber, RackError::NotANumber) => true,
        _ => false,
    }
}

/// Some active entry has the kind of `e`.
pub open spec fn has_kind(s: Seq<(RackError, usize)>, e: RackError) -> bool {
    exists|i: int| 0 <= i < s.len() && #[trigger] same_kind(s[i].0, e)
}

/// How many active entries have the kind of `e`.
pub open spec fn count_kind(s: Seq<(RackError, usize)>, e: RackError) -> nat
    decreases s.len(),
{
    if s.len() == 0 {
        0
    } else {
        count_kind(s.drop_last(), e) + if same_kind(s.last().0, e) {
            1nat
        } else {
            0nat
        }
    }
}

/// Position of the first active entry with the kind of `e`.
pub open spec fn first_kind_index(s: Seq<(RackError, usize)>, e: RackError) -> int
    decreases s.len(),
{
    if s.len() == 0 {
        0
    } else if same_kind(s[0].0, e) {
        0
    } else {
        1 + first_kind_index(s.drop_first(), e)
    }
}

/// No two active entries share a kind.
pub open spec fn kinds_unique(s: Seq<(RackError, usize)>) -> bool {
    forall|i: int, j: int|
        0 <= i < j < s.len() ==> !(#[trigger] same_kind(s[i].0, s[j].0))
}

/// The collection after raising `e`: unchanged when its kind is already
/// active, otherwise `e` is appended with the fresh handle `h`.
pub open spec fn with_error(s: Seq<(RackError, usize)>, e: RackError, h: usize) -> Seq<
    (RackError, usize),
> {
    if has_kind(s, e) {
        s
    } else {
        s.push((e, h))
    }
}

/// The collection after clearing the kind of `e`: unchanged when that kind
/// is not active, otherwise its first entry of that kind is removed.
pub open spec fn without_kind(s: Seq<(RackError, usize)>, e: RackError) -> Seq<
    (RackError, usize),
> {
    if has_kind(s, e) {
        s.remove(first_kind_index(s, e))
    } else {
        s
    }
}

/// The display handle released by clearing the kind of `e`, if any.
pub open spec fn released_handle(s: Seq<(RackError, usize)>, e: RackError) -> Option<usize> {
    if has_kind(s, e) {
        Some(s[first_kind_index(s, e)].1)
    } else {
        None
    }
}

/// Handles of the active entries, oldest first.
pub open spec fn handles_of(s: Seq<(RackError, usize)>) -> Seq<usize> {
    s.map_values(|p: (RackError, usize)| p.1)
}

/// When a kind is active, its first index is a real position, holds that
/// kind, and nothing before it does.
pub proof fn lemma_first_kind_index(s: Seq<(RackError, usize)>, e: RackError)
    requires
        has_kind(s, e),
    ensures
        0 <= first_kind_index(s, e) < s.len(),
        same_kind(s[first_kind_index(s, e)].0, e),
        forall|j: int| 0 <= j < first_kind_index(s, e) ==> !same_kind(#[trigger] s[j].0, e),
    decreases s.len(),
{
    if same_kind(s[0].0, e) {
    } else {
        let w = choose|i: int| 0 <= i < s.len() && #[trigger] same_kind(s[i].0, e);
        assert(same_kind(s.drop_first()[w - 1].0, e));
        lemma_first_kind_index(s.drop_first(), e);
        assert forall|j: int| 0 <= j < first_kind_index(s, e) implies !same_kind(
            #[trigger] s[j].0,
            e,
        ) by {
            if j > 0 {
                assert(s.drop_first()[j - 1] == s[j]);
            }
        }
    }
}

/// Display text of an out-of-range error with the given bounds.
pub uninterp spec fn out_of_range_text(min: nat, max: nat) -> Seq<char>;

/// The display text owed for each error.
pub open spec fn message_text(e: RackError) -> Seq<char> {
    match e {
        RackError::OutOfRange(min, max) => out_of_range_text(min as nat, max as nat),
        RackError::NotANumber => "Sequence must be a positive integer."@,
    }
}

/// Relies on the standard library's string formatting to render the two
/// bounds into the out-of-range message; the text is a function of the
/// bounds alone.
#[verifier::external_body]
fn render_out_of_range(min: usize, max: usize) -> (m: String)
    ensures
        m@ == out_of_range_text(min as nat, max as nat),
{
    format!("Sequence must be between {} and {}.", min, max)
}

impl RackError {
    /// The two errors are the same kind of failure.
    pub fn is_same_kind(&self, other: &RackError) -> (r: bool)
        ensures
            r == same_kind(*self, *other),
    {
        match (self, other) {
            (RackError::OutOfRange(_, _), RackError::OutOfRange(_, _)) => true,
            (RackError::NotANumber, RackError::NotANumber) => true,
            _ => false,
        }
    }

    /// The user-facing message for this error.
    pub fn message(&self) -> (m: String)
        ensures
            m@ == message_text(*self),
    {
        match self {
            RackError::OutOfRange(min, max) => render_out_of_range(*min, *max),
            RackError::NotANumber => "Sequence must be a positive integer.".to_owned(),
        }
    }
}

/// The ordered collection of currently displayed errors, one per kind,
/// each paired with the display handle issued for it.
pub struct ErrorStateTracker {
    /// Active errors, oldest first, each with its display handle.
    pub entries: Vec<(RackError, usize)>,
    /// The next display handle to issue; handles are never reused.
    pub next_handle: usize,
}

impl ErrorStateTracker {
    /// Kinds are unique, and handles grow with age: every entry's handle is
    /// below the next to be issued, and older entries hold smaller handles.
    pub open spec fn wf(self) -> bool {
        &&& kinds_unique(self.entries@)
        &&& forall|i: int, j: int|
            0 <= i < j < self.entries@.len() ==> #[trigger] self.entries@[i].1
                < #[trigger] self.entries@[j].1
        &&& forall|i: int|
            0 <= i < self.entries@.len() ==> #[trigger] self.entries@[i].1 < self.next_handle
    }

    /// A fresh tracker displays nothing.
    pub fn new() -> (tracker: Self)
        ensures
            tracker.entries@.len() == 0,
            tracker.next_handle == 0,
            tracker.wf(),
    {
        ErrorStateTracker { entries: Vec::new(), next_handle: 0 }
    }

    /// Raise `error`. When its kind is already displayed this is a no-op,
    /// whatever bounds either error carries; otherwise the error is
    /// appended and the handle issued for it is returned.
    pub fn add_error(&mut self, error: RackError) -> (issued: Option<usize>)
        requires
            old(self).next_handle < usize::MAX,
        ensures
            final(self).entries@ == with_error(old(self).entries@, error, old(self).next_handle),
            issued == (if has_kind(old(self).entries@, error) {
                None::<usize>
            } else {
                Some(old(self).next_handle)
            }),
            final(self).next_handle == (if has_kind(old(self).entries@, error) {
                old(self).next_handle as int
            } else {
                old(self).next_handle + 1
            }),
            has_kind(final(self).entries@, error),
            old(self).wf() ==> final(self).wf(),
    {
        let n: usize = self.entries.len();
        let mut i: usize = 0;
        while i < n
            invariant
                i <= n,
                n == self.entries@.len(),
                forall|j: int| 0 <= j < i ==> !same_kind(#[trigger] self.entries@[j].0, error),
            decreases n - i,
        {
            if self.entries[i].0.is_same_kind(&error) {
                assert(has_kind(self.entries@, error));
                return None;
            }
            i = i + 1;
        }
        assert(!has_kind(self.entries@, error));
        let handle: usize = self.next_handle;
        self.entries.push((error, handle));
        self.next_handle = handle + 1;
        proof {
            assert(same_kind(final(self).entries@[old(self).entries@.len() as int].0, error));
        }
        Some(handle)
    }

    /// Clear the kind of `error`, whatever bounds either error carries.
    /// When that kind is not displayed this is a no-op; otherwise its entry
    /// is removed and the handle it held is returned for release.
    pub fn clear_error(&mut self, error: RackError) -> (released: Option<usize>)
        ensures
            final(self).entries@ == without_kind(old(self).entries@, error),
            released == released_handle(old(self).entries@, error),
            final(self).next_handle == old(self).next_handle,
            old(self).wf() ==> final(self).wf(),
            old(self).wf() ==> !has_kind(final(self).entries@, error),
    {
        let ghost s0 = self.entries@;
        let n: usize = self.entries.len();
        let mut i: usize = 0;
        while i < n
            invariant
                i <= n,
                n == self.entries@.len(),
                self.entries@ == s0,
                s0 == old(self).entries@,
                self.next_handle == old(self).next_handle,
                forall|j: int| 0 <= j < i ==> !same_kind(#[trigger] self.entries@[j].0, error),
            decreases n - i,
        {
            if self.entries[i].0.is_same_kind(&error) {
                proof {
                    assert(has_kind(s0, error));
                    lemma_first_kind_index(s0, error);
                    // the loop found the first matching position
                    assert(first_kind_index(s0, error) == i);
                }
                let removed: (RackError, usize) = self.entries.remove(i);
                proof {
                    s0.remove_ensures(i as int);
                    let t = self.entries@;
                    if old(self).wf() {
                        assert forall|a: int, b: int| 0 <= a < b < t.len() implies !(
                        #[trigger] same_kind(t[a].0, t[b].0)) by {
                            assert(t[a] == (if a < i {
                                s0[a]
                            } else {
                                s0[a + 1]
                            }));
                            assert(t[b] == (if b < i {
                                s0[b]
                            } else {
                                s0[b + 1]
                            }));
                        }
                        assert forall|a: int, b: int| 0 <= a < b < t.len() implies #[trigger] t[a].1
                            < #[trigger] t[b].1 by {
                            assert(t[a] == (if a < i {
                                s0[a]
                            } else {
                                s0[a + 1]
                            }));
                            assert(t[b] == (if b < i {
                                s0[b]
                            } else {
                                s0[b + 1]
                            }));
                        }
                        assert forall|k: int| 0 <= k < t.len() implies !same_kind(
                            #[trigger] t[k].0,
                            error,
                        ) by {
                            if k < i {
                                assert(t[k] == s0[k]);
                            } else {
                                assert(t[k] == s0[k + 1]);
                                if same_kind(s0[k + 1].0, error) {
                                    lemma_same_kind_trans(s0[i as int].0, error, s0[k + 1].0);
                                    assert(same_kind(s0[i as int].0, s0[k + 1].0));
                                }
                            }
                        }
                    }
                }
                return Some(removed.1);
            }
            i = i + 1;
        }
        assert(!has_kind(s0, error));
        None
    }

    /// Clear every displayed error, returning the released handles oldest
    /// first.
    pub fn clear_all(&mut self) -> (released: Vec<usize>)
        ensures
            final(self).entries@.len() == 0,
            released@ == handles_of(old(self).entries@),
            final(self).next_handle == old(self).next_handle,
            final(self).wf(),
    {
        let ghost s0 = self.entries@;
        let mut released: Vec<usize> = Vec::new();
        let n: usize = self.entries.len();
        let mut i: usize = 0;
        while i < n
            invariant
                i <= n,
                n == self.entries@.len(),
                self.entries@ == s0,
                released@ == handles_of(s0.subrange(0, i as int)),
            decreases n - i,
        {
            released.push(self.entries[i].1);
            proof {
                assert(s0.subrange(0, i + 1).drop_last() =~= s0.subrange(0, i as int));
                assert(handles_of(s0.subrange(0, i + 1)) =~= handles_of(
                    s0.subrange(0, i as int),
                ).push(s0[i as int].1));
            }
            i = i + 1;
        }
        self.entries.clear();
        proof {
            assert(s0.subrange(0, n as int) =~= s0);
        }
        released
    }
}

/// Raising an error kind twice in a row is the same as raising it once,
/// and, starting from a collection with unique kinds, leaves exactly one
/// active entry of that kind.
pub proof fn lemma_raise_twice_once(
    s: Seq<(RackError, usize)>,
    e: RackError,
    h1: usize,
    h2: usize,
)
    requires
        kinds_unique(s),
    ensures
        with_error(with_error(s, e, h1), e, h2) == with_error(s, e, h1),
        count_kind(with_error(with_error(s, e, h1), e, h2), e) == 1,
{
    let s1 = with_error(s, e, h1);
    if has_kind(s, e) {
        assert(s1 == s);
    } else {
        assert(same_kind(s1[s.len() as int].0, e));
    }
    assert(has_kind(s1, e));
    lemma_unique_kind_count(s1, e);
    lemma_count_kind_positive(s1, e);
}

/// Clearing an error kind that is not active leaves the collection
/// unchanged.
pub proof fn lemma_clear_inactive_noop(s: Seq<(RackError, usize)>, e: RackError)
    requires
        !has_kind(s, e),
    ensures
        without_kind(s, e) == s,
{
}

/// With unique kinds, at most one entry of any kind is active.
pub proof fn lemma_unique_kind_count(s: Seq<(RackError, usize)>, e: RackError)
    requires
        kinds_unique(s),
    ensures
        count_kind(s, e) <= 1,
    decreases s.len(),
{
    if s.len() > 0 {
        let p = s.drop_last();
        assert(kinds_unique(p)) by {
            assert forall|i: int, j: int| 0 <= i < j < p.len() implies !(#[trigger] same_kind(
                p[i].0,
                p[j].0,
            )) by {
                assert(p[i] == s[i] && p[j] == s[j]);
            }
        }
        lemma_unique_kind_count(p, e);
        if same_kind(s.last().0, e) {
            assert(count_kind(p, e) == 0) by {
                if count_kind(p, e) > 0 {
                    lemma_count_kind_positive(p, e);
                    let w = choose|i: int| 0 <= i < p.len() && #[trigger] same_kind(p[i].0, e);
                    assert(same_kind(s[w].0, s[s.len() - 1].0)) by {
                        lemma_same_kind_trans(s[w].0, e, s[s.len() - 1].0);
                    }
                }
            }
        }
    }
}

/// A kind is active exactly when its count is positive.
pub proof fn lemma_count_kind_positive(s: Seq<(RackError, usize)>, e: RackError)
    ensures
        has_kind(s, e) <==> count_kind(s, e) > 0,
    decreases s.len(),
{
    if s.len() > 0 {
        let p = s.drop_last();
        lemma_count_kind_positive(p, e);
        if has_kind(p, e) {
            let w = choose|i: int| 0 <= i < p.len() && #[trigger] same_kind(p[i].0, e);
            assert(same_kind(s[w].0, e));
        }
        if has_kind(s, e) && !same_kind(s.last().0, e) {
            let w = choose|i: int| 0 <= i < s.len() && #[trigger] same_kind(s[i].0, e);
            assert(w < s.len() - 1);
            assert(same_kind(p[w].0, e));
        }
    }
}

/// Kind sameness runs through a middle error: two errors each of the kind
/// of `b` are of the same kind as one another.
pub proof fn lemma_same_kind_trans(a: RackError, b: RackError, c: RackError)
    requires
        same_kind(a, b),
        same_kind(c, b),
    ensures
        same_kind(a, c),
{
}

} // verus!
