//! Generic useful items.

use vstd::prelude::*;
use crate::error::KernelError;

verus! {

/// What `split_at(offset)` makes of the range `[start, start + len)`: the
/// range the receiver keeps, and the range handed back, if any.
pub open spec fn split_outcome(start: int, len: nat, offset: int) -> ((int, nat), Option<(int, nat)>) {
    if 0 < offset < len {
        ((start, offset as nat), Some((start + offset, (len - offset) as nat)))
    } else {
        ((start, len), None)
    }
}

/// What `right_split(offset)` makes of the range `[start, start + len)`: the
/// receiver keeps the right part and hands back the left part.
pub open spec fn right_split_outcome(start: int, len: nat, offset: int) -> ((int, nat), Option<(int, nat)>) {
    if 0 < offset < len {
        ((start + offset, (len - offset) as nat), Some((start, offset as nat)))
    } else {
        ((start, len), None)
    }
}

/// Exchanges the kept and the handed-back part, when there is one.
pub open spec fn swap_parts(p: ((int, nat), Option<(int, nat)>)) -> ((int, nat), Option<(int, nat)>) {
    match p.1 {
        Some(handed) => (handed, Some(p.0)),
        None => p,
    }
}

/// Performing `split_at(k)` and then exchanging the two parts gives the same
/// pair of parts as `right_split(k)`.
pub proof fn lemma_right_split_is_swapped_split(start: int, len: nat, k: int)
    ensures
        right_split_outcome(start, len, k) == swap_parts(split_outcome(start, len, k)),
{
}

/// Splitting strictly inside a range gives a left part of `k` units and a
/// right part of the rest, which together cover the range exactly, with no
/// gap and no overlap.
pub proof fn lemma_split_covers_exactly(start: int, len: nat, k: int)
    requires
        0 < k < len,
    ensures
        split_outcome(start, len, k).0.1 == k,
        split_outcome(start, len, k).1 is Some,
        split_outcome(start, len, k).1->Some_0.1 == len - k,
        forall|i: int| #![trigger covers_point(split_outcome(start, len, k).0, i)]
            covers_point((start, len), i) <==> (covers_point(split_outcome(start, len, k).0, i)
                || covers_point(split_outcome(start, len, k).1->Some_0, i)),
        forall|i: int| #![trigger covers_point(split_outcome(start, len, k).0, i)]
            !(covers_point(split_outcome(start, len, k).0, i) && covers_point(split_outcome(start, len, k).1->Some_0, i)),
{
}

/// Whether the range `[r.0, r.0 + r.1)` holds `i`.
pub open spec fn covers_point(r: (int, nat), i: int) -> bool {
    r.0 <= i < r.0 + r.1
}

/// Things that can be split in two parts at an offset.
///
/// A splittable value stands for the half-open range
/// `[split_start(), split_start() + split_len())` of some resource.
pub trait Splittable where Self: Sized {
    /// Where the range covered by this value starts.
    spec fn split_start(&self) -> int;

    /// How many units the range covered by this value holds.
    spec fn split_len(&self) -> nat;

    /// Split the given object in two at a given offset.
    ///
    /// The left side is modified in place, and the new right side is returned.
    ///
    /// If offset >= self.length, the object is untouched, and the right-hand side is None.
    /// If offset == 0, the object is untouched, and the right-hand side is None.
    fn split_at(&mut self, offset: usize) -> (r: Result<Option<Self>, KernelError>)
        ensures
            r is Ok,
            offset == 0 || offset >= old(self).split_len()
                ==> r == Ok::<Option<Self>, KernelError>(None) && *final(self) == *old(self),
            ((final(self).split_start(), final(self).split_len()), match r->Ok_0 {
                Some(part) => Some((part.split_start(), part.split_len())),
                None => None,
            })
                == split_outcome(old(self).split_start(), old(self).split_len(), offset as int),
    ;

    /// Splits the given object in two at the given offset.
    ///
    /// The right side is modified in place, and the new left side is returned.
    ///
    /// Note that offset is still the distance from the **start**.
    ///
    /// If offset >= self.length, the object is untouched, and the right-hand side is None.
    /// If offset == 0, the object is untouched, and the right-hand side is None.
    fn right_split(&mut self, offset: usize) -> (r: Result<Option<Self>, KernelError>)
        ensures
            r is Ok,
            offset == 0 || offset >= old(self).split_len()
                ==> r == Ok::<Option<Self>, KernelError>(None) && *final(self) == *old(self),
            ((final(self).split_start(), final(self).split_len()), match r->Ok_0 {
                Some(part) => Some((part.split_start(), part.split_len())),
                None => None,
            })
                == right_split_outcome(old(self).split_start(), old(self).split_len(), offset as int),
    {
        let right_opt = self.split_at(offset);
        match right_opt {
            Err(e) => Err(e),
            Ok(None) => Ok(None), // no split was done
            Ok(Some(mut other)) => {
                // swap the left and the right parts
                core::mem::swap(self, &mut other);
                Ok(Some(other))
            }
        }
    }
}

/// The scheduling state of a thread, as far as it matters here.
#[derive(Debug, Clone, Copy, PartialEq, Eq, Structural)]
pub enum ThreadState {
    /// The thread is runnable or running.
    Running,
    /// The thread waits for an event.
    Paused,
    /// The thread was killed and must leave the CPU for good.
    Killed,
}

/// Checks if a thread in the given state was killed, in which case it must
/// unschedule itself (and keep doing so, in case of spurious wakeups).
///
/// Returns whether the thread must unschedule itself.
pub fn check_thread_killed(state: ThreadState) -> (r: bool)
    ensures
        r <==> state == ThreadState::Killed,
{
    state == ThreadState::Killed
}

} // verus!
