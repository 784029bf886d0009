//! Rolling windows: queues that drop their oldest item once full.

use std::collections::VecDeque;
use vstd::prelude::*;

verus! {

/// A window after one more item: where it already holds `cap` items or
/// more, the oldest leaves first.
pub open spec fn rolled<T>(s: Seq<T>, cap: int, item: T) -> Seq<T> {
    if s.len() >= cap && s.len() > 0 {
        s.subrange(1, s.len() as int).push(item)
    } else {
        s.push(item)
    }
}

/// A window that started within `max(cap, 1)` items stays within it.
pub proof fn lemma_rolled_len<T>(s: Seq<T>, cap: int, item: T)
    ensures
        rolled(s, cap, item).len() == (if s.len() >= cap && s.len() > 0 {
            s.len()
        } else {
            s.len() + 1
        }),
        rolled(s, cap, item).last() == item,
{
}

/// Appends to a rolling window of at most `cap` items.
pub fn push_rolling<T>(window: &mut VecDeque<T>, cap: usize, item: T)
    ensures
        final(window)@ == rolled(old(window)@, cap as int, item),
{
    if window.len() >= cap {
        let _ = window.pop_front();
    }
    window.push_back(item);
}

} // verus!
