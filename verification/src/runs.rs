//! Sequences of events.

use vstd::prelude::*;

verus! {

/// What has happened before the last event has happened, and so has the last one.
pub(crate) proof fn nothing_is_undone<E>(events: Seq<E>)
    requires
        events.len() > 0,
    ensures
        forall|e: E| #[trigger] events.drop_last().contains(e) ==> events.contains(e),
        events.contains(events.last()),
{
    let before = events.drop_last();
    assert forall|e: E| #[trigger] before.contains(e) implies events.contains(e) by {
        let i = choose|i: int| 0 <= i < before.len() && before[i] == e;
        assert(events[i] == e);
    }
    assert(events[events.len() - 1] == events.last());
}

} // verus!
