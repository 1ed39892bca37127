use vstd::prelude::*;

verus! {

/// Count of live handles after one handle is opened (`true`) or closed (`false`).
pub open spec fn count_after(count: int, open: bool) -> int {
    if open { count + 1 } else { count - 1 }
}

/// Whether this event releases the shared connection: the last handle closes.
pub open spec fn releases(count: int, open: bool) -> bool {
    !open && count == 1
}

/// Live-handle count after a sequence of opens and closes.
pub open spec fn balance(events: Seq<bool>) -> int
    decreases events.len(),
{
    if events.len() == 0 {
        0
    } else {
        count_after(0, events[0]) + balance(events.drop_first())
    }
}

/// How many times the connection is released over `events`, from `count` live handles.
pub open spec fn releases_in(count: int, events: Seq<bool>) -> nat
    decreases events.len(),
{
    if events.len() == 0 {
        0
    } else {
        (if releases(count, events[0]) { 1nat } else { 0nat })
            + releases_in(count_after(count, events[0]), events.drop_first())
    }
}

/// New count when a handle is created; `None` when the count would overflow.
pub fn count_after_open(count: u32) -> (r: Option<u32>)
    ensures
        r matches Some(c) ==> c == count_after(count as int, true),
        r is None <==> count == u32::MAX,
{
    count.checked_add(1)
}

/// New count when a handle is dropped; `None` when no handle is live.
pub fn count_after_close(count: u32) -> (r: Option<u32>)
    ensures
        r matches Some(c) ==> c == count_after(count as int, false),
        r is None <==> count == 0,
{
    count.checked_sub(1)
}

/// Whether dropping a handle, with `count` handles live before the drop,
/// must release the shared connection.
pub fn close_releases(count: u32) -> (r: bool)
    ensures
        r == releases(count as int, false),
{
    count == 1
}

proof fn lemma_releases_once_from(count: int, events: Seq<bool>)
    requires
        count >= 1,
        events.len() > 0,
        count + balance(events) == 0,
        forall|k: int| 0 < k < events.len() ==> count + #[trigger] balance(events.take(k)) > 0,
    ensures
        releases_in(count, events) == 1,
    decreases events.len(),
{
    let e = events[0];
    let rest = events.drop_first();
    assert(events.take(1).drop_first() =~= Seq::<bool>::empty());
    assert(events.take(1)[0] == e);
    assert(balance(events.take(1).drop_first()) == 0);
    assert(balance(events.take(1)) == count_after(0, e));
    if events.len() == 1 {
        assert(rest.len() == 0);
        assert(balance(rest) == 0);
        assert(releases_in(count_after(count, e), rest) == 0);
    } else {
        let next = count_after(count, e);
        assert(next > 0) by {
            assert(count + balance(events.take(1)) > 0);
        }
        assert forall|k: int| 0 < k < rest.len() implies next + #[trigger] balance(rest.take(k)) > 0 by {
            assert(events.take(k + 1).drop_first() =~= rest.take(k));
            assert(count + balance(events.take(k + 1)) > 0);
        }
        lemma_releases_once_from(next, rest);
    }
}

/// Opening and closing the same number of handles, with at least one handle
/// live from the first open to the last close, releases the shared
/// connection exactly once, whatever the order of the events in between.
pub proof fn lemma_last_close_releases_once(events: Seq<bool>)
    requires
        events.len() > 0,
        balance(events) == 0,
        forall|k: int| 0 < k < events.len() ==> #[trigger] balance(events.take(k)) > 0,
    ensures
        releases_in(0, events) == 1,
{
    let e = events[0];
    let rest = events.drop_first();
    assert(events.take(1).drop_first() =~= Seq::<bool>::empty());
    assert(events.take(1)[0] == e);
    assert(balance(events.take(1).drop_first()) == 0);
    assert(balance(events.take(1)) == count_after(0, e));
    if events.len() == 1 {
        assert(balance(rest) == 0);
        assert(false);
    } else {
        assert(balance(events.take(1)) > 0);
        assert(e);
        assert forall|k: int| 0 < k < rest.len() implies 1 + #[trigger] balance(rest.take(k)) > 0 by {
            assert(events.take(k + 1).drop_first() =~= rest.take(k));
            assert(balance(events.take(k + 1)) > 0);
        }
        lemma_releases_once_from(1, rest);
    }
}

} // verus!
