//! Timed notifications shown in the overlay, and the window of recent frame
//! times the frame rate is averaged over.

use vstd::prelude::*;

verus! {

/// At most this many notifications are visible at once.
pub const MAX_VISIBLE_NOTIFICATIONS: usize = 5;

/// A timed notification displayed in the overlay.
/// Notifications expire after a set duration and are colour-coded by severity.
#[derive(Debug)]
pub struct Notification {
    /// The message text to display
    pub message: String,
    /// When this notification should disappear, in milliseconds on the
    /// overlay's clock
    pub expires_at: u64,
    /// true = red (error), false = yellow (warning)
    pub is_error: bool,
}

/// The list after adding `n`: the newest `MAX_VISIBLE_NOTIFICATIONS` of the
/// old list followed by `n`.
pub open spec fn with_notification(old: Seq<Notification>, n: Notification) -> Seq<Notification> {
    let t = old.push(n);
    if t.len() > MAX_VISIBLE_NOTIFICATIONS {
        t.subrange(t.len() - MAX_VISIBLE_NOTIFICATIONS, t.len() as int)
    } else {
        t
    }
}

/// The notifications of `s` that have not expired at `now`, in order.
pub open spec fn unexpired(s: Seq<Notification>, now: nat) -> Seq<Notification>
    decreases s.len(),
{
    if s.len() == 0 {
        Seq::<Notification>::empty()
    } else if s.last().expires_at > now {
        unexpired(s.drop_last(), now).push(s.last())
    } else {
        unexpired(s.drop_last(), now)
    }
}

/// Add a notification; at most five stay visible, the oldest are removed first.
pub fn add_notification(notifications: &mut Vec<Notification>, notification: Notification)
    ensures
        final(notifications)@ == with_notification(old(notifications)@, notification),
        final(notifications)@.len() <= MAX_VISIBLE_NOTIFICATIONS,
        final(notifications)@.last() == notification,
{
    let ghost t = old(notifications)@.push(notification);
    notifications.push(notification);
    while notifications.len() > MAX_VISIBLE_NOTIFICATIONS
        invariant
            t.len() >= notifications@.len(),
            notifications@ == t.subrange(t.len() - notifications@.len(), t.len() as int),
            notifications@.len() >= 1,
            notifications@.len() >= MAX_VISIBLE_NOTIFICATIONS || notifications@.len() == t.len(),
        decreases notifications@.len(),
    {
        notifications.remove(0);
        assert(notifications@ =~= t.subrange(t.len() - notifications@.len(), t.len() as int));
    }
    assert(t.subrange(0, t.len() as int) =~= t);
}

proof fn lemma_unexpired_push(s: Seq<Notification>, n: Notification, now: nat)
    ensures
        unexpired(s.push(n), now) == if n.expires_at > now {
            unexpired(s, now).push(n)
        } else {
            unexpired(s, now)
        },
{
    assert(s.push(n).drop_last() =~= s);
}

/// Remove expired notifications, keeping the others in order.
pub fn cleanup_notifications(notifications: &mut Vec<Notification>, now: u64)
    ensures
        final(notifications)@ == unexpired(old(notifications)@, now as nat),
{
    let ghost orig = old(notifications)@;
    let ghost mut j: int = 0;
    let mut i: usize = 0;
    assert(orig.subrange(0, 0) =~= Seq::<Notification>::empty());
    assert(orig.subrange(0, orig.len() as int) =~= orig);
    while i < notifications.len()
        invariant
            0 <= j <= orig.len(),
            i == unexpired(orig.subrange(0, j), now as nat).len(),
            notifications@ == unexpired(orig.subrange(0, j), now as nat) + orig.subrange(j, orig.len() as int),
        decreases orig.len() - j,
    {
        let ghost kept = unexpired(orig.subrange(0, j), now as nat);
        assert(notifications@[i as int] == orig[j]);
        proof {
            assert(orig.subrange(0, j + 1) =~= orig.subrange(0, j).push(orig[j]));
            lemma_unexpired_push(orig.subrange(0, j), orig[j], now as nat);
        }
        if notifications[i].expires_at > now {
            i = i + 1;
            proof {
                j = j + 1;
            }
            assert(notifications@ =~= unexpired(orig.subrange(0, j), now as nat) + orig.subrange(j, orig.len() as int));
        } else {
            notifications.remove(i);
            proof {
                j = j + 1;
            }
            assert(notifications@ =~= unexpired(orig.subrange(0, j), now as nat) + orig.subrange(j, orig.len() as int));
        }
    }
    proof {
        if j < orig.len() {
            assert(notifications@.len() == i + (orig.len() - j));
        }
        assert(orig.subrange(j, orig.len() as int).len() == 0);
        assert(orig.subrange(0, j) =~= orig);
        assert(notifications@ =~= unexpired(orig, now as nat));
    }
}

/// Every notification left after a cleanup is still live, and cleaning up
/// twice at the same time removes nothing more.
pub proof fn lemma_cleanup_leaves_live(s: Seq<Notification>, now: nat)
    ensures
        forall|i: int| 0 <= i < unexpired(s, now).len() ==> #[trigger] unexpired(s, now)[i].expires_at > now,
        unexpired(unexpired(s, now), now) == unexpired(s, now),
        unexpired(s, now).len() <= s.len(),
    decreases s.len(),
{
    if s.len() > 0 {
        lemma_cleanup_leaves_live(s.drop_last(), now);
        let r = unexpired(s.drop_last(), now);
        if s.last().expires_at > now {
            lemma_unexpired_push(r, s.last(), now);
        }
    }
}

/// The frame rate is averaged over at most this many recent frame times.
pub const MAX_FRAME_TIMES: usize = 60;

/// The frame times kept after recording `now`: the newest
/// `MAX_FRAME_TIMES` of the old ones followed by `now`.
pub open spec fn with_frame_time(old: Seq<u64>, now: u64) -> Seq<u64> {
    let t = old.push(now);
    if t.len() > MAX_FRAME_TIMES {
        t.subrange(t.len() - MAX_FRAME_TIMES, t.len() as int)
    } else {
        t
    }
}

/// Record the time of a presented frame, dropping the oldest times beyond
/// the averaging window.
pub fn push_frame_time(times: &mut Vec<u64>, now: u64)
    ensures
        final(times)@ == with_frame_time(old(times)@, now),
        final(times)@.len() <= MAX_FRAME_TIMES,
        final(times)@.last() == now,
{
    let ghost t = old(times)@.push(now);
    times.push(now);
    while times.len() > MAX_FRAME_TIMES
        invariant
            t.len() >= times@.len(),
            times@ == t.subrange(t.len() - times@.len(), t.len() as int),
            times@.len() >= 1,
            times@.len() >= MAX_FRAME_TIMES || times@.len() == t.len(),
        decreases times@.len(),
    {
        times.remove(0);
        assert(times@ =~= t.subrange(t.len() - times@.len(), t.len() as int));
    }
    assert(t.subrange(0, t.len() as int) =~= t);
}

} // verus!
