//! Frames that wait for the first data of their socket.

use vstd::prelude::*;
use std::collections::HashMap;
use std::time::Instant;
use crate::session;

verus! {

broadcast use vstd::std_specs::hash::group_hash_axioms;

/// A frame is kept this many nanoseconds: thirty seconds.
pub const FRAME_LIFETIME: u128 = 30_000_000_000;

struct PendingFrame {
    frame: Vec<u8>,
    /// Nanoseconds since the table was made.
    timestamp: u128,
}

pub struct FrameEntry {
    pub frame: Seq<u8>,
    pub timestamp: u128,
}

impl View for PendingFrame {
    type V = FrameEntry;

    closed spec fn view(&self) -> FrameEntry {
        FrameEntry { frame: self.frame@, timestamp: self.timestamp }
    }
}

/// The frames that wait, by their socket.
pub struct PendingFrames {
    map: HashMap<u64, PendingFrame>,
    origin: Instant,
}

impl View for PendingFrames {
    type V = Map<u64, FrameEntry>;

    closed spec fn view(&self) -> Map<u64, FrameEntry> {
        self.map@.map_values(|p: PendingFrame| p@)
    }
}

/// The entry is not older than a frame may be.
pub open spec fn fresh(e: FrameEntry, nanos: u128) -> bool {
    nanos - e.timestamp < FRAME_LIFETIME
}

/// The frames that are not too old.
pub open spec fn kept(m: Map<u64, FrameEntry>, nanos: u128) -> Map<u64, FrameEntry> {
    m.restrict(m.dom().filter(|s: u64| fresh(m[s], nanos)))
}

/// The frame waits for its socket, and the frames that are too old are gone.
pub open spec fn stored(m: Map<u64, FrameEntry>, s: u64, frame: Seq<u8>, nanos: u128) -> Map<u64, FrameEntry> {
    kept(m, nanos).insert(s, FrameEntry { frame, timestamp: nanos })
}

/// The frame that waits for the socket, if it is not too old.
pub open spec fn waiting(m: Map<u64, FrameEntry>, s: u64, nanos: u128) -> Option<Seq<u8>> {
    if m.contains_key(s) && fresh(m[s], nanos) {
        Some(m[s].frame)
    } else {
        None
    }
}

fn is_fresh(timestamp: u128, nanos: u128) -> (r: bool)
    ensures
        r == (nanos - timestamp < FRAME_LIFETIME),
{
    nanos < timestamp || nanos - timestamp < FRAME_LIFETIME
}

impl PendingFrames {
    pub fn new() -> (r: PendingFrames)
        ensures
            r@ == Map::<u64, FrameEntry>::empty(),
    {
        let r = PendingFrames { map: HashMap::new(), origin: Instant::now() };
        assert(r@ =~= Map::<u64, FrameEntry>::empty());
        r
    }

    /// The sockets whose frames are too old.
    fn stale(&self, nanos: u128) -> (r: Vec<u64>)
        ensures
            forall|s: u64| #[trigger] r@.contains(s) <==> self@.contains_key(s) && !fresh(self@[s], nanos),
    {
        let mut r: Vec<u64> = Vec::new();
        let ghost all = vstd::std_specs::iter::IteratorSpec::remaining(&self.map.iter());
        for e in it: self.map.iter()
            invariant
                it.seq() == all,
                all == vstd::std_specs::iter::IteratorSpec::remaining(&self.map.iter()),
                forall|j: int|
                    0 <= j < r@.len() ==> self@.contains_key(#[trigger] r@[j]) && !fresh(self@[r@[j]], nanos),
                forall|j: int|
                    0 <= j < it.index() && !fresh((*(#[trigger] all[j]).1)@, nanos) ==> r@.contains(*all[j].0),
        {
            let (s, p) = e;
            let ghost before = r@;
            proof {
                let i = it.index();
                assert(all[i] == (s, p));
                assert(self.map@.contains_key(*all[i].0) && self.map@[*all[i].0] == *all[i].1);
            }
            if !is_fresh(p.timestamp, nanos) {
                r.push(*s);
                proof {
                    assert(r@[r@.len() - 1] == *s);
                    assert forall|x: u64| before.contains(x) implies r@.contains(x) by {
                        let j = choose|j: int| 0 <= j < before.len() && before[j] == x;
                        assert(r@[j] == x);
                    }
                }
            }
        }
        proof {
            assert forall|s: u64| self@.contains_key(s) && !fresh(self@[s], nanos) implies #[trigger] r@.contains(s) by {
                assert(self.map@.contains_key(s));
                assert(all.contains((&s, &self.map@[s])));
                let j = choose|j: int| 0 <= j < all.len() && all[j] == (&s, &self.map@[s]);
                assert(*all[j].0 == s);
                assert((*all[j].1)@ == self@[s]);
            }
        }
        r
    }

    /// Keeps the frame for its socket, in place of one that may wait, and drops those that are too
    /// old.
    pub fn store_at(&mut self, s: u64, frame: Vec<u8>, nanos: u128)
        ensures
            final(self)@ == stored(old(self)@, s, frame@, nanos),
    {
        let old_sockets = self.stale(nanos);
        let ghost before = self@;
        let mut i: usize = 0;
        while i < old_sockets.len()
            invariant
                i <= old_sockets@.len(),
                forall|k: u64|
                    #![trigger self@.contains_key(k)]
                    self@.contains_key(k) <==> before.contains_key(k) && !old_sockets@.subrange(0, i as int).contains(k),
                forall|k: u64| #![trigger self@[k]] self@.contains_key(k) ==> self@[k] == before[k],
            decreases old_sockets@.len() - i,
        {
            let gone: u64 = old_sockets[i];
            let ghost prior = self@;
            self.map.remove(&gone);
            proof {
                assert(self@ =~= prior.remove(gone));
                let a = old_sockets@.subrange(0, i as int);
                let b = old_sockets@.subrange(0, i + 1);
                assert(b =~= a.push(gone));
                assert forall|k: u64| b.contains(k) == (a.contains(k) || k == gone) by {
                    if a.contains(k) {
                        let j = choose|j: int| 0 <= j < a.len() && a[j] == k;
                        assert(b[j] == k);
                    }
                    if k == gone {
                        assert(b[i as int] == k);
                    }
                }
            }
            i = i + 1;
        }
        proof {
            assert(old_sockets@.subrange(0, old_sockets@.len() as int) =~= old_sockets@);
            assert(self@ =~= kept(before, nanos));
        }
        self.map.insert(s, PendingFrame { frame, timestamp: nanos });
        assert(self@ =~= stored(before, s, frame@, nanos));
    }

    /// Takes the frame of the socket.
    pub fn take_at(&mut self, s: u64, nanos: u128) -> (r: Option<Vec<u8>>)
        ensures
            final(self)@ == old(self)@.remove(s),
            match r {
                Some(frame) => waiting(old(self)@, s, nanos) == Some(frame@),
                None => waiting(old(self)@, s, nanos) is None,
            },
    {
        let taken = self.map.remove(&s);
        assert(self@ =~= old(self)@.remove(s));
        match taken {
            Some(p) => if is_fresh(p.timestamp, nanos) {
                Some(p.frame)
            } else {
                None
            },
            None => None,
        }
    }

    /// Drops the frame of the socket.
    pub fn remove_pending_frame(&mut self, s: u64)
        ensures
            final(self)@ == old(self)@.remove(s),
    {
        self.map.remove(&s);
        assert(self@ =~= old(self)@.remove(s));
    }

    /// Keeps the frame for its socket from now on.
    pub fn store_pending_frame(&mut self, s: u64, frame: Vec<u8>)
        ensures
            exists|nanos: u128| final(self)@ == #[trigger] stored(old(self)@, s, frame@, nanos),
    {
        let nanos: u128 = session::nanos_since(&self.origin);
        self.store_at(s, frame, nanos);
    }

    /// Takes the frame of the socket, if it is not too old by now.
    pub fn take_pending_frame(&mut self, s: u64) -> (r: Option<Vec<u8>>)
        ensures
            final(self)@ == old(self)@.remove(s),
            exists|nanos: u128|
                #[trigger] waiting(old(self)@, s, nanos) == (match r {
                    Some(frame) => Some(frame@),
                    None => None,
                }),
    {
        let nanos: u128 = session::nanos_since(&self.origin);
        self.take_at(s, nanos)
    }
}

// Laws.

/// A frame that was stored is handed out once and no more.
pub proof fn frame_is_taken_once(m: Map<u64, FrameEntry>, s: u64, frame: Seq<u8>, since: u128, now: u128)
    requires
        now - since < FRAME_LIFETIME,
    ensures
        waiting(stored(m, s, frame, since), s, now) == Some(frame),
        waiting(stored(m, s, frame, since).remove(s), s, now) is None,
{
}

/// A frame that has waited for half a minute is not handed out.
pub proof fn old_frame_is_not_sent(m: Map<u64, FrameEntry>, s: u64, frame: Seq<u8>, since: u128, now: u128)
    requires
        now - since >= FRAME_LIFETIME,
    ensures
        waiting(stored(m, s, frame, since), s, now) is None,
{
}

/// What is stored for one socket is never handed out for another.
pub proof fn frames_are_not_mixed_up(
    m: Map<u64, FrameEntry>,
    s: u64,
    frame: Seq<u8>,
    since: u128,
    other: u64,
    now: u128,
)
    requires
        other != s,
        since <= now,
    ensures
        waiting(stored(m, s, frame, since), other, now) == waiting(m, other, now),
{
}

/// A frame waits for less than thirty seconds; whoever comes before that gets it as it was stored, and whoever
/// comes for a socket without one gets none.
pub proof fn frames_wait_thirty_seconds(m: Map<u64, FrameEntry>, s: u64, now: u128)
    ensures
        waiting(m, s, now) is Some <==> m.contains_key(s) && now - m[s].timestamp < 30_000_000_000,
        waiting(m, s, now) is Some ==> waiting(m, s, now)->0 == m[s].frame,
{
}

/// Storing a frame puts it in place of one that waited for the same socket, and drops the frames of other
/// sockets that have waited for thirty seconds, and no others.
pub proof fn storing_drops_what_is_old(
    m: Map<u64, FrameEntry>,
    s: u64,
    frame: Seq<u8>,
    now: u128,
    other: u64,
)
    ensures
        stored(m, s, frame, now).contains_key(s),
        stored(m, s, frame, now)[s] == (FrameEntry { frame, timestamp: now }),
        other != s ==> (stored(m, s, frame, now).contains_key(other) <==> m.contains_key(other) && now
            - m[other].timestamp < 30_000_000_000),
        other != s && stored(m, s, frame, now).contains_key(other) ==> stored(m, s, frame, now)[other] == m[other],
{
}

} // verus!
