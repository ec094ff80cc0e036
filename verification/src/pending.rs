//! Room frames that came too early.
//!
//! A frame of a room can arrive before the commit that makes it readable. It is
//! kept, and read again after the next commit of the room. What is kept is
//! bounded: the oldest frame of a room goes where there is no room for another.
use vstd::prelude::*;

use std::collections::VecDeque;

use crate::bytes::{copy_bytes, rows_of};
use crate::list_map::ListMap;

verus! {

/// How many frames of one room are kept.
pub const PENDING_ROOM_FRAMES_PER_GROUP_MAX: usize = 64;

/// The frames kept for a room.
pub open spec fn frames_for(m: Map<Seq<u8>, Seq<Seq<u8>>>, group_id: Seq<u8>) -> Seq<Seq<u8>> {
    if m.dom().contains(group_id) {
        m[group_id]
    } else {
        Seq::empty()
    }
}

/// Frames with one more: the oldest goes where there is no room.
pub open spec fn buffered(frames: Seq<Seq<u8>>, payload: Seq<u8>) -> Seq<Seq<u8>> {
    if frames.len() >= PENDING_ROOM_FRAMES_PER_GROUP_MAX {
        frames.skip(1).push(payload)
    } else {
        frames.push(payload)
    }
}

/// The frames of all rooms that came too early.
#[derive(Debug)]
pub struct PendingRoomFrames {
    queues: ListMap<Vec<u8>, VecDeque<Vec<u8>>>,
}

impl View for PendingRoomFrames {
    type V = Map<Seq<u8>, Seq<Seq<u8>>>;

    closed spec fn view(&self) -> Map<Seq<u8>, Seq<Seq<u8>>> {
        self.queues@.map_values(|q: VecDeque<Vec<u8>>| rows_of(q@))
    }
}

impl PendingRoomFrames {
    pub closed spec fn table_wf(&self) -> bool {
        self.queues.wf()
    }

    /// No room has more frames than it may.
    pub open spec fn wf(&self) -> bool {
        &&& self.table_wf()
        &&& forall|g: Seq<u8>| #[trigger]
            frames_for(self@, g).len() <= PENDING_ROOM_FRAMES_PER_GROUP_MAX
    }

    pub fn new() -> (p: Self)
        ensures
            p.wf(),
            p@ == Map::<Seq<u8>, Seq<Seq<u8>>>::empty(),
    {
        let p = PendingRoomFrames { queues: ListMap::new() };
        assert(p@ =~= Map::<Seq<u8>, Seq<Seq<u8>>>::empty());
        p
    }

    /// Keep a frame of a room.
    pub fn buffer(&mut self, group_id: &[u8], payload: &[u8])
        requires
            old(self).wf(),
        ensures
            final(self).wf(),
            final(self)@ == old(self)@.insert(
                group_id@,
                buffered(frames_for(old(self)@, group_id@), payload@),
            ),
    {
        let ghost before = self@;
        let ghost table = self.queues@;
        let key = copy_bytes(group_id);
        let mut q = match self.queues.remove(&key) {
            Some(q) => q,
            None => VecDeque::new(),
        };
        let ghost had = rows_of(q@);
        proof {
            assert(had =~= frames_for(before, group_id@));
        }
        if q.len() >= PENDING_ROOM_FRAMES_PER_GROUP_MAX {
            let _ = q.pop_front();
            proof {
                assert(rows_of(q@) =~= had.skip(1));
            }
        }
        let ghost kept = rows_of(q@);
        q.push_back(copy_bytes(payload));
        let ghost now = q@;
        self.queues.insert(key, q);
        proof {
            assert(rows_of(now) =~= kept.push(payload@));
            assert(self@ =~= before.insert(group_id@, buffered(had, payload@)));
            assert forall|g: Seq<u8>| #[trigger]
                frames_for(self@, g).len() <= PENDING_ROOM_FRAMES_PER_GROUP_MAX by {
                assert(frames_for(before, g).len() <= PENDING_ROOM_FRAMES_PER_GROUP_MAX);
            }
        }
    }

    /// Take all frames of a room out, the oldest first.
    pub fn drain(&mut self, group_id: &[u8]) -> (frames: Vec<Vec<u8>>)
        requires
            old(self).wf(),
        ensures
            final(self).wf(),
            rows_of(frames@) == frames_for(old(self)@, group_id@),
            final(self)@ == old(self)@.remove(group_id@),
    {
        let ghost before = self@;
        let key = copy_bytes(group_id);
        let mut out: Vec<Vec<u8>> = Vec::new();
        match self.queues.remove(&key) {
            None => {},
            Some(mut q) => {
                let ghost all = rows_of(q@);
                proof {
                    assert(rows_of(out@) + rows_of(q@) =~= all);
                }
                while q.len() > 0
                    invariant
                        rows_of(out@) + rows_of(q@) == all,
                    decreases q@.len(),
                {
                    let ghost o = rows_of(out@);
                    let ghost r = rows_of(q@);
                    match q.pop_front() {
                        Some(f) => {
                            let ghost row = f@;
                            out.push(f);
                            proof {
                                assert(r[0] == row);
                                assert(rows_of(out@) =~= o.push(row));
                                assert(rows_of(q@) =~= r.skip(1));
                                assert(rows_of(out@) + rows_of(q@) =~= all);
                            }
                        },
                        None => {},
                    }
                }
                proof {
                    assert(rows_of(out@) =~= all);
                }
            },
        }
        proof {
            assert(self@ =~= before.remove(group_id@));
            assert(rows_of(out@) =~= frames_for(before, group_id@));
            assert forall|g: Seq<u8>| #[trigger]
                frames_for(self@, g).len() <= PENDING_ROOM_FRAMES_PER_GROUP_MAX by {
                assert(frames_for(before, g).len() <= PENDING_ROOM_FRAMES_PER_GROUP_MAX);
            }
        }
        out
    }
}

/// The frames kept for a room after some came too early.
pub open spec fn buffered_all(frames: Seq<Seq<u8>>, more: Seq<Seq<u8>>) -> Seq<Seq<u8>>
    decreases more.len(),
{
    if more.len() == 0 {
        frames
    } else {
        buffered(buffered_all(frames, more.drop_last()), more.last())
    }
}

/// Frames that came too early are read again in the order in which they came; of
/// more than can be kept, the latest are.
pub proof fn law_early_frames_kept_in_order(more: Seq<Seq<u8>>)
    ensures
        buffered_all(Seq::empty(), more) == if more.len() <= PENDING_ROOM_FRAMES_PER_GROUP_MAX {
            more
        } else {
            more.skip(more.len() - PENDING_ROOM_FRAMES_PER_GROUP_MAX)
        },
    decreases more.len(),
{
    if more.len() > 0 {
        let p = more.drop_last();
        law_early_frames_kept_in_order(p);
        assert(buffered_all(Seq::empty(), more) =~= if more.len()
            <= PENDING_ROOM_FRAMES_PER_GROUP_MAX {
            more
        } else {
            more.skip(more.len() - PENDING_ROOM_FRAMES_PER_GROUP_MAX)
        });
    } else {
        assert(more =~= Seq::<Seq<u8>>::empty());
    }
}

/// A room never has more than 64 frames waiting, and a frame pushes out only the
/// oldest one of its own room, and only where 64 wait already.
pub proof fn law_early_frames_are_bounded(frames: Seq<Seq<u8>>, payload: Seq<u8>)
    requires
        frames.len() <= 64,
    ensures
        buffered(frames, payload).len() <= 64,
        buffered(frames, payload).last() == payload,
        frames.len() < 64 ==> buffered(frames, payload).drop_last() == frames,
        frames.len() == 64 ==> buffered(frames, payload).drop_last() == frames.skip(1),
{
    if frames.len() < 64 {
        assert(buffered(frames, payload).drop_last() =~= frames);
    } else {
        assert(buffered(frames, payload).drop_last() =~= frames.skip(1));
    }
}

} // verus!
