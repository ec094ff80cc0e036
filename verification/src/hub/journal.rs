//! What a hub writes to its durable store.
//!
//! Queued envelopes and key packages outlive the hub's process. The hub keeps
//! them in memory and notes, for each change, what is to be written; whoever holds
//! the database writes it down.
use vstd::prelude::*;

use crate::hub::gossip::RoutingId;

verus! {

/// A change of the durable store.
#[derive(Debug)]
pub enum StoreOp {
    /// File an envelope behind those of its routing id.
    Enqueue {
        routing_id: RoutingId,
        payload: Vec<u8>,
    },
    /// Delete the envelopes of a routing id.
    Drain {
        routing_id: RoutingId,
    },
    /// File a key package in place of an earlier one.
    SetKeypackage {
        routing_id: RoutingId,
        kp: Vec<u8>,
    },
}

/// A change as a value.
pub enum OpModel {
    Enqueue(RoutingId, Seq<u8>),
    Drain(RoutingId),
    SetKeypackage(RoutingId, Seq<u8>),
}

impl View for StoreOp {
    type V = OpModel;

    open spec fn view(&self) -> OpModel {
        match *self {
            StoreOp::Enqueue { routing_id, payload } => OpModel::Enqueue(routing_id, payload@),
            StoreOp::Drain { routing_id } => OpModel::Drain(routing_id),
            StoreOp::SetKeypackage { routing_id, kp } => OpModel::SetKeypackage(routing_id, kp@),
        }
    }
}

/// The changes of a list.
pub open spec fn ops_of(v: Seq<StoreOp>) -> Seq<OpModel> {
    v.map_values(|op: StoreOp| op@)
}

/// What a durable store holds.
#[verifier::ext_equal]
pub struct DiskModel {
    /// The envelopes with their routing ids, in the order in which they came.
    pub rows: Seq<(RoutingId, Seq<u8>)>,
    pub keypackages: Map<RoutingId, Seq<u8>>,
}

/// The envelopes of a routing id.
pub open spec fn rows_for(rows: Seq<(RoutingId, Seq<u8>)>, id: RoutingId) -> Seq<Seq<u8>>
    decreases rows.len(),
{
    if rows.len() == 0 {
        Seq::empty()
    } else if rows.last().0 == id {
        rows_for(rows.drop_last(), id).push(rows.last().1)
    } else {
        rows_for(rows.drop_last(), id)
    }
}

/// The envelopes of all other routing ids.
pub open spec fn rows_without(rows: Seq<(RoutingId, Seq<u8>)>, id: RoutingId) -> Seq<
    (RoutingId, Seq<u8>),
>
    decreases rows.len(),
{
    if rows.len() == 0 {
        Seq::empty()
    } else if rows.last().0 == id {
        rows_without(rows.drop_last(), id)
    } else {
        rows_without(rows.drop_last(), id).push(rows.last())
    }
}

/// The store after a change.
pub open spec fn written(d: DiskModel, op: OpModel) -> DiskModel {
    match op {
        OpModel::Enqueue(id, payload) => DiskModel { rows: d.rows.push((id, payload)), ..d },
        OpModel::Drain(id) => DiskModel { rows: rows_without(d.rows, id), ..d },
        OpModel::SetKeypackage(id, kp) => DiskModel {
            keypackages: d.keypackages.insert(id, kp),
            ..d
        },
    }
}

/// The store after some changes.
pub open spec fn written_all(d: DiskModel, ops: Seq<OpModel>) -> DiskModel
    decreases ops.len(),
{
    if ops.len() == 0 {
        d
    } else {
        written(written_all(d, ops.drop_last()), ops.last())
    }
}

/// Deleting the envelopes of one routing id leaves those of others.
pub proof fn lemma_rows_without(rows: Seq<(RoutingId, Seq<u8>)>, id: RoutingId, other: RoutingId)
    ensures
        rows_for(rows_without(rows, id), other) == if other == id {
            Seq::<Seq<u8>>::empty()
        } else {
            rows_for(rows, other)
        },
    decreases rows.len(),
{
    if rows.len() > 0 {
        lemma_rows_without(rows.drop_last(), id, other);
        let w = rows_without(rows.drop_last(), id);
        if rows.last().0 != id {
            assert(w.push(rows.last()).drop_last() =~= w);
        }
    }
}

/// Filing an envelope adds it to those of its routing id.
pub proof fn lemma_rows_push(
    rows: Seq<(RoutingId, Seq<u8>)>,
    id: RoutingId,
    payload: Seq<u8>,
    other: RoutingId,
)
    ensures
        rows_for(rows.push((id, payload)), other) == if other == id {
            rows_for(rows, other).push(payload)
        } else {
            rows_for(rows, other)
        },
{
    assert(rows.push((id, payload)).drop_last() =~= rows);
}

} // verus!
