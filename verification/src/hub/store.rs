//! Rows of the durable store.
//!
//! The database keeps queued envelopes in the order of their arrival, and one
//! key package for each routing id. What is read from it at the start of a hub
//! is put in order here.
use vstd::prelude::*;

use crate::bytes::{copy_bytes, rows_of};
use crate::codec::to_array;
use crate::hub::gossip::{GossipKind, RoutingId};
use crate::hub::handler::is_publication;
use crate::hub::journal::{
    lemma_rows_push, lemma_rows_without, rows_for, written, written_all, DiskModel, OpModel,
};
use crate::hub::state::{
    empty_hub, first_frame, is_client_delivery, is_delivery, is_telling, joined, law_drained_once,
    law_other_queues_untouched, noted, passes_on, published, queue_of, settled, started,
    stored_directory, stored_queues, subscribed, ConnId, HubModel, StoredState,
};
use crate::list_map::same_array;

verus! {

/// A row whose routing id is not 16 bytes long.
#[derive(Debug, Clone, Copy, PartialEq, Eq, Structural)]
pub enum StoreError {
    /// In the table of queued envelopes.
    QueueRoutingId,
    /// In the table of key packages.
    KeypackageRoutingId,
}

impl StoreError {
    pub open spec fn text(self) -> Seq<char> {
        match self {
            StoreError::QueueRoutingId => "queue_entry.routing_id not 16 bytes"@,
            StoreError::KeypackageRoutingId => "keypackage.routing_id not 16 bytes"@,
        }
    }

    pub fn message(&self) -> (s: String)
        ensures
            s@ == self.text(),
    {
        match self {
            StoreError::QueueRoutingId => "queue_entry.routing_id not 16 bytes".to_owned(),
            StoreError::KeypackageRoutingId => "keypackage.routing_id not 16 bytes".to_owned(),
        }
    }
}

/// A row of the database: a routing id and what is filed under it.
pub type Row = (Vec<u8>, Vec<u8>);

/// Every routing id is 16 bytes long.
pub open spec fn rows_ok(rows: Seq<Row>) -> bool {
    forall|i: int| 0 <= i < rows.len() ==> (#[trigger] rows[i]).0@.len() == 16
}

/// What the rows file under a routing id, in their order.
pub open spec fn filed_under(rows: Seq<Row>, id: RoutingId) -> Seq<Seq<u8>>
    decreases rows.len(),
{
    if rows.len() == 0 {
        Seq::empty()
    } else if rows.last().0@ == id@ {
        filed_under(rows.drop_last(), id).push(rows.last().1@)
    } else {
        filed_under(rows.drop_last(), id)
    }
}

/// The routing ids of a list of groups.
pub open spec fn group_ids(groups: Seq<(RoutingId, Vec<Vec<u8>>)>) -> Seq<RoutingId> {
    groups.map_values(|g: (RoutingId, Vec<Vec<u8>>)| g.0)
}

/// Groups hold, for each routing id that occurs and for no other, all that the
/// rows file under it.
pub open spec fn grouped(rows: Seq<Row>, groups: Seq<(RoutingId, Vec<Vec<u8>>)>) -> bool {
    &&& group_ids(groups).no_duplicates()
    &&& forall|i: int|
        0 <= i < groups.len() ==> rows_of((#[trigger] groups[i]).1@) == filed_under(
            rows,
            groups[i].0,
        ) && groups[i].1@.len() > 0
    &&& forall|id: RoutingId|
        #![trigger filed_under(rows, id)]
        filed_under(rows, id).len() > 0 ==> group_ids(groups).contains(id)
}

/// Group queued envelopes by their routing id, each group in the order of the
/// rows.
pub fn load_all_queues(rows: &Vec<Row>) -> (r: Result<Vec<(RoutingId, Vec<Vec<u8>>)>, StoreError>)
    ensures
        match r {
            Ok(groups) => rows_ok(rows@) && grouped(rows@, groups@),
            Err(e) => !rows_ok(rows@) && e == StoreError::QueueRoutingId,
        },
{
    let mut groups: Vec<(RoutingId, Vec<Vec<u8>>)> = Vec::new();
    let mut i: usize = 0;
    while i < rows.len()
        invariant
            i <= rows@.len(),
            rows_ok(rows@.take(i as int)),
            grouped(rows@.take(i as int), groups@),
        decreases rows@.len() - i,
    {
        if rows[i].0.len() != 16 {
            assert(rows@[i as int].0@.len() != 16);
            return Err(StoreError::QueueRoutingId);
        }
        let id: RoutingId = to_array::<16>(rows[i].0.as_slice());
        let ghost prefix = rows@.take(i as int);
        let ghost longer = rows@.take(i + 1);
        let ghost before = groups@;
        proof {
            assert(longer.drop_last() =~= prefix);
            assert(longer.last() == rows@[i as int]);
            assert forall|k: int| 0 <= k < longer.len() implies (#[trigger] longer[k]).0@.len()
                == 16 by {
                if k < i {
                    assert(prefix[k].0@.len() == 16);
                }
            }
        }
        let payload = copy_bytes(rows[i].1.as_slice());
        file_payload(&mut groups, id, payload, Ghost(prefix), Ghost(longer));
        i += 1;
    }
    proof {
        assert(rows@.take(i as int) =~= rows@);
    }
    Ok(groups)
}

proof fn lemma_filed_other(rows: Seq<Row>, id: RoutingId, other: RoutingId)
    requires
        rows.len() > 0,
        rows.last().0@ == id@,
        other != id,
    ensures
        filed_under(rows, other) == filed_under(rows.drop_last(), other),
{
    if other@ == id@ {
        assert forall|j: int| 0 <= j < 16 implies other[j] == id[j] by {
            assert(other@[j] == id@[j]);
        }
        assert(other =~= id);
    }
}

fn file_payload(
    groups: &mut Vec<(RoutingId, Vec<Vec<u8>>)>,
    id: RoutingId,
    payload: Vec<u8>,
    rows: Ghost<Seq<Row>>,
    longer: Ghost<Seq<Row>>,
)
    requires
        grouped(rows@, old(groups)@),
        longer@.len() > 0,
        longer@.drop_last() == rows@,
        longer@.last().0@ == id@,
        longer@.last().1@ == payload@,
    ensures
        grouped(longer@, final(groups)@),
{
    let ghost before = groups@;
    let ghost row = payload@;
    let mut i: usize = 0;
    while i < groups.len()
        invariant
            i <= groups@.len(),
            groups@ == before,
            row == payload@,
            grouped(rows@, before),
            longer@.len() > 0,
            longer@.drop_last() == rows@,
            longer@.last().0@ == id@,
            longer@.last().1@ == row,
            forall|j: int| 0 <= j < i ==> (#[trigger] before[j]).0 != id,
        decreases groups@.len() - i,
    {
        if same_array(&groups[i].0, &id) {
            groups[i].1.push(payload);
            proof {
                let after = groups@;
                assert(rows_of(after[i as int].1@) =~= rows_of(before[i as int].1@).push(row));
                assert(group_ids(after) =~= group_ids(before));
                assert forall|k: int| 0 <= k < after.len() implies rows_of(
                    (#[trigger] after[k]).1@,
                ) == filed_under(longer@, after[k].0) && after[k].1@.len() > 0 by {
                    if k != i {
                        assert(after[k] == before[k]);
                        assert(group_ids(before)[k] != group_ids(before)[i as int]);
                        lemma_filed_other(longer@, id, after[k].0);
                    }
                }
                assert forall|k: RoutingId|
                    #![trigger filed_under(longer@, k)]
                    filed_under(longer@, k).len() > 0 implies group_ids(after).contains(k) by {
                    if k == id {
                        assert(group_ids(after)[i as int] == id);
                    } else {
                        lemma_filed_other(longer@, id, k);
                        assert(filed_under(rows@, k).len() > 0);
                    }
                }
            }
            return ;
        }
        i += 1;
    }
    let mut first: Vec<Vec<u8>> = Vec::new();
    first.push(payload);
    let ghost fresh = first@;
    groups.push((id, first));
    proof {
        let after = groups@;
        assert(!group_ids(before).contains(id)) by {
            if group_ids(before).contains(id) {
                let j = choose|j: int| 0 <= j < group_ids(before).len() && group_ids(before)[j] == id;
                assert(before[j].0 == id);
            }
        }
        assert(filed_under(rows@, id).len() == 0);
        assert(rows_of(fresh) =~= seq![row]);
        assert(filed_under(longer@, id) =~= seq![row]);
        assert(group_ids(after) =~= group_ids(before).push(id));
        assert(group_ids(after).no_duplicates()) by {
            assert forall|a: int, b: int|
                0 <= a < group_ids(after).len() && 0 <= b < group_ids(after).len() && a
                    != b implies group_ids(after)[a] != group_ids(after)[b] by {
                if a < before.len() {
                    assert(group_ids(before).contains(group_ids(before)[a]));
                }
                if b < before.len() {
                    assert(group_ids(before).contains(group_ids(before)[b]));
                }
            }
        }
        assert forall|k: int| 0 <= k < after.len() implies rows_of((#[trigger] after[k]).1@)
            == filed_under(longer@, after[k].0) && after[k].1@.len() > 0 by {
            if k < before.len() {
                assert(after[k] == before[k]);
                assert(before[k].0 != id);
                lemma_filed_other(longer@, id, after[k].0);
            }
        }
        assert forall|k: RoutingId|
            #![trigger filed_under(longer@, k)]
            filed_under(longer@, k).len() > 0 implies group_ids(after).contains(k) by {
            if k == id {
                assert(group_ids(after)[before.len() as int] == id);
            } else {
                lemma_filed_other(longer@, id, k);
                assert(filed_under(rows@, k).len() > 0);
                assert(group_ids(before).contains(k));
                let j = choose|j: int| 0 <= j < group_ids(before).len() && group_ids(before)[j] == k;
                assert(group_ids(after)[j] == k);
            }
        }
    }
}

/// The key packages of the database, in the order of the rows.
pub fn load_all_keypackages(rows: &Vec<Row>) -> (r: Result<Vec<(RoutingId, Vec<u8>)>, StoreError>)
    ensures
        match r {
            Ok(kps) => {
                &&& rows_ok(rows@)
                &&& kps@.len() == rows@.len()
                &&& forall|i: int|
                    0 <= i < kps@.len() ==> (#[trigger] kps@[i]).0@ == rows@[i].0@ && kps@[i].1@
                        == rows@[i].1@
            },
            Err(e) => !rows_ok(rows@) && e == StoreError::KeypackageRoutingId,
        },
{
    let mut out: Vec<(RoutingId, Vec<u8>)> = Vec::new();
    let mut i: usize = 0;
    while i < rows.len()
        invariant
            i <= rows@.len(),
            out@.len() == i,
            forall|j: int|
                0 <= j < i ==> (#[trigger] out@[j]).0@ == rows@[j].0@ && out@[j].1@ == rows@[j].1@,
            forall|j: int| 0 <= j < i ==> (#[trigger] rows@[j]).0@.len() == 16,
        decreases rows@.len() - i,
    {
        if rows[i].0.len() != 16 {
            assert(rows@[i as int].0@.len() != 16);
            return Err(StoreError::KeypackageRoutingId);
        }
        let id: RoutingId = to_array::<16>(rows[i].0.as_slice());
        out.push((id, copy_bytes(rows[i].1.as_slice())));
        i += 1;
    }
    Ok(out)
}

/// Milliseconds of a day.
pub const DAY_MS: i64 = 86_400_000;

/// The oldest time at which an envelope may have been queued to be kept.
pub open spec fn oldest_kept(now_ms: i64, age_days: u32) -> int {
    now_ms - age_days * DAY_MS
}

/// The time before which queued envelopes are too old to keep.
pub fn gc_cutoff(now_ms: i64, age_days: u32) -> (cutoff: i64)
    requires
        now_ms >= 0,
    ensures
        cutoff == oldest_kept(now_ms, age_days),
{
    now_ms - age_days as i64 * DAY_MS
}

/// A restart loses no envelope: a hub that starts from the grouped rows has, for
/// every routing id, what the rows file under it, in their order.
pub proof fn law_restart_keeps_queues(
    rows: Seq<Row>,
    groups: Seq<(RoutingId, Vec<Vec<u8>>)>,
    id: RoutingId,
)
    requires
        grouped(rows, groups),
    ensures
        stored_queues(groups).dom().contains(id) <==> filed_under(rows, id).len() > 0,
        stored_queues(groups).dom().contains(id) ==> stored_queues(groups)[id] == filed_under(
            rows,
            id,
        ),
{
    lemma_stored_queues(groups);
    if filed_under(rows, id).len() > 0 {
        let i = choose|i: int| 0 <= i < group_ids(groups).len() && group_ids(groups)[i] == id;
        assert(groups[i].0 == id);
    }
    if stored_queues(groups).dom().contains(id) {
        let i = choose|i: int| 0 <= i < groups.len() && (#[trigger] groups[i]).0 == id;
        assert(rows_of(groups[i].1@).len() == groups[i].1@.len());
    }
}

proof fn lemma_stored_queues(groups: Seq<(RoutingId, Vec<Vec<u8>>)>)
    requires
        group_ids(groups).no_duplicates(),
    ensures
        forall|i: int|
            0 <= i < groups.len() ==> stored_queues(groups).dom().contains(
                (#[trigger] groups[i]).0,
            ) && stored_queues(groups)[groups[i].0] == rows_of(groups[i].1@),
        forall|id: RoutingId|
            #![trigger stored_queues(groups).dom().contains(id)]
            stored_queues(groups).dom().contains(id) ==> exists|i: int|
                0 <= i < groups.len() && (#[trigger] groups[i]).0 == id,
    decreases groups.len(),
{
    if groups.len() > 0 {
        let p = groups.drop_last();
        assert(group_ids(p) =~= group_ids(groups).drop_last());
        assert(group_ids(p).no_duplicates()) by {
            assert forall|a: int, b: int|
                0 <= a < group_ids(p).len() && 0 <= b < group_ids(p).len() && a != b implies group_ids(
                p,
            )[a] != group_ids(p)[b] by {
                assert(group_ids(groups)[a] != group_ids(groups)[b]);
            }
        }
        lemma_stored_queues(p);
        assert forall|i: int| 0 <= i < groups.len() implies stored_queues(groups).dom().contains(
            (#[trigger] groups[i]).0,
        ) && stored_queues(groups)[groups[i].0] == rows_of(groups[i].1@) by {
            if i < p.len() {
                assert(p[i] == groups[i]);
                assert(group_ids(groups)[i] != group_ids(groups)[groups.len() - 1]);
            }
        }
        assert forall|id: RoutingId|
            #![trigger stored_queues(groups).dom().contains(id)]
            stored_queues(groups).dom().contains(id) implies exists|i: int|
            0 <= i < groups.len() && (#[trigger] groups[i]).0 == id by {
            if id == groups.last().0 {
                assert(groups[groups.len() - 1].0 == id);
            } else {
                assert(stored_queues(p).dom().contains(id));
                let i = choose|i: int| 0 <= i < p.len() && (#[trigger] p[i]).0 == id;
                assert(groups[i].0 == id);
            }
        }
    }
}

/// What the store holds, with what it does not know yet, is what the hub holds.
pub open spec fn in_sync(d: DiskModel, m: HubModel) -> bool {
    let all = written_all(d, m.unsaved);
    &&& m.durable
    &&& forall|id: RoutingId| #[trigger] rows_for(all.rows, id) == queue_of(m, id)
    &&& all.keypackages == m.keypackages
}

proof fn lemma_sync_noted(d: DiskModel, m: HubModel, n: HubModel, op: OpModel)
    requires
        in_sync(d, m),
        n.durable,
        n.unsaved == m.unsaved,
        written(written_all(d, m.unsaved), op).keypackages == n.keypackages,
        forall|id: RoutingId| #[trigger]
            rows_for(written(written_all(d, m.unsaved), op).rows, id) == queue_of(n, id),
    ensures
        in_sync(d, noted(n, op)),
{
    assert(m.unsaved.push(op).drop_last() =~= m.unsaved);
    let k = noted(n, op);
    assert(written_all(d, k.unsaved) == written(written_all(d, m.unsaved), op));
    assert forall|id: RoutingId| #[trigger]
        rows_for(written_all(d, k.unsaved).rows, id) == queue_of(k, id) by {
        assert(queue_of(k, id) == queue_of(n, id));
    }
}

proof fn lemma_sync_settled(
    d: DiskModel,
    m: HubModel,
    id: RoutingId,
    payload: Seq<u8>,
    accepted: nat,
)
    requires
        in_sync(d, m),
    ensures
        in_sync(d, settled(m, id, payload, accepted)),
{
    if accepted == 0 {
        let all = written_all(d, m.unsaved);
        let n = HubModel { queues: m.queues.insert(id, queue_of(m, id).push(payload)), ..m };
        let op = OpModel::Enqueue(id, payload);
        assert forall|other: RoutingId| #[trigger] rows_for(written(all, op).rows, other) == queue_of(
            n,
            other,
        ) by {
            lemma_rows_push(all.rows, id, payload, other);
            assert(rows_for(all.rows, other) == queue_of(m, other));
        }
        lemma_sync_noted(d, m, n, op);
    }
}

/// What was sent has no part in the store.
proof fn lemma_sync_same(d: DiskModel, m: HubModel, n: HubModel)
    requires
        in_sync(d, m),
        n == (HubModel { sent: n.sent, told: n.told, ..m }),
    ensures
        in_sync(d, n),
{
    assert forall|id: RoutingId| #[trigger] rows_for(written_all(d, n.unsaved).rows, id) == queue_of(
        n,
        id,
    ) by {
        assert(rows_for(written_all(d, m.unsaved).rows, id) == queue_of(m, id));
    }
}

/// Delivering an envelope of a client keeps the durable store in step with the
/// hub, whoever took it.
pub proof fn law_delivery_is_durable(
    d: DiskModel,
    before: HubModel,
    id: RoutingId,
    payload: Seq<u8>,
    delivered: nat,
    after: HubModel,
)
    requires
        in_sync(d, before),
        is_client_delivery(before, id, payload, delivered, after),
    ensures
        in_sync(d, after),
{
    let mid = choose|mid: HubModel|
        {
            &&& #[trigger] is_delivery(before, id, payload, delivered, mid)
            &&& if passes_on(before.gossip_mode, delivered) {
                exists|accepted: nat| #[trigger]
                    is_telling(
                        mid,
                        None,
                        GossipKind::Deliver,
                        first_frame(before, id, payload),
                        accepted,
                        after,
                    )
            } else {
                after == mid
            }
        };
    let offers = mid.sent.skip(before.sent.len() as int);
    let offered = HubModel { sent: before.sent + offers, ..before };
    lemma_sync_same(d, before, offered);
    lemma_sync_settled(d, offered, id, payload, delivered);
    if passes_on(before.gossip_mode, delivered) {
        lemma_sync_same(d, mid, after);
    }
}

proof fn lemma_sync_published(d: DiskModel, m: HubModel, id: RoutingId, kp: Seq<u8>)
    requires
        in_sync(d, m),
    ensures
        in_sync(d, published(m, id, kp)),
{
    let all = written_all(d, m.unsaved);
    let n = HubModel { keypackages: m.keypackages.insert(id, kp), ..m };
    let op = OpModel::SetKeypackage(id, kp);
    assert forall|other: RoutingId| #[trigger] rows_for(written(all, op).rows, other) == queue_of(
        n,
        other,
    ) by {
        assert(rows_for(all.rows, other) == queue_of(m, other));
    }
    lemma_sync_noted(d, m, n, op);
}

/// Publishing a key package keeps the durable store in step with the hub.
pub proof fn law_publishing_is_durable(
    d: DiskModel,
    before: HubModel,
    id: RoutingId,
    kp: Seq<u8>,
    after: HubModel,
)
    requires
        in_sync(d, before),
        is_publication(before, id, kp, after),
    ensures
        in_sync(d, after),
{
    let (mid, took) = choose|mid: HubModel, took: nat|
        #[trigger] is_telling(
            before,
            None,
            GossipKind::Publish,
            first_frame(before, id, kp),
            took,
            mid,
        ) && after == published(mid, id, kp);
    lemma_sync_same(d, before, mid);
    lemma_sync_published(d, mid, id, kp);
}

/// Subscribing keeps the durable store in step with the hub: what was handed out
/// is deleted, so that it does not come again after a restart.
pub proof fn law_subscribing_is_durable(
    d: DiskModel,
    m: HubModel,
    conn: ConnId,
    ids: Seq<RoutingId>,
)
    requires
        in_sync(d, m),
    ensures
        in_sync(d, subscribed(m, conn, ids)),
    decreases ids.len(),
{
    if ids.len() > 0 {
        law_subscribing_is_durable(d, m, conn, ids.drop_last());
        let b = subscribed(m, conn, ids.drop_last());
        let id = ids.last();
        let all = written_all(d, b.unsaved);
        let n = joined(b, conn, id);
        if b.queues.dom().contains(id) {
            let op = OpModel::Drain(id);
            assert forall|other: RoutingId| #[trigger]
                rows_for(written(all, op).rows, other) == queue_of(n, other) by {
                lemma_rows_without(all.rows, id, other);
                assert(rows_for(all.rows, other) == queue_of(b, other));
            }
            lemma_sync_noted(d, b, n, op);
        } else {
            assert forall|other: RoutingId| #[trigger] rows_for(
                written_all(d, n.unsaved).rows,
                other,
            ) == queue_of(n, other) by {
                assert(rows_for(all.rows, other) == queue_of(b, other));
            }
        }
    }
}

/// Writing down what the store does not know yet keeps it in step with the hub.
pub proof fn law_writing_keeps_step(d: DiskModel, m: HubModel)
    requires
        in_sync(d, m),
    ensures
        in_sync(written_all(d, m.unsaved), (HubModel { unsaved: Seq::empty(), ..m })),
{
    let n = HubModel { unsaved: Seq::<OpModel>::empty(), ..m };
    let w = written_all(d, m.unsaved);
    assert(written_all(w, n.unsaved) == w);
    assert forall|id: RoutingId| #[trigger] rows_for(written_all(w, n.unsaved).rows, id) == queue_of(
        n,
        id,
    ) by {
        assert(rows_for(w.rows, id) == queue_of(m, id));
    }
}

/// The rows of a database hold the envelopes of a store, in order.
pub open spec fn rows_hold(rows: Seq<Row>, d: DiskModel) -> bool {
    &&& rows.len() == d.rows.len()
    &&& forall|i: int|
        0 <= i < rows.len() ==> (#[trigger] rows[i]).0@ == d.rows[i].0@ && rows[i].1@
            == d.rows[i].1
}

proof fn lemma_filed(rows: Seq<Row>, d: DiskModel, id: RoutingId)
    requires
        rows_hold(rows, d),
    ensures
        filed_under(rows, id) == rows_for(d.rows, id),
    decreases rows.len(),
{
    if rows.len() > 0 {
        let e = DiskModel { rows: d.rows.drop_last(), ..d };
        assert(rows_hold(rows.drop_last(), e)) by {
            assert forall|i: int| 0 <= i < rows.drop_last().len() implies (
            #[trigger] rows.drop_last()[i]).0@ == e.rows[i].0@ && rows.drop_last()[i].1@
                == e.rows[i].1 by {
                assert(rows[i].0@ == d.rows[i].0@);
            }
        }
        lemma_filed(rows.drop_last(), e, id);
        assert(rows[rows.len() - 1].0@ == d.rows[rows.len() - 1].0@);
        if rows.last().0@ == id@ {
            assert(d.rows.last().0 =~= id);
        }
    }
}

/// What waits in a hub waits there again after a restart: a hub that starts from
/// the rows of a store that is in step with the hub before has the same envelopes
/// for every routing id, in the same order.
pub proof fn law_restart_restores_queues(
    d: DiskModel,
    m: HubModel,
    rows: Seq<Row>,
    groups: Seq<(RoutingId, Vec<Vec<u8>>)>,
    id: RoutingId,
)
    requires
        in_sync(d, m),
        m.unsaved.len() == 0,
        rows_hold(rows, d),
        grouped(rows, groups),
    ensures
        queue_of(
            (HubModel { queues: stored_queues(groups), durable: true, ..empty_hub() }),
            id,
        ) == queue_of(m, id),
{
    lemma_filed(rows, d, id);
    law_restart_keeps_queues(rows, groups, id);
    assert(written_all(d, m.unsaved) == d);
    assert(rows_for(d.rows, id) == queue_of(m, id));
}

/// The rows of a database hold the key packages of a store, each once.
pub open spec fn directory_holds(kps: Seq<(RoutingId, Vec<u8>)>, d: DiskModel) -> bool {
    &&& forall|i: int, j: int|
        0 <= i < j < kps.len() ==> (#[trigger] kps[i]).0 != (#[trigger] kps[j]).0
    &&& forall|i: int|
        0 <= i < kps.len() ==> d.keypackages.dom().contains((#[trigger] kps[i]).0)
            && d.keypackages[kps[i].0] == kps[i].1@
    &&& forall|id: RoutingId| #[trigger]
        d.keypackages.dom().contains(id) ==> exists|i: int|
            0 <= i < kps.len() && (#[trigger] kps[i]).0 == id
}

proof fn lemma_stored_directory(kps: Seq<(RoutingId, Vec<u8>)>)
    requires
        forall|i: int, j: int|
            0 <= i < j < kps.len() ==> (#[trigger] kps[i]).0 != (#[trigger] kps[j]).0,
    ensures
        forall|i: int|
            0 <= i < kps.len() ==> stored_directory(kps).dom().contains((#[trigger] kps[i]).0)
                && stored_directory(kps)[kps[i].0] == kps[i].1@,
        forall|id: RoutingId| #[trigger]
            stored_directory(kps).dom().contains(id) ==> exists|i: int|
                0 <= i < kps.len() && (#[trigger] kps[i]).0 == id,
    decreases kps.len(),
{
    if kps.len() > 0 {
        let p = kps.drop_last();
        lemma_stored_directory(p);
        assert forall|i: int| 0 <= i < kps.len() implies stored_directory(kps).dom().contains(
            (#[trigger] kps[i]).0,
        ) && stored_directory(kps)[kps[i].0] == kps[i].1@ by {
            if i < p.len() {
                assert(p[i] == kps[i]);
                assert(kps[i].0 != kps[kps.len() - 1].0);
            }
        }
        assert forall|id: RoutingId| #[trigger]
            stored_directory(kps).dom().contains(id) implies exists|i: int|
            0 <= i < kps.len() && (#[trigger] kps[i]).0 == id by {
            if id == kps.last().0 {
                assert(kps[kps.len() - 1].0 == id);
            } else {
                assert(stored_directory(p).dom().contains(id));
                let i = choose|i: int| 0 <= i < p.len() && (#[trigger] p[i]).0 == id;
                assert(kps[i].0 == id);
            }
        }
    }
}

proof fn lemma_directory(kps: Seq<(RoutingId, Vec<u8>)>, d: DiskModel)
    requires
        directory_holds(kps, d),
    ensures
        stored_directory(kps) == d.keypackages,
{
    lemma_stored_directory(kps);
    let s = stored_directory(kps);
    assert forall|id: RoutingId| #[trigger]
        s.dom().contains(id) == d.keypackages.dom().contains(id) by {
        if s.dom().contains(id) {
            let i = choose|i: int| 0 <= i < kps.len() && (#[trigger] kps[i]).0 == id;
            assert(d.keypackages.dom().contains(kps[i].0));
        }
        if d.keypackages.dom().contains(id) {
            let i = choose|i: int| 0 <= i < kps.len() && (#[trigger] kps[i]).0 == id;
            assert(s.dom().contains(kps[i].0));
        }
    }
    assert forall|id: RoutingId| #![trigger s[id]] s.dom().contains(id) implies s[id]
        == d.keypackages[id] by {
        let i = choose|i: int| 0 <= i < kps.len() && (#[trigger] kps[i]).0 == id;
        assert(s[kps[i].0] == kps[i].1@);
    }
    assert(s =~= d.keypackages);
}

/// A hub has the same directory after a restart.
pub proof fn law_restart_restores_directory(
    d: DiskModel,
    m: HubModel,
    kps: Seq<(RoutingId, Vec<u8>)>,
)
    requires
        in_sync(d, m),
        m.unsaved.len() == 0,
        directory_holds(kps, d),
    ensures
        stored_directory(kps) == m.keypackages,
{
    lemma_directory(kps, d);
    assert(written_all(d, m.unsaved) == d);
}

/// What was read from a database is what the store holds: its envelopes, grouped by
/// routing id, and its key packages.
pub open spec fn is_loaded(d: DiskModel, rows: Seq<Row>, stored: StoredState) -> bool {
    &&& rows_hold(rows, d)
    &&& grouped(rows, stored.queues@)
    &&& directory_holds(stored.keypackages@, d)
}

/// A hub that is made from a store starts in step with it.
pub proof fn law_hub_starts_in_step(d: DiskModel, rows: Seq<Row>, stored: StoredState)
    requires
        is_loaded(d, rows, stored),
    ensures
        in_sync(d, started(stored)),
{
    let m = started(stored);
    lemma_directory(stored.keypackages@, d);
    assert(written_all(d, m.unsaved) == d);
    assert forall|id: RoutingId| #[trigger]
        rows_for(written_all(d, m.unsaved).rows, id) == queue_of(m, id) by {
        lemma_filed(rows, d, id);
        law_restart_keeps_queues(rows, stored.queues@, id);
    }
}

/// A call on a hub, or on its store.
pub enum HubCall {
    /// Deliver an envelope; so many took it.
    Deliver(RoutingId, Seq<u8>, nat),
    /// Deliver an envelope of a client; so many took it.
    DeliverFromClient(RoutingId, Seq<u8>, nat),
    /// Subscribe a connection to routing ids.
    Subscribe(ConnId, Seq<RoutingId>),
    /// File a key package.
    Publish(RoutingId, Seq<u8>),
    /// File the key package of a client, and tell the other hubs.
    PublishFromClient(RoutingId, Seq<u8>),
    /// Write down what the store does not know yet.
    Write,
    /// Anything else: a connection comes or goes, the rate limit counts, gossip is
    /// passed on or set up.
    Other,
}

/// What a call does to a hub and to its store.
pub open spec fn is_call(
    call: HubCall,
    before: HubModel,
    d: DiskModel,
    after: HubModel,
    e: DiskModel,
) -> bool {
    match call {
        HubCall::Deliver(id, payload, delivered) => e == d && is_delivery(
            before,
            id,
            payload,
            delivered,
            after,
        ),
        HubCall::DeliverFromClient(id, payload, delivered) => e == d && is_client_delivery(
            before,
            id,
            payload,
            delivered,
            after,
        ),
        HubCall::Subscribe(conn, ids) => e == d && after == subscribed(before, conn, ids),
        HubCall::Publish(id, kp) => e == d && after == published(before, id, kp),
        HubCall::PublishFromClient(id, kp) => e == d && is_publication(before, id, kp, after),
        HubCall::Write => e == written_all(d, before.unsaved) && after == (HubModel {
            unsaved: Seq::empty(),
            ..before
        }),
        HubCall::Other => {
            &&& e == d
            &&& after.queues == before.queues
            &&& after.keypackages == before.keypackages
            &&& after.durable == before.durable
            &&& after.unsaved == before.unsaved
        },
    }
}

proof fn lemma_call_in_step(
    call: HubCall,
    before: HubModel,
    d: DiskModel,
    after: HubModel,
    e: DiskModel,
)
    requires
        in_sync(d, before),
        is_call(call, before, d, after, e),
    ensures
        in_sync(e, after),
{
    match call {
        HubCall::Deliver(id, payload, delivered) => {
            let offers = after.sent.skip(before.sent.len() as int);
            let offered = HubModel { sent: before.sent + offers, ..before };
            lemma_sync_same(d, before, offered);
            lemma_sync_settled(d, offered, id, payload, delivered);
        },
        HubCall::DeliverFromClient(id, payload, delivered) => {
            law_delivery_is_durable(d, before, id, payload, delivered, after);
        },
        HubCall::Subscribe(conn, ids) => {
            law_subscribing_is_durable(d, before, conn, ids);
        },
        HubCall::Publish(id, kp) => {
            lemma_sync_published(d, before, id, kp);
        },
        HubCall::PublishFromClient(id, kp) => {
            law_publishing_is_durable(d, before, id, kp, after);
        },
        HubCall::Write => {
            law_writing_keeps_step(d, before);
        },
        HubCall::Other => {
            assert forall|id: RoutingId| #[trigger]
                rows_for(written_all(e, after.unsaved).rows, id) == queue_of(after, id) by {
                assert(rows_for(written_all(d, before.unsaved).rows, id) == queue_of(before, id));
            }
        },
    }
}

/// A run of calls on a hub and its store, with the states between them.
pub open spec fn is_run(
    calls: Seq<HubCall>,
    hubs: Seq<HubModel>,
    disks: Seq<DiskModel>,
) -> bool {
    &&& hubs.len() == calls.len() + 1
    &&& disks.len() == calls.len() + 1
    &&& forall|i: int|
        #![trigger calls[i]]
        0 <= i < calls.len() ==> is_call(calls[i], hubs[i], disks[i], hubs[i + 1], disks[i + 1])
}

/// Whatever calls are made on a hub that was made from a store, the two stay in
/// step.
pub proof fn law_run_keeps_step(
    calls: Seq<HubCall>,
    hubs: Seq<HubModel>,
    disks: Seq<DiskModel>,
    rows: Seq<Row>,
    stored: StoredState,
)
    requires
        is_run(calls, hubs, disks),
        is_loaded(disks[0], rows, stored),
        hubs[0] == started(stored),
    ensures
        in_sync(disks.last(), hubs.last()),
    decreases calls.len(),
{
    if calls.len() == 0 {
        law_hub_starts_in_step(disks[0], rows, stored);
    } else {
        let c = calls.drop_last();
        let h = hubs.drop_last();
        let d = disks.drop_last();
        assert forall|i: int|
            #![trigger c[i]]
            0 <= i < c.len() implies is_call(c[i], h[i], d[i], h[i + 1], d[i + 1]) by {
            assert(c[i] == calls[i]);
        }
        law_run_keeps_step(c, h, d, rows, stored);
        let n = calls.len() as int;
        assert(calls[n - 1] == calls.last());
        lemma_call_in_step(calls[n - 1], hubs[n - 1], disks[n - 1], hubs[n], disks[n]);
    }
}

/// A restart loses nothing and brings nothing back: whatever calls were made on a
/// hub, once all is written down, a hub that is made from the store has the same
/// envelopes for every routing id in the same order, and the same key packages. It
/// has no connections and no subscribers.
pub proof fn law_restart(
    calls: Seq<HubCall>,
    hubs: Seq<HubModel>,
    disks: Seq<DiskModel>,
    rows: Seq<Row>,
    stored: StoredState,
    later_rows: Seq<Row>,
    later: StoredState,
    id: RoutingId,
)
    requires
        is_run(calls, hubs, disks),
        is_loaded(disks[0], rows, stored),
        hubs[0] == started(stored),
        hubs.last().unsaved.len() == 0,
        is_loaded(disks.last(), later_rows, later),
    ensures
        queue_of(started(later), id) == queue_of(hubs.last(), id),
        started(later).keypackages == hubs.last().keypackages,
        started(later).conns == Set::<ConnId>::empty(),
        started(later).subscribers == Map::<RoutingId, Set<ConnId>>::empty(),
        in_sync(disks.last(), started(later)),
{
    law_run_keeps_step(calls, hubs, disks, rows, stored);
    law_hub_starts_in_step(disks.last(), later_rows, later);
    let d = disks.last();
    assert(written_all(d, hubs.last().unsaved) == d);
    assert(written_all(d, started(later).unsaved) == d);
    assert(rows_for(d.rows, id) == queue_of(hubs.last(), id));
    assert(rows_for(d.rows, id) == queue_of(started(later), id));
}

/// The call may put an envelope into the queue of this routing id.
pub open spec fn delivers_to(call: HubCall, id: RoutingId) -> bool {
    match call {
        HubCall::Deliver(target, _, _) | HubCall::DeliverFromClient(target, _, _) => target == id,
        _ => false,
    }
}

proof fn lemma_call_leaves_empty(
    call: HubCall,
    before: HubModel,
    d: DiskModel,
    after: HubModel,
    e: DiskModel,
    id: RoutingId,
)
    requires
        is_call(call, before, d, after, e),
        !delivers_to(call, id),
        queue_of(before, id).len() == 0,
    ensures
        queue_of(after, id).len() == 0,
{
    if let HubCall::Subscribe(conn, ids) = call {
        if ids.contains(id) {
            law_drained_once(before, conn, ids, id);
        } else {
            law_other_queues_untouched(before, conn, ids, id);
        }
    }
}

/// What was handed out to a subscriber does not come again, before a restart or
/// after it: once a routing id was subscribed to, its queue is empty until another
/// envelope for it is delivered.
pub proof fn law_drained_stays_drained(
    calls: Seq<HubCall>,
    hubs: Seq<HubModel>,
    disks: Seq<DiskModel>,
    k: int,
    conn: ConnId,
    ids: Seq<RoutingId>,
    id: RoutingId,
)
    requires
        is_run(calls, hubs, disks),
        0 <= k < calls.len(),
        calls[k] == HubCall::Subscribe(conn, ids),
        ids.contains(id),
        forall|j: int| k < j < calls.len() ==> !delivers_to(#[trigger] calls[j], id),
    ensures
        queue_of(hubs.last(), id) == Seq::<Seq<u8>>::empty(),
    decreases calls.len(),
{
    let n = calls.len() as int;
    assert(is_call(calls[n - 1], hubs[n - 1], disks[n - 1], hubs[n], disks[n]));
    if k == n - 1 {
        law_drained_once(hubs[k], conn, ids, id);
        assert(queue_of(hubs.last(), id) =~= Seq::<Seq<u8>>::empty());
    } else {
        let c = calls.drop_last();
        let h = hubs.drop_last();
        let d = disks.drop_last();
        assert forall|i: int|
            #![trigger c[i]]
            0 <= i < c.len() implies is_call(c[i], h[i], d[i], h[i + 1], d[i + 1]) by {
            assert(c[i] == calls[i]);
        }
        assert forall|j: int| k < j < c.len() implies !delivers_to(#[trigger] c[j], id) by {
            assert(c[j] == calls[j]);
        }
        assert(c[k] == calls[k]);
        law_drained_stays_drained(c, h, d, k, conn, ids, id);
        lemma_call_leaves_empty(calls[n - 1], hubs[n - 1], disks[n - 1], hubs[n], disks[n], id);
        assert(queue_of(hubs.last(), id) =~= Seq::<Seq<u8>>::empty());
    }
}

/// Each day more that envelopes are kept moves the limit back by the milliseconds
/// of a day, and it goes on with the clock.
pub proof fn law_age_is_in_days(now_ms: i64, later_ms: i64, age_days: u32, more: u32)
    requires
        more == age_days + 1,
    ensures
        oldest_kept(now_ms, 0) == now_ms,
        oldest_kept(now_ms, age_days) - oldest_kept(now_ms, more) == 24 * 60 * 60 * 1000,
        oldest_kept(later_ms, age_days) - oldest_kept(now_ms, age_days) == later_ms - now_ms,
{
}

/// Rows are taken only if each of them names a routing id of sixteen bytes.
pub proof fn law_every_row_counts(rows: Seq<Row>, row: Row)
    ensures
        rows_ok(Seq::empty()),
        rows_ok(rows.push(row)) <==> rows_ok(rows) && row.0@.len() == 16,
{
    let more = rows.push(row);
    assert(more[rows.len() as int] == row);
    if rows_ok(more) {
        assert forall|i: int| 0 <= i < rows.len() implies (#[trigger] rows[i]).0@.len() == 16 by {
            assert(more[i] == rows[i]);
        }
    }
}

} // verus!
