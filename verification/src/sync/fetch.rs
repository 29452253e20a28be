//! From a chunk of messages to their content: which rows are still to be
//! fetched, what the server's answers make of them, and how one message is
//! read when the user opens it.

use vstd::prelude::*;

use crate::error::{CoreError, ErrorView};
use crate::lists::{lemma_pushed, push_new, with_all_new};
use crate::mime::{readable_plan, supported_plan, MimePlan};
use crate::sync::batches::PlannedBodyFetch;
use crate::sync::bodies::{
    content_fault, decode_selective_content, discovered_plan, is_background_row, is_content_of,
    is_current_background_row, is_uid, plan_for, CurrentBodyRow, DecodedSelectiveContent,
    DiscoveredPlan, FetchedText, LoadedRow,
};
use crate::sync::folders::same_validity;
use crate::sync::pool::{chunk_is_current, BodyChunk};
use crate::text::{concat2, decimal, u64_text};

verus! {

// ---------------------------------------------------------------------------
// The folder of a chunk
// ---------------------------------------------------------------------------

/// What a worker does with a chunk that it has taken.
#[derive(Debug, Clone, Copy, PartialEq, Eq, Structural)]
pub enum ChunkStart {
    /// The folder has changed since the chunk was made: its messages are given
    /// up for the rest of the drain.
    GiveUp,
    /// The folder has to be selected first.
    Select,
    Ready,
}

/// `current` is the folder's name and UIDVALIDITY now, `selected` those of the
/// folder that is selected on the connection.
pub fn start_chunk(
    chunk: &BodyChunk,
    current: Option<(&str, Option<i64>)>,
    selected: Option<(&str, Option<i64>)>,
) -> (r: ChunkStart)
    ensures
        r == (if !(current matches Some((name, validity)) && name@ == chunk.folder_name@ && validity
            == chunk.uid_validity) {
            ChunkStart::GiveUp
        } else if selected matches Some((name, validity)) && name@ == chunk.folder_name@ && validity
            == chunk.uid_validity {
            ChunkStart::Ready
        } else {
            ChunkStart::Select
        }),
        current is None ==> r is GiveUp,
        current matches Some((name, validity)) ==> (validity != chunk.uid_validity || name@
            != chunk.folder_name@ ==> r is GiveUp),
        selected is None ==> !(r is Ready),
        r is Ready ==> selected is Some && (selected->0).1 == chunk.uid_validity,
{
    if !chunk_is_current(chunk, current) {
        ChunkStart::GiveUp
    } else if chunk_is_current(chunk, selected) {
        ChunkStart::Ready
    } else {
        ChunkStart::Select
    }
}

/// After the folder was selected: its UIDs must still be those of the chunk.
pub fn after_select(chunk: &BodyChunk, uid_validity: Option<i64>) -> (r: ChunkStart)
    ensures
        r == (if uid_validity == chunk.uid_validity {
            ChunkStart::Ready
        } else {
            ChunkStart::GiveUp
        }),
        uid_validity == chunk.uid_validity <==> r is Ready,
        uid_validity != chunk.uid_validity <==> r is GiveUp,
{
    if same_validity(uid_validity, chunk.uid_validity) {
        ChunkStart::Ready
    } else {
        ChunkStart::GiveUp
    }
}

pub open spec fn message_ids(items: Seq<(i64, i64)>) -> Seq<i64> {
    items.map_values(|i: (i64, i64)| i.0)
}

/// Gives the messages of a chunk up for the rest of the drain, so that it ends.
pub fn give_up(skip: &mut Vec<i64>, chunk: &BodyChunk)
    ensures
        final(skip)@ == with_all_new(old(skip)@, message_ids(chunk.items@)),
{
    let ghost before = skip@;
    let ghost ids = message_ids(chunk.items@);
    let mut i: usize = 0;
    while i < chunk.items.len()
        invariant
            i <= chunk.items@.len(),
            ids == message_ids(chunk.items@),
            skip@ == with_all_new(before, ids.take(i as int)),
        decreases chunk.items@.len() - i,
    {
        proof {
            assert(ids.take(i + 1).drop_last() =~= ids.take(i as int));
        }
        push_new(skip, chunk.items[i].0);
        i = i + 1;
    }
    proof {
        assert(ids.take(ids.len() as int) =~= ids);
    }
}

// ---------------------------------------------------------------------------
// The rows of a chunk
// ---------------------------------------------------------------------------

/// A message of a chunk as the store has it now.
#[derive(Debug)]
pub struct StoredRow {
    pub row: Option<CurrentBodyRow>,
    pub plan: Option<MimePlan>,
}

/// The row is there, in its place, and nobody has claimed its body.
pub open spec fn is_open_row(row: Option<CurrentBodyRow>, folder_id: i64, uid: i64) -> bool {
    row matches Some(r) && is_background_row(r, folder_id, uid)
}

fn open_row(row: &Option<CurrentBodyRow>, folder_id: i64, uid: i64) -> (r: bool)
    ensures
        r == is_open_row(*row, folder_id, uid),
{
    match row {
        Some(r) => is_current_background_row(r, folder_id, uid),
        None => false,
    }
}

/// The messages of a chunk that are still to be fetched, with the plans that
/// can be read.
pub open spec fn open_rows(
    folder_id: i64,
    items: Seq<(i64, i64)>,
    stored: Seq<StoredRow>,
) -> Seq<LoadedRow>
    decreases items.len(),
{
    if items.len() == 0 {
        Seq::empty()
    } else {
        let rest = open_rows(folder_id, items.drop_last(), stored.drop_last());
        let (message_id, uid) = items.last();
        if is_open_row(stored.last().row, folder_id, uid) {
            rest.push(LoadedRow { message_id, uid, plan: readable_plan(stored.last().plan) })
        } else {
            rest
        }
    }
}

/// A message of a chunk is fetched exactly where it is still there, in that folder
/// under that UID, and nobody has fetched or claimed its body meanwhile.
pub proof fn only_unclaimed_messages_are_loaded(
    folder_id: i64,
    items: Seq<(i64, i64)>,
    stored: Seq<StoredRow>,
    message_id: i64,
    uid: i64,
)
    requires
        stored.len() == items.len(),
    ensures
        (exists|k: int|
            0 <= k < open_rows(folder_id, items, stored).len() && (#[trigger] open_rows(
                folder_id,
                items,
                stored,
            )[k]).message_id == message_id && open_rows(folder_id, items, stored)[k].uid == uid)
            <==> exists|i: int|
            0 <= i < items.len() && #[trigger] items[i] == (message_id, uid) && is_free(
                stored[i].row,
                folder_id,
                uid,
            ),
        open_rows(folder_id, items, stored).len() <= items.len(),
    decreases items.len(),
{
    if items.len() > 0 {
        let n = items.len() - 1;
        let front = items.drop_last();
        let rows = stored.drop_last();
        only_unclaimed_messages_are_loaded(folder_id, front, rows, message_id, uid);
        let rest = open_rows(folder_id, front, rows);
        let all = open_rows(folder_id, items, stored);
        assert(forall|i: int| 0 <= i < n ==> front[i] == #[trigger] items[i]);
        assert(forall|i: int| 0 <= i < n ==> rows[i] == #[trigger] stored[i]);
        assert(forall|k: int| 0 <= k < rest.len() ==> rest[k] == #[trigger] all[k]);
        assert(items[n] == items.last() && stored[n] == stored.last());
        if exists|i: int|
            0 <= i < front.len() && #[trigger] front[i] == (message_id, uid) && is_free(
                rows[i].row,
                folder_id,
                uid,
            ) {
            let i = choose|i: int|
                0 <= i < front.len() && #[trigger] front[i] == (message_id, uid) && is_free(
                    rows[i].row,
                    folder_id,
                    uid,
                );
            assert(items[i] == (message_id, uid) && stored[i] == rows[i]);
            let k = choose|k: int|
                0 <= k < rest.len() && (#[trigger] rest[k]).message_id == message_id
                    && rest[k].uid == uid;
            assert(all[k].message_id == message_id);
        } else {
            if exists|k: int|
                0 <= k < all.len() && (#[trigger] all[k]).message_id == message_id && all[k].uid
                    == uid {
                let k = choose|k: int|
                    0 <= k < all.len() && (#[trigger] all[k]).message_id == message_id
                        && all[k].uid == uid;
                if k < rest.len() {
                    assert(rest[k].message_id == message_id);
                }
                assert(items[n] == (message_id, uid));
            }
            if items[n] == (message_id, uid) && is_free(stored[n].row, folder_id, uid) {
                assert(all[all.len() - 1].message_id == message_id);
            }
            assert(forall|i: int|
                0 <= i < n ==> !(#[trigger] items[i] == (message_id, uid) && is_free(
                    stored[i].row,
                    folder_id,
                    uid,
                ))) by {
                assert forall|i: int| 0 <= i < n implies !(#[trigger] items[i] == (message_id, uid)
                    && is_free(stored[i].row, folder_id, uid)) by {
                    assert(front[i] == items[i] && rows[i] == stored[i]);
                }
            }
        }
    }
}

/// The row is there, at this place on the server, and its body is nobody's yet.
pub open spec fn is_free(row: Option<CurrentBodyRow>, folder_id: i64, uid: i64) -> bool {
    row is Some && row->0.folder_id == Some(folder_id) && row->0.uid == Some(uid)
        && row->0.body_state@ == "none"@
}

/// A priority reader, move, expunge, or UID reset may have changed a message
/// after the background queue was built. `stored` has one row for each item.
pub fn load_rows(folder_id: i64, items: &Vec<(i64, i64)>, stored: Vec<StoredRow>) -> (r: Vec<
    LoadedRow,
>)
    requires
        stored@.len() == items@.len(),
    ensures
        r@ == open_rows(folder_id, items@, stored@),
{
    let ghost all = stored@;
    let mut rest: Vec<StoredRow> = stored;
    let mut out: Vec<LoadedRow> = Vec::new();
    let mut i: usize = 0;
    proof {
        assert(all.skip(0) =~= all);
        assert(items@.take(0) =~= Seq::empty());
    }
    while i < items.len()
        invariant
            i <= items@.len(),
            all.len() == items@.len(),
            rest@ == all.skip(i as int),
            out@ == open_rows(folder_id, items@.take(i as int), all.take(i as int)),
        decreases items@.len() - i,
    {
        proof {
            assert(items@.take(i + 1).drop_last() =~= items@.take(i as int));
            assert(all.take(i + 1).drop_last() =~= all.take(i as int));
        }
        let now: StoredRow = rest.remove(0);
        proof {
            assert(now == all[i as int]);
            assert(rest@ =~= all.skip(i + 1));
        }
        let (message_id, uid): (i64, i64) = items[i];
        if open_row(&now.row, folder_id, uid) {
            out.push(LoadedRow { message_id, uid, plan: supported_plan(now.plan) });
        }
        i = i + 1;
    }
    proof {
        assert(items@.take(items@.len() as int) =~= items@);
        assert(all.take(all.len() as int) =~= all);
    }
    out
}

/// What a row is after plans were discovered: one without a plan takes the one
/// for its UID.
pub open spec fn is_supplied(before: LoadedRow, found: Seq<DiscoveredPlan>, after: LoadedRow) -> bool {
    &&& after.message_id == before.message_id
    &&& after.uid == before.uid
    &&& before.plan is Some ==> after.plan == before.plan
    &&& before.plan is None ==> match discovered_for(before, found) {
        Some(p) => after.plan matches Some(q) && q.same_as(p),
        None => after.plan is None,
    }
}

/// The plan that was discovered for a row that had none.
pub open spec fn discovered_for(row: LoadedRow, found: Seq<DiscoveredPlan>) -> Option<MimePlan> {
    if row.plan is None && is_uid(row.uid) {
        plan_for(found, row.uid as u32)
    } else {
        None
    }
}

/// The positions of the rows whose plan was discovered.
pub open spec fn supplied_rows(rows: Seq<LoadedRow>, found: Seq<DiscoveredPlan>) -> Seq<usize>
    decreases rows.len(),
{
    if rows.len() == 0 {
        Seq::empty()
    } else {
        let rest = supplied_rows(rows.drop_last(), found);
        if discovered_for(rows.last(), found) is Some {
            rest.push((rows.len() - 1) as usize)
        } else {
            rest
        }
    }
}

/// A row that has a plan keeps it; one without takes what was discovered for its
/// UID, and stays without where nothing was. No row changes its message.
pub proof fn plans_reach_the_rows_without_one(
    before: LoadedRow,
    found: Seq<DiscoveredPlan>,
    after: LoadedRow,
)
    requires
        is_supplied(before, found, after),
    ensures
        after.message_id == before.message_id && after.uid == before.uid,
        before.plan is Some ==> after.plan == before.plan,
        before.plan is None && 0 <= before.uid <= u32::MAX ==> match plan_for(
            found,
            before.uid as u32,
        ) {
            Some(p) => after.plan is Some && after.plan->0.text_sections@ == p.text_sections@
                && after.plan->0.attachments@ == p.attachments@ && after.plan->0.version
                == p.version,
            None => after.plan is None,
        },
{
}

/// Exactly the plans that are new to their rows are stored.
pub proof fn only_new_plans_are_stored(rows: Seq<LoadedRow>, found: Seq<DiscoveredPlan>)
    requires
        rows.len() <= usize::MAX,
    ensures
        forall|i: usize| #[trigger]
            supplied_rows(rows, found).contains(i) <==> i < rows.len() && rows[i as int].plan
                is None && 0 <= rows[i as int].uid <= u32::MAX && plan_for(
                found,
                rows[i as int].uid as u32,
            ) is Some,
    decreases rows.len(),
{
    if rows.len() > 0 {
        let front = rows.drop_last();
        only_new_plans_are_stored(front, found);
        lemma_pushed(supplied_rows(front, found), (rows.len() - 1) as usize);
    }
}

/// Gives every row without a plan the one that was discovered for it, and says
/// which rows have a new plan to be stored.
pub fn take_discovered(rows: &mut Vec<LoadedRow>, found: &Vec<DiscoveredPlan>) -> (r: Vec<usize>)
    ensures
        final(rows)@.len() == old(rows)@.len(),
        forall|i: int|
            0 <= i < old(rows)@.len() ==> is_supplied(
                old(rows)@[i],
                found@,
                #[trigger] final(rows)@[i],
            ),
        r@ == supplied_rows(old(rows)@, found@),
{
    let ghost before = rows@;
    let mut out: Vec<usize> = Vec::new();
    let mut i: usize = 0;
    while i < rows.len()
        invariant
            i <= rows@.len(),
            rows@.len() == before.len(),
            forall|j: int| 0 <= j < i ==> is_supplied(before[j], found@, #[trigger] rows@[j]),
            forall|j: int| i <= j < rows@.len() ==> #[trigger] rows@[j] == before[j],
            out@ == supplied_rows(before.take(i as int), found@),
        decreases rows@.len() - i,
    {
        proof {
            assert(before.take(i + 1).drop_last() =~= before.take(i as int));
            assert(rows@[i as int] == before[i as int]);
        }
        if rows[i].plan.is_none() {
            if let Some(p) = discovered_plan(found, rows[i].uid) {
                let row: LoadedRow = LoadedRow {
                    message_id: rows[i].message_id,
                    uid: rows[i].uid,
                    plan: Some(p.copy()),
                };
                rows.set(i, row);
                out.push(i);
            }
        }
        i = i + 1;
    }
    proof {
        assert(before.take(before.len() as int) =~= before);
    }
    out
}

/// The rows that are still to be fetched, in order.
pub open spec fn still_open(
    folder_id: i64,
    rows: Seq<LoadedRow>,
    now: Seq<Option<CurrentBodyRow>>,
) -> Seq<LoadedRow>
    decreases rows.len(),
{
    if rows.len() == 0 {
        Seq::empty()
    } else {
        let rest = still_open(folder_id, rows.drop_last(), now.drop_last());
        if is_open_row(now.last(), folder_id, rows.last().uid) {
            rest.push(rows.last())
        } else {
            rest
        }
    }
}

/// Checking again drops exactly the rows that have moved or were claimed
/// meanwhile; where none was, all stay.
pub proof fn only_free_rows_stay(
    folder_id: i64,
    rows: Seq<LoadedRow>,
    now: Seq<Option<CurrentBodyRow>>,
)
    requires
        now.len() == rows.len(),
    ensures
        forall|r: LoadedRow| #[trigger]
            still_open(folder_id, rows, now).contains(r) <==> exists|i: int|
                0 <= i < rows.len() && #[trigger] rows[i] == r && is_free(
                    now[i],
                    folder_id,
                    rows[i].uid,
                ),
        (forall|i: int|
            0 <= i < rows.len() ==> is_free(#[trigger] now[i], folder_id, rows[i].uid))
            ==> still_open(folder_id, rows, now) == rows,
    decreases rows.len(),
{
    if rows.len() > 0 {
        let n = rows.len() - 1;
        let front = rows.drop_last();
        let past = now.drop_last();
        only_free_rows_stay(folder_id, front, past);
        let rest = still_open(folder_id, front, past);
        let all = still_open(folder_id, rows, now);
        lemma_pushed(rest, rows.last());
        assert(forall|i: int| 0 <= i < n ==> front[i] == #[trigger] rows[i]);
        assert(forall|i: int| 0 <= i < n ==> past[i] == #[trigger] now[i]);
        assert(rows[n] == rows.last() && now[n] == now.last());
        assert forall|r: LoadedRow| #[trigger] all.contains(r) <==> exists|i: int|
            0 <= i < rows.len() && #[trigger] rows[i] == r && is_free(
                now[i],
                folder_id,
                rows[i].uid,
            ) by {
            if rest.contains(r) {
                let i = choose|i: int|
                    0 <= i < front.len() && #[trigger] front[i] == r && is_free(
                        past[i],
                        folder_id,
                        front[i].uid,
                    );
                assert(rows[i] == r && now[i] == past[i]);
            }
            if exists|i: int|
                0 <= i < rows.len() && #[trigger] rows[i] == r && is_free(
                    now[i],
                    folder_id,
                    rows[i].uid,
                ) {
                let i = choose|i: int|
                    0 <= i < rows.len() && #[trigger] rows[i] == r && is_free(
                        now[i],
                        folder_id,
                        rows[i].uid,
                    );
                if i < n {
                    assert(front[i] == r && past[i] == now[i]);
                }
            }
        }
        if forall|i: int|
            0 <= i < rows.len() ==> is_free(#[trigger] now[i], folder_id, rows[i].uid) {
            assert forall|i: int| 0 <= i < front.len() implies is_free(
                #[trigger] past[i],
                folder_id,
                front[i].uid,
            ) by {
                assert(is_free(now[i], folder_id, rows[i].uid));
            }
            assert(is_free(now[n], folder_id, rows[n].uid));
            assert(all =~= rows);
        }
    }
}

/// Plan discovery is a network round trip. Every row is checked again
/// afterward so moved, expunged, reset, or priority-claimed messages are silent
/// skips.
pub fn recheck_rows(
    folder_id: i64,
    rows: Vec<LoadedRow>,
    now: &Vec<Option<CurrentBodyRow>>,
) -> (r: Vec<LoadedRow>)
    requires
        now@.len() == rows@.len(),
    ensures
        r@ == still_open(folder_id, rows@, now@),
{
    let ghost all = rows@;
    let mut rest: Vec<LoadedRow> = rows;
    let mut out: Vec<LoadedRow> = Vec::new();
    let mut i: usize = 0;
    proof {
        assert(all.skip(0) =~= all);
    }
    while i < now.len()
        invariant
            i <= now@.len(),
            all.len() == now@.len(),
            rest@ == all.skip(i as int),
            out@ == still_open(folder_id, all.take(i as int), now@.take(i as int)),
        decreases now@.len() - i,
    {
        proof {
            assert(now@.take(i + 1).drop_last() =~= now@.take(i as int));
            assert(all.take(i + 1).drop_last() =~= all.take(i as int));
        }
        let row: LoadedRow = rest.remove(0);
        proof {
            assert(row == all[i as int]);
            assert(rest@ =~= all.skip(i + 1));
        }
        if open_row(&now[i], folder_id, row.uid) {
            out.push(row);
        }
        i = i + 1;
    }
    proof {
        assert(now@.take(now@.len() as int) =~= now@);
        assert(all.take(all.len() as int) =~= all);
    }
    out
}

/// The messages of a batch that are still to be fetched, in order.
pub open spec fn still_wanted(
    folder_id: i64,
    batch: Seq<PlannedBodyFetch>,
    now: Seq<Option<CurrentBodyRow>>,
) -> Seq<PlannedBodyFetch>
    decreases batch.len(),
{
    if batch.len() == 0 {
        Seq::empty()
    } else {
        let rest = still_wanted(folder_id, batch.drop_last(), now.drop_last());
        if is_open_row(now.last(), folder_id, batch.last().uid as i64) {
            rest.push(batch.last())
        } else {
            rest
        }
    }
}

/// The same of the messages of a batch: exactly those are dropped that have moved
/// or were claimed meanwhile.
pub proof fn only_free_messages_stay(
    folder_id: i64,
    batch: Seq<PlannedBodyFetch>,
    now: Seq<Option<CurrentBodyRow>>,
)
    requires
        now.len() == batch.len(),
    ensures
        forall|p: PlannedBodyFetch| #[trigger]
            still_wanted(folder_id, batch, now).contains(p) <==> exists|i: int|
                0 <= i < batch.len() && #[trigger] batch[i] == p && is_free(
                    now[i],
                    folder_id,
                    batch[i].uid as i64,
                ),
        (forall|i: int|
            0 <= i < batch.len() ==> is_free(#[trigger] now[i], folder_id, batch[i].uid as i64))
            ==> still_wanted(folder_id, batch, now) == batch,
    decreases batch.len(),
{
    if batch.len() > 0 {
        let n = batch.len() - 1;
        let front = batch.drop_last();
        let past = now.drop_last();
        only_free_messages_stay(folder_id, front, past);
        let rest = still_wanted(folder_id, front, past);
        let all = still_wanted(folder_id, batch, now);
        lemma_pushed(rest, batch.last());
        assert(forall|i: int| 0 <= i < n ==> front[i] == #[trigger] batch[i]);
        assert(forall|i: int| 0 <= i < n ==> past[i] == #[trigger] now[i]);
        assert(batch[n] == batch.last() && now[n] == now.last());
        assert forall|p: PlannedBodyFetch| #[trigger] all.contains(p) <==> exists|i: int|
            0 <= i < batch.len() && #[trigger] batch[i] == p && is_free(
                now[i],
                folder_id,
                batch[i].uid as i64,
            ) by {
            if rest.contains(p) {
                let i = choose|i: int|
                    0 <= i < front.len() && #[trigger] front[i] == p && is_free(
                        past[i],
                        folder_id,
                        front[i].uid as i64,
                    );
                assert(batch[i] == p && now[i] == past[i]);
            }
            if exists|i: int|
                0 <= i < batch.len() && #[trigger] batch[i] == p && is_free(
                    now[i],
                    folder_id,
                    batch[i].uid as i64,
                ) {
                let i = choose|i: int|
                    0 <= i < batch.len() && #[trigger] batch[i] == p && is_free(
                        now[i],
                        folder_id,
                        batch[i].uid as i64,
                    );
                if i < n {
                    assert(front[i] == p && past[i] == now[i]);
                }
            }
        }
        if forall|i: int|
            0 <= i < batch.len() ==> is_free(#[trigger] now[i], folder_id, batch[i].uid as i64) {
            assert forall|i: int| 0 <= i < front.len() implies is_free(
                #[trigger] past[i],
                folder_id,
                front[i].uid as i64,
            ) by {
                assert(is_free(now[i], folder_id, batch[i].uid as i64));
            }
            assert(is_free(now[n], folder_id, batch[n].uid as i64));
            assert(all =~= batch);
        }
    }
}

/// Drop rows whose remote location or ownership changed while MIME plans were
/// being loaded. Missing rows are normal during concurrent expunge cleanup.
pub fn revalidate_background_fetches(
    folder_id: i64,
    batch: Vec<PlannedBodyFetch>,
    now: &Vec<Option<CurrentBodyRow>>,
) -> (r: Vec<PlannedBodyFetch>)
    requires
        now@.len() == batch@.len(),
    ensures
        r@ == still_wanted(folder_id, batch@, now@),
{
    let ghost all = batch@;
    let mut rest: Vec<PlannedBodyFetch> = batch;
    let mut out: Vec<PlannedBodyFetch> = Vec::new();
    let mut i: usize = 0;
    proof {
        assert(all.skip(0) =~= all);
    }
    while i < now.len()
        invariant
            i <= now@.len(),
            all.len() == now@.len(),
            rest@ == all.skip(i as int),
            out@ == still_wanted(folder_id, all.take(i as int), now@.take(i as int)),
        decreases now@.len() - i,
    {
        proof {
            assert(now@.take(i + 1).drop_last() =~= now@.take(i as int));
            assert(all.take(i + 1).drop_last() =~= all.take(i as int));
        }
        let item: PlannedBodyFetch = rest.remove(0);
        proof {
            assert(item == all[i as int]);
            assert(rest@ =~= all.skip(i + 1));
        }
        if open_row(&now[i], folder_id, item.uid as i64) {
            out.push(item);
        }
        i = i + 1;
    }
    proof {
        assert(now@.take(now@.len() as int) =~= now@);
        assert(all.take(all.len() as int) =~= all);
    }
    out
}

// ---------------------------------------------------------------------------
// The answers to a batch
// ---------------------------------------------------------------------------

/// The sections that the server sent for a UID.
#[derive(Debug)]
pub struct FetchedMessage {
    pub uid: u32,
    pub sections: Vec<FetchedText>,
}

/// What was sent for a UID; where it was sent twice, the last.
pub open spec fn answer_for(fetched: Seq<FetchedMessage>, uid: u32) -> Option<Seq<FetchedText>>
    decreases fetched.len(),
{
    if fetched.len() == 0 {
        None
    } else if fetched.last().uid == uid {
        Some(fetched.last().sections@)
    } else {
        answer_for(fetched.drop_last(), uid)
    }
}

/// What was sent for the message at a position of a batch. An answer serves
/// one message only.
pub open spec fn served(
    batch: Seq<PlannedBodyFetch>,
    fetched: Seq<FetchedMessage>,
    i: int,
) -> Option<Seq<FetchedText>> {
    if batch_uids(batch).take(i).contains(batch[i].uid) {
        None
    } else {
        answer_for(fetched, batch[i].uid)
    }
}

pub open spec fn batch_uids(batch: Seq<PlannedBodyFetch>) -> Seq<u32> {
    batch.map_values(|p: PlannedBodyFetch| p.uid)
}

/// What is wrong with the message at a position of a batch, if anything.
pub open spec fn batch_fault(
    batch: Seq<PlannedBodyFetch>,
    fetched: Seq<FetchedMessage>,
    i: int,
) -> Option<ErrorView> {
    match served(batch, fetched, i) {
        None => Some(
            ErrorView::Imap(
                "server omitted selective content for UID "@ + decimal(batch[i].uid as nat),
            ),
        ),
        Some(sections) => content_fault(batch[i], sections),
    }
}

/// The positions among the first `n` whose content can be read.
pub open spec fn readable(
    batch: Seq<PlannedBodyFetch>,
    fetched: Seq<FetchedMessage>,
    n: int,
) -> Seq<int>
    decreases n,
{
    if n <= 0 {
        Seq::empty()
    } else if batch_fault(batch, fetched, n - 1) is None {
        readable(batch, fetched, n - 1).push(n - 1)
    } else {
        readable(batch, fetched, n - 1)
    }
}

/// The messages among the first `n` that cannot be read, with what is wrong.
pub open spec fn faults(
    batch: Seq<PlannedBodyFetch>,
    fetched: Seq<FetchedMessage>,
    n: int,
) -> Seq<(i64, ErrorView)>
    decreases n,
{
    if n <= 0 {
        Seq::empty()
    } else {
        match batch_fault(batch, fetched, n - 1) {
            Some(e) => faults(batch, fetched, n - 1).push((batch[n - 1].message_id, e)),
            None => faults(batch, fetched, n - 1),
        }
    }
}

pub open spec fn fault_views(v: Seq<(i64, CoreError)>) -> Seq<(i64, ErrorView)> {
    v.map_values(|f: (i64, CoreError)| (f.0, f.1@))
}

fn find_answer(fetched: &Vec<FetchedMessage>, uid: u32) -> (r: Option<usize>)
    ensures
        match r {
            Some(k) => k < fetched@.len() && answer_for(fetched@, uid) == Some(
                fetched@[k as int].sections@,
            ),
            None => answer_for(fetched@, uid) is None,
        },
{
    let mut k: usize = fetched.len();
    proof {
        assert(fetched@.take(k as int) =~= fetched@);
    }
    while k > 0
        invariant
            k <= fetched@.len(),
            answer_for(fetched@, uid) == answer_for(fetched@.take(k as int), uid),
        decreases k,
    {
        proof {
            assert(fetched@.take(k as int).drop_last() =~= fetched@.take(k - 1));
        }
        if fetched[k - 1].uid == uid {
            return Some(k - 1);
        }
        k = k - 1;
    }
    None
}

fn contains_uid(uids: &Vec<u32>, uid: u32) -> (r: bool)
    ensures
        r == uids@.contains(uid),
{
    let mut i: usize = 0;
    while i < uids.len()
        invariant
            i <= uids@.len(),
            forall|j: int| 0 <= j < i ==> uids@[j] != uid,
        decreases uids@.len() - i,
    {
        if uids[i] == uid {
            return true;
        }
        i = i + 1;
    }
    false
}

/// What the answers to a batch come to.
#[derive(Debug)]
pub struct DecodedBatch {
    pub contents: Vec<DecodedSelectiveContent>,
    pub failures: Vec<(i64, CoreError)>,
}

/// The content of every message that can be read, and the others with what is
/// wrong, both in the order of the batch. One unreadable message does not hold
/// up its siblings.
pub fn decode_batch(batch: Vec<PlannedBodyFetch>, fetched: &Vec<FetchedMessage>) -> (r:
    DecodedBatch)
    ensures
        r.contents@.len() == readable(batch@, fetched@, batch@.len() as int).len(),
        forall|k: int|
            0 <= k < r.contents@.len() ==> is_content_at(
                batch@,
                fetched@,
                readable(batch@, fetched@, batch@.len() as int)[k],
                #[trigger] r.contents@[k],
            ),
        fault_views(r.failures@) == faults(batch@, fetched@, batch@.len() as int),
{
    let ghost all = batch@;
    let ghost uids = batch_uids(batch@);
    let mut rest: Vec<PlannedBodyFetch> = batch;
    let mut taken: Vec<u32> = Vec::new();
    let mut contents: Vec<DecodedSelectiveContent> = Vec::new();
    let mut failures: Vec<(i64, CoreError)> = Vec::new();
    proof {
        assert(all.skip(0) =~= all);
        assert(uids.take(0) =~= Seq::empty());
        assert(fault_views(failures@) =~= Seq::empty());
    }
    while rest.len() > 0
        invariant
            rest@.len() <= all.len(),
            uids == batch_uids(all),
            rest@ == all.skip(all.len() - rest@.len()),
            taken@ == uids.take(all.len() - rest@.len()),
            contents@.len() == readable(all, fetched@, all.len() - rest@.len()).len(),
            forall|k: int|
                0 <= k < contents@.len() ==> is_content_at(
                    all,
                    fetched@,
                    readable(all, fetched@, all.len() - rest@.len())[k],
                    #[trigger] contents@[k],
                ),
            fault_views(failures@) == faults(all, fetched@, all.len() - rest@.len()),
        decreases rest@.len(),
    {
        let ghost n = all.len() - rest@.len();
        let ghost read = contents@;
        let ghost failed = failures@;
        let item: PlannedBodyFetch = rest.remove(0);
        proof {
            assert(item == all[n]);
            assert(rest@ =~= all.skip(n + 1));
            assert(uids.take(n + 1) =~= uids.take(n).push(item.uid));
        }
        let message_id: i64 = item.message_id;
        let uid: u32 = item.uid;
        let answer: Option<usize> = if contains_uid(&taken, uid) {
            None
        } else {
            find_answer(fetched, uid)
        };
        let outcome: Result<DecodedSelectiveContent, CoreError> = match answer {
            Some(k) => decode_selective_content(item, &fetched[k].sections),
            None => {
                let number: String = u64_text(uid as u64);
                Err(
                    CoreError::Imap(
                        concat2("server omitted selective content for UID ", number.as_str()),
                    ),
                )
            },
        };
        taken.push(uid);
        match outcome {
            Ok(content) => {
                contents.push(content);
                proof {
                    let before = readable(all, fetched@, n);
                    assert(readable(all, fetched@, n + 1) == before.push(n));
                    assert forall|k: int| 0 <= k < contents@.len() implies is_content_at(
                        all,
                        fetched@,
                        readable(all, fetched@, n + 1)[k],
                        #[trigger] contents@[k],
                    ) by {
                        if k < read.len() {
                            assert(contents@[k] == read[k]);
                        }
                    }
                }
            },
            Err(e) => {
                failures.push((message_id, e));
                proof {
                    assert(fault_views(failures@) =~= fault_views(failed).push((message_id, e@)));
                }
            },
        }
    }
    DecodedBatch { contents, failures }
}

/// The content is that of the message at a position of a batch.
pub open spec fn is_content_at(
    batch: Seq<PlannedBodyFetch>,
    fetched: Seq<FetchedMessage>,
    i: int,
    c: DecodedSelectiveContent,
) -> bool {
    served(batch, fetched, i) matches Some(sections) && is_content_of(batch[i], sections, c)
}

/// A message gets what the server sent last under its own UID, and nothing that
/// was sent under another: where nothing was sent under it there is a fault, and
/// what was sent serves the first message with that UID only.
pub proof fn answers_go_to_their_messages(
    batch: Seq<PlannedBodyFetch>,
    fetched: Seq<FetchedMessage>,
    i: int,
    k: int,
)
    requires
        0 <= i < batch.len(),
        0 <= k < fetched.len(),
        fetched[k].uid == batch[i].uid,
        forall|l: int| k < l < fetched.len() ==> (#[trigger] fetched[l]).uid != batch[i].uid,
    ensures
        (forall|j: int| 0 <= j < i ==> (#[trigger] batch[j]).uid != batch[i].uid) ==> served(
            batch,
            fetched,
            i,
        ) == Some(fetched[k].sections@),
        (exists|j: int| 0 <= j < i && (#[trigger] batch[j]).uid == batch[i].uid) ==> served(
            batch,
            fetched,
            i,
        ) is None && batch_fault(batch, fetched, i) is Some,
{
    lemma_answer_is(fetched, batch[i].uid, k);
    let before = batch_uids(batch).take(i);
    if before.contains(batch[i].uid) {
        let j = before.index_of(batch[i].uid);
        assert(batch[j].uid == batch[i].uid);
    }
    if exists|j: int| 0 <= j < i && (#[trigger] batch[j]).uid == batch[i].uid {
        let j = choose|j: int| 0 <= j < i && (#[trigger] batch[j]).uid == batch[i].uid;
        assert(before[j] == batch[i].uid);
    }
}

/// A message under whose UID nothing was sent is a failure.
pub proof fn unanswered_messages_fail(
    batch: Seq<PlannedBodyFetch>,
    fetched: Seq<FetchedMessage>,
    i: int,
)
    requires
        0 <= i < batch.len(),
        forall|l: int| 0 <= l < fetched.len() ==> (#[trigger] fetched[l]).uid != batch[i].uid,
    ensures
        batch_fault(batch, fetched, i) is Some,
        !readable(batch, fetched, batch.len() as int).contains(i),
{
    lemma_no_answer(fetched, batch[i].uid);
    every_message_is_settled(batch, fetched, batch.len() as int);
    assert(batch_fault(batch, fetched, i) is Some);
}

proof fn lemma_answer_is(fetched: Seq<FetchedMessage>, uid: u32, k: int)
    requires
        0 <= k < fetched.len(),
        fetched[k].uid == uid,
        forall|l: int| k < l < fetched.len() ==> (#[trigger] fetched[l]).uid != uid,
    ensures
        answer_for(fetched, uid) == Some(fetched[k].sections@),
    decreases fetched.len(),
{
    if k < fetched.len() - 1 {
        assert(fetched[fetched.len() - 1].uid != uid);
        let front = fetched.drop_last();
        assert(forall|l: int| 0 <= l < front.len() ==> front[l] == #[trigger] fetched[l]);
        lemma_answer_is(front, uid, k);
    }
}

proof fn lemma_no_answer(fetched: Seq<FetchedMessage>, uid: u32)
    requires
        forall|l: int| 0 <= l < fetched.len() ==> (#[trigger] fetched[l]).uid != uid,
    ensures
        answer_for(fetched, uid) is None,
    decreases fetched.len(),
{
    if fetched.len() > 0 {
        assert(fetched[fetched.len() - 1].uid != uid);
        let front = fetched.drop_last();
        assert(forall|l: int| 0 <= l < front.len() ==> front[l] == #[trigger] fetched[l]);
        lemma_no_answer(front, uid);
    }
}

/// Every failure is recorded under the message that it is of, with what is wrong
/// with that message.
pub proof fn failures_name_their_messages(
    batch: Seq<PlannedBodyFetch>,
    fetched: Seq<FetchedMessage>,
    n: int,
)
    requires
        0 <= n <= batch.len(),
    ensures
        forall|f: (i64, ErrorView)| #[trigger]
            faults(batch, fetched, n).contains(f) <==> exists|i: int|
                0 <= i < n && (#[trigger] batch[i]).message_id == f.0 && batch_fault(
                    batch,
                    fetched,
                    i,
                ) == Some(f.1),
    decreases n,
{
    if n > 0 {
        failures_name_their_messages(batch, fetched, n - 1);
        let rest = faults(batch, fetched, n - 1);
        let all = faults(batch, fetched, n);
        if let Some(e) = batch_fault(batch, fetched, n - 1) {
            lemma_pushed(rest, (batch[n - 1].message_id, e));
        }
        assert forall|f: (i64, ErrorView)| #[trigger] all.contains(f) <==> exists|i: int|
            0 <= i < n && (#[trigger] batch[i]).message_id == f.0 && batch_fault(batch, fetched, i)
                == Some(f.1) by {
            if rest.contains(f) {
                let i = choose|i: int|
                    0 <= i < n - 1 && (#[trigger] batch[i]).message_id == f.0 && batch_fault(
                        batch,
                        fetched,
                        i,
                    ) == Some(f.1);
                assert(batch[i].message_id == f.0);
            }
            assert(batch[n - 1].message_id == batch[n - 1].message_id);
        }
    }
}

/// No message of a batch is passed over: each is read or has a fault, and
/// there are as many contents and failures as messages.
pub proof fn every_message_is_settled(
    batch: Seq<PlannedBodyFetch>,
    fetched: Seq<FetchedMessage>,
    n: int,
)
    requires
        0 <= n <= batch.len(),
    ensures
        readable(batch, fetched, n).len() + faults(batch, fetched, n).len() == n,
        forall|i: int|
            0 <= i < n ==> (readable(batch, fetched, n).contains(i) <==> #[trigger] batch_fault(
                batch,
                fetched,
                i,
            ) is None),
    decreases n,
{
    if n > 0 {
        every_message_is_settled(batch, fetched, n - 1);
        let before = readable(batch, fetched, n - 1);
        let after = readable(batch, fetched, n);
        lemma_readable_below(batch, fetched, n - 1);
        assert forall|i: int| 0 <= i < n implies (after.contains(i) <==> #[trigger] batch_fault(
            batch,
            fetched,
            i,
        ) is None) by {
            if i == n - 1 {
                if batch_fault(batch, fetched, i) is None {
                    assert(after[before.len() as int] == i);
                }
            } else {
                if before.contains(i) {
                    let k = choose|k: int| 0 <= k < before.len() && before[k] == i;
                    assert(after[k] == i);
                }
                if after.contains(i) {
                    let k = choose|k: int| 0 <= k < after.len() && after[k] == i;
                    assert(k < before.len());
                    assert(before[k] == i);
                }
            }
        }
    }
}

proof fn lemma_readable_below(
    batch: Seq<PlannedBodyFetch>,
    fetched: Seq<FetchedMessage>,
    n: int,
)
    requires
        0 <= n,
    ensures
        forall|k: int|
            0 <= k < readable(batch, fetched, n).len() ==> 0 <= #[trigger] readable(
                batch,
                fetched,
                n,
            )[k] < n,
    decreases n,
{
    if n > 0 {
        lemma_readable_below(batch, fetched, n - 1);
        let before = readable(batch, fetched, n - 1);
        assert forall|k: int| 0 <= k < readable(batch, fetched, n).len() implies 0
            <= #[trigger] readable(batch, fetched, n)[k] < n by {
            if k < before.len() {
                assert(readable(batch, fetched, n)[k] == before[k]);
            }
        }
    }
}

} // verus!
