//! Bulk body downloads: the chunks of a round, the groups of one chunk, and
//! what a worker does when a chunk fails.

use vstd::prelude::*;

use crate::error::{CoreError, ErrorView};
use crate::lists::{contains_id, lemma_ends, lemma_pushed};
use crate::mime::section_ids;
use crate::models::roles::{ALL, INBOX, SENT};
use crate::models::Provider;
use crate::sort::{comes_before, is_stable_order, stable_order};
use crate::sync::batches::{
    bisect, chunk_views, chunked, is_chunked, joined, lemma_joined_first, pieces,
    pieces_are_unique, PlannedBodyFetch, BODY_FETCH_CHUNK, MAX_MICROSOFT_BATCH_BYTES, MAX_SELECTIVE_BATCH_BYTES,
};
use crate::sync::bodies::{failure_views, BodyChunkError, ContentFailure};
use crate::sync::folders::{is_duplicate_folder, same_validity, skips_folder, Folder};
use crate::text::{lemma_lex_total, lemma_lex_trans, lex_le, lex_le_str, owned, texts};

verus! {

/// Concurrent IMAP connections dedicated to bulk body backfill. Together with
/// the sync actor and the on-demand reader that's BODY_POOL_CONNS + 2
/// connections per account, well under common server caps (Gmail allows 15).
pub const BODY_POOL_CONNS: usize = 2;

// ---------------------------------------------------------------------------
// A round
// ---------------------------------------------------------------------------

/// The order of a round: inbox first, then sent, then the rest.
pub open spec fn drain_rank(f: Folder) -> int {
    if f.has_role(INBOX@) {
        0
    } else if f.has_role(SENT@) {
        1
    } else {
        2
    }
}

pub open spec fn drain_ranks(folders: Seq<Folder>) -> Seq<i64> {
    folders.map_values(|f: Folder| drain_rank(f) as i64)
}

/// The folders in the order in which a round visits them.
pub fn drain_order(folders: &Vec<Folder>) -> (r: Vec<usize>)
    ensures
        is_stable_order(drain_ranks(folders@), r@),
        r@.len() == folders@.len(),
{
    let mut keys: Vec<i64> = Vec::new();
    let mut i: usize = 0;
    while i < folders.len()
        invariant
            i <= folders@.len(),
            keys@ == drain_ranks(folders@.take(i as int)),
        decreases folders@.len() - i,
    {
        let rank: i64 = if folders[i].is_role(INBOX) {
            0
        } else if folders[i].is_role(SENT) {
            1
        } else {
            2
        };
        keys.push(rank);
        i = i + 1;
        proof {
            assert(keys@ =~= drain_ranks(folders@.take(i as int)));
        }
    }
    proof {
        assert(folders@.take(folders@.len() as int) =~= folders@);
    }
    stable_order(&keys)
}

/// One unit of backfill-pool work: a single folder's chunk of UIDs, pulled in
/// one batched FETCH.
#[derive(Debug, Clone)]
pub struct BodyChunk {
    pub folder_id: i64,
    pub folder_name: String,
    pub uid_validity: Option<i64>,
    /// (message_id, uid) pairs.
    pub items: Vec<(i64, i64)>,
}

/// The rows that have not been given up in this drain, in order.
pub open spec fn not_skipped(missing: Seq<(i64, i64)>, skip: Seq<i64>) -> Seq<(i64, i64)>
    decreases missing.len(),
{
    if missing.len() == 0 {
        Seq::empty()
    } else {
        let rest = not_skipped(missing.drop_last(), skip);
        if skip.contains(missing.last().0) {
            rest
        } else {
            rest.push(missing.last())
        }
    }
}

/// Of the missing bodies exactly those are left out that were given up in this
/// drain.
pub proof fn only_given_up_bodies_are_skipped(missing: Seq<(i64, i64)>, skip: Seq<i64>)
    ensures
        forall|m: (i64, i64)| #[trigger]
            not_skipped(missing, skip).contains(m) <==> missing.contains(m) && !skip.contains(m.0),
        skip.len() == 0 ==> not_skipped(missing, skip) == missing,
    decreases missing.len(),
{
    if missing.len() > 0 {
        let front = missing.drop_last();
        only_given_up_bodies_are_skipped(front, skip);
        lemma_ends(missing);
        lemma_pushed(not_skipped(front, skip), missing.last());
        if skip.len() == 0 {
            assert(not_skipped(missing, skip) =~= missing);
        }
    }
}

/// The chunk is one of the folder.
pub open spec fn is_chunk_of(c: BodyChunk, f: Folder) -> bool {
    c.folder_id == f.id && c.folder_name@ == f.imap_name@ && c.uid_validity == f.uidvalidity
}

pub open spec fn chunk_items(chunks: Seq<BodyChunk>) -> Seq<Seq<(i64, i64)>> {
    chunks.map_values(|c: BodyChunk| c.items@)
}

/// The chunks of a folder: its missing bodies without those that were given up
/// in this drain, in order.
pub fn folder_chunks(folder: &Folder, missing: &Vec<(i64, i64)>, skip: &Vec<i64>) -> (r: Vec<
    BodyChunk,
>)
    ensures
        is_chunked(not_skipped(missing@, skip@), BODY_FETCH_CHUNK as int, chunk_items(r@)),
        forall|i: int| 0 <= i < r@.len() ==> is_chunk_of(#[trigger] r@[i], *folder),
{
    let mut live: Vec<(i64, i64)> = Vec::new();
    let mut i: usize = 0;
    while i < missing.len()
        invariant
            i <= missing@.len(),
            live@ == not_skipped(missing@.take(i as int), skip@),
        decreases missing@.len() - i,
    {
        proof {
            assert(missing@.take(i + 1).drop_last() =~= missing@.take(i as int));
        }
        if !contains_id(skip, missing[i].0) {
            live.push(missing[i]);
        }
        i = i + 1;
    }
    proof {
        assert(missing@.take(missing@.len() as int) =~= missing@);
    }
    let mut pieces: Vec<Vec<(i64, i64)>> = chunked(&live, BODY_FETCH_CHUNK);
    let ghost all = chunk_views(pieces@);
    let mut reversed: Vec<Vec<(i64, i64)>> = Vec::new();
    proof {
        assert(all.skip(all.len() as int).reverse() =~= Seq::empty());
        assert(chunk_views(reversed@) =~= Seq::empty());
        assert(all.take(all.len() as int) =~= all);
    }
    while pieces.len() > 0
        invariant
            pieces@.len() <= all.len(),
            chunk_views(pieces@) == all.take(pieces@.len() as int),
            chunk_views(reversed@) == all.skip(pieces@.len() as int).reverse(),
        decreases pieces@.len(),
    {
        let ghost n = pieces@.len() as int;
        let ghost before = chunk_views(reversed@);
        if let Some(piece) = pieces.pop() {
            let ghost held = piece@;
            reversed.push(piece);
            proof {
                assert(chunk_views(pieces@) =~= all.take(n - 1));
                assert(held == all.take(n)[n - 1]);
                assert(chunk_views(reversed@) =~= before.push(held));
                assert(all.skip(n - 1).reverse() =~= all.skip(n).reverse().push(all[n - 1]));
            }
        }
    }
    let mut out: Vec<BodyChunk> = Vec::new();
    proof {
        assert(all.skip(0) =~= all);
        assert(chunk_items(out@) =~= all.take(0));
    }
    while reversed.len() > 0
        invariant
            reversed@.len() <= all.len(),
            chunk_views(reversed@) == all.skip(all.len() - reversed@.len()).reverse(),
            chunk_items(out@) == all.take(all.len() - reversed@.len()),
            forall|i: int| 0 <= i < out@.len() ==> is_chunk_of(#[trigger] out@[i], *folder),
        decreases reversed@.len(),
    {
        let ghost k = all.len() - reversed@.len();
        let ghost n = reversed@.len() as int;
        let ghost before = chunk_items(out@);
        let ghost views = chunk_views(reversed@);
        if let Some(items) = reversed.pop() {
            let ghost held = items@;
            proof {
                assert(held == views[n - 1]);
                assert(views[n - 1] == all[k]);
                assert(chunk_views(reversed@) =~= views.drop_last());
                assert(views.drop_last() =~= all.skip(k + 1).reverse());
            }
            out.push(
                BodyChunk {
                    folder_id: folder.id,
                    folder_name: folder.imap_name.clone(),
                    uid_validity: folder.uidvalidity,
                    items,
                },
            );
            proof {
                assert(chunk_items(out@) =~= before.push(held));
                assert(all.take(k + 1) =~= all.take(k).push(all[k]));
            }
        }
    }
    proof {
        assert(all.take(all.len() as int) =~= all);
    }
    out
}

/// The work of a round: for every folder in the order of visits its missing
/// bodies in pieces, each with the position of the folder. A folder that
/// duplicates the rest is left out.
pub open spec fn round_work(
    folders: Seq<Folder>,
    missing: Seq<Seq<(i64, i64)>>,
    skip: Seq<i64>,
    provider: Provider,
    order: Seq<usize>,
) -> Seq<(int, Seq<(i64, i64)>)>
    decreases order.len(),
{
    if order.len() == 0 {
        Seq::empty()
    } else {
        let rest = round_work(folders, missing, skip, provider, order.drop_last());
        let at = order.last() as int;
        if is_duplicate_folder(folders[at], provider) {
            rest
        } else {
            rest + folder_work(at, not_skipped(missing[at], skip))
        }
    }
}

pub open spec fn folder_work(at: int, items: Seq<(i64, i64)>) -> Seq<(int, Seq<(i64, i64)>)> {
    pieces(items, BODY_FETCH_CHUNK as int).map_values(|p: Seq<(i64, i64)>| (at, p))
}

/// A round asks for every missing body that was not given up, in a folder that
/// does not only repeat the others, and for nothing else: each stands in a piece
/// of at most two hundred, with its own folder.
pub proof fn every_missing_body_is_in_the_round(
    folders: Seq<Folder>,
    missing: Seq<Seq<(i64, i64)>>,
    skip: Seq<i64>,
    provider: Provider,
    order: Seq<usize>,
    at: usize,
    m: (i64, i64),
)
    requires
        is_stable_order(drain_ranks(folders), order),
        missing.len() == folders.len(),
        at < folders.len(),
    ensures
        (exists|k: int|
            0 <= k < round_work(folders, missing, skip, provider, order).len() && (
            #[trigger] round_work(folders, missing, skip, provider, order)[k]).0 == at
                && round_work(folders, missing, skip, provider, order)[k].1.contains(m))
            <==> missing[at as int].contains(m) && !skip.contains(m.0) && (
        folders[at as int].has_role(ALL@) ==> provider is Gmail),
        forall|k: int|
            0 <= k < round_work(folders, missing, skip, provider, order).len() ==> 0 < (
            #[trigger] round_work(folders, missing, skip, provider, order)[k]).1.len() <= 200,
{
    lemma_round(folders, missing, skip, provider, order, at, m);
    assert(order.contains(at));
}

proof fn lemma_round(
    folders: Seq<Folder>,
    missing: Seq<Seq<(i64, i64)>>,
    skip: Seq<i64>,
    provider: Provider,
    order: Seq<usize>,
    at: usize,
    m: (i64, i64),
)
    ensures
        (exists|k: int|
            0 <= k < round_work(folders, missing, skip, provider, order).len() && (
            #[trigger] round_work(folders, missing, skip, provider, order)[k]).0 == at
                && round_work(folders, missing, skip, provider, order)[k].1.contains(m))
            <==> order.contains(at) && missing[at as int].contains(m) && !skip.contains(m.0) && (
        folders[at as int].has_role(ALL@) ==> provider is Gmail),
        forall|k: int|
            0 <= k < round_work(folders, missing, skip, provider, order).len() ==> 0 < (
            #[trigger] round_work(folders, missing, skip, provider, order)[k]).1.len() <= 200,
    decreases order.len(),
{
    if order.len() > 0 {
        let front = order.drop_last();
        lemma_round(folders, missing, skip, provider, front, at, m);
        lemma_ends(order);
        let rest = round_work(folders, missing, skip, provider, front);
        let all = round_work(folders, missing, skip, provider, order);
        let here = order.last() as int;
        let items = not_skipped(missing[here], skip);
        only_given_up_bodies_are_skipped(missing[here], skip);
        lemma_pieces_hold(items, 200, m);
        let own = folder_work(here, items);
        let cut = pieces(items, 200);
        assert(forall|k: int| 0 <= k < rest.len() ==> rest[k] == #[trigger] all[k]);
        if !is_duplicate_folder(folders[here], provider) {
            assert(all == rest + own);
            assert(forall|k: int|
                rest.len() <= k < all.len() ==> #[trigger] all[k] == own[k - rest.len()]);
            assert(forall|k: int| 0 <= k < own.len() ==> #[trigger] own[k] == (here, cut[k]));
        }
        let had = exists|k: int|
            0 <= k < rest.len() && (#[trigger] rest[k]).0 == at && rest[k].1.contains(m);
        let has = exists|k: int|
            0 <= k < all.len() && (#[trigger] all[k]).0 == at && all[k].1.contains(m);
        if had {
            let k = choose|k: int|
                0 <= k < rest.len() && (#[trigger] rest[k]).0 == at && rest[k].1.contains(m);
            assert(all[k].0 == at);
        }
        if has && !had {
            let k = choose|k: int|
                0 <= k < all.len() && (#[trigger] all[k]).0 == at && all[k].1.contains(m);
            if k < rest.len() {
                assert(rest[k].0 == at);
            }
            assert(cut[k - rest.len()].contains(m));
        }
        if here == at && items.contains(m) && !is_duplicate_folder(folders[here], provider) {
            let j = choose|j: int| 0 <= j < cut.len() && (#[trigger] cut[j]).contains(m);
            assert(all[rest.len() + j] == own[j]);
            assert(own[j] == (here, cut[j]));
        }
    }
}

proof fn lemma_pieces_hold(items: Seq<(i64, i64)>, size: int, m: (i64, i64))
    requires
        size > 0,
    ensures
        items.contains(m) <==> exists|j: int|
            0 <= j < pieces(items, size).len() && (#[trigger] pieces(items, size)[j]).contains(m),
        forall|j: int|
            0 <= j < pieces(items, size).len() ==> 0 < (#[trigger] pieces(items, size)[j]).len()
                <= size,
    decreases items.len(),
{
    let cut = pieces(items, size);
    if items.len() == 0 {
    } else if items.len() <= size {
        assert(cut =~= seq![items]);
        if items.contains(m) {
            assert(cut[0].contains(m));
        }
    } else {
        let head = items.take(size);
        let tail = items.skip(size);
        let rest = pieces(tail, size);
        lemma_pieces_hold(tail, size, m);
        assert(cut == seq![head] + rest);
        assert(cut[0] == head);
        assert(forall|j: int| 1 <= j < cut.len() ==> #[trigger] cut[j] == rest[j - 1]);
        if items.contains(m) {
            let i = items.index_of(m);
            if i < size {
                assert(head[i] == m);
                assert(cut[0].contains(m));
            } else {
                assert(tail[i - size] == m);
                let j = choose|j: int| 0 <= j < rest.len() && (#[trigger] rest[j]).contains(m);
                assert(cut[j + 1] == rest[j]);
            }
        }
        if exists|j: int| 0 <= j < cut.len() && (#[trigger] cut[j]).contains(m) {
            let j = choose|j: int| 0 <= j < cut.len() && (#[trigger] cut[j]).contains(m);
            if j == 0 {
                let i = head.index_of(m);
                assert(items[i] == m);
            } else {
                assert(rest[j - 1].contains(m));
                let i = tail.index_of(m);
                assert(items[i + size] == m);
            }
        }
    }
}

/// A round takes the bodies of the inbox first, then those of sent mail.
pub proof fn the_inbox_is_drained_first(folders: Seq<Folder>, order: Seq<usize>, x: int, y: int)
    requires
        is_stable_order(drain_ranks(folders), order),
        0 <= x < y < order.len(),
    ensures
        folders[order[y] as int].has_role(INBOX@) ==> folders[order[x] as int].has_role(INBOX@),
        folders[order[y] as int].has_role(SENT@) ==> folders[order[x] as int].has_role(INBOX@)
            || folders[order[x] as int].has_role(SENT@),
{
    assert(comes_before(drain_ranks(folders), order[x], order[y]));
    assert(order.contains(order[x]) && order.contains(order[y]));
    reveal_strlit("inbox");
    reveal_strlit("sent");
    assert(INBOX@.len() == 5 && SENT@.len() == 4);
}

/// The chunks are this work.
pub open spec fn are_chunks(
    chunks: Seq<BodyChunk>,
    folders: Seq<Folder>,
    work: Seq<(int, Seq<(i64, i64)>)>,
) -> bool {
    &&& chunks.len() == work.len()
    &&& forall|i: int|
        0 <= i < chunks.len() ==> is_chunk_of((#[trigger] chunks[i]), folders[work[i].0])
            && chunks[i].items@ == work[i].1
}

/// Fetch ALL missing bodies for the account, inbox first: the chunks of one
/// round. `missing` has the missing bodies of each folder; what was given up in
/// this drain is left out.
pub fn round_chunks(
    folders: &Vec<Folder>,
    missing: &Vec<Vec<(i64, i64)>>,
    skip: &Vec<i64>,
    provider: Provider,
) -> (r: WorkQueue)
    requires
        missing@.len() == folders@.len(),
    ensures
        exists|order: Seq<usize>|
            is_stable_order(drain_ranks(folders@), order) && are_chunks(
                r.chunks@,
                folders@,
                #[trigger] round_work(folders@, chunk_views(missing@), skip@, provider, order),
            ),
{
    let order: Vec<usize> = drain_order(folders);
    let ghost views = chunk_views(missing@);
    let mut chunks: Vec<BodyChunk> = Vec::new();
    let mut k: usize = 0;
    while k < order.len()
        invariant
            k <= order@.len(),
            missing@.len() == folders@.len(),
            views == chunk_views(missing@),
            is_stable_order(drain_ranks(folders@), order@),
            are_chunks(
                chunks@,
                folders@,
                round_work(folders@, views, skip@, provider, order@.take(k as int)),
            ),
        decreases order@.len() - k,
    {
        let ghost so_far = round_work(folders@, views, skip@, provider, order@.take(k as int));
        let ghost before = chunks@;
        proof {
            assert(order@.take(k + 1).drop_last() =~= order@.take(k as int));
            assert(order@.contains(order@[k as int]));
        }
        let at: usize = order[k];
        if !skips_folder(&folders[at], provider) {
            let mut more: Vec<BodyChunk> = folder_chunks(&folders[at], &missing[at], skip);
            proof {
                pieces_are_unique(
                    not_skipped(missing@[at as int]@, skip@),
                    BODY_FETCH_CHUNK as int,
                    chunk_items(more@),
                );
                let here = folder_work(at as int, not_skipped(views[at as int], skip@));
                assert(more@.len() == here.len());
                let now = before + more@;
                let work = so_far + here;
                assert forall|i: int| 0 <= i < now.len() implies is_chunk_of(
                    #[trigger] now[i],
                    folders@[work[i].0],
                ) && now[i].items@ == work[i].1 by {
                    if i < before.len() {
                        assert(now[i] == before[i]);
                    } else {
                        assert(now[i] == more@[i - before.len()]);
                        assert(chunk_items(more@)[i - before.len()] == now[i].items@);
                    }
                }
            }
            chunks.append(&mut more);
        }
        k = k + 1;
    }
    proof {
        assert(order@.take(order@.len() as int) =~= order@);
    }
    WorkQueue { chunks }
}

/// How many connections a round uses. Office 365 throttles concurrent IMAP
/// FETCH streams hard (it resets extra connections), so it gets a smaller pool -
/// more workers there just die and burn reconnect round-trips.
pub fn worker_count(provider: Provider, chunks: usize) -> (r: usize)
    ensures
        ({
            let cap: int = if provider == Provider::Microsoft {
                1
            } else {
                BODY_POOL_CONNS as int
            };
            r == (if chunks < cap {
                chunks as int
            } else {
                cap
            })
        }),
        r <= chunks,
        chunks > 0 ==> 1 <= r <= 2,
        provider is Microsoft ==> r <= 1,
        !(provider is Microsoft) && chunks >= 2 ==> r == 2,
{
    let cap: usize = match provider {
        Provider::Microsoft => 1,
        _ => BODY_POOL_CONNS,
    };
    if chunks < cap {
        chunks
    } else {
        cap
    }
}

/// How many bytes one response may have.
pub fn max_batch_bytes(provider: Provider) -> (r: u64)
    ensures
        r == (if provider == Provider::Microsoft {
            MAX_MICROSOFT_BATCH_BYTES
        } else {
            MAX_SELECTIVE_BATCH_BYTES
        }),
        provider is Microsoft ==> r == 4 * 1_048_576,
        !(provider is Microsoft) ==> r == 8 * 1_048_576,
{
    match provider {
        Provider::Microsoft => MAX_MICROSOFT_BATCH_BYTES,
        _ => MAX_SELECTIVE_BATCH_BYTES,
    }
}

/// What a finished round means: the first error of a worker ends the drain, and
/// so does a round without forward progress (server unreachable, or every
/// remaining UID vanished), so the drain can't spin; else the next round scans
/// again.
pub fn round_outcome(first_error: Option<CoreError>, persisted: u64) -> (r: Result<(), CoreError>)
    ensures
        match first_error {
            Some(e) => r == Err::<(), CoreError>(e),
            None => if persisted == 0 {
                r is Err && r->Err_0@ == ErrorView::Imap(
                    "body backfill made no progress; will retry"@,
                )
            } else {
                r is Ok
            },
        },
        r is Ok <==> first_error is None && persisted > 0,
{
    match first_error {
        Some(e) => Err(e),
        None => if persisted == 0 {
            Err(CoreError::Imap(owned("body backfill made no progress; will retry")))
        } else {
            Ok(())
        },
    }
}

// ---------------------------------------------------------------------------
// A chunk
// ---------------------------------------------------------------------------

/// The main actor can rename/reset a folder while the background queue is
/// waiting. A stale folder snapshot is not used, especially across a
/// UIDVALIDITY reset where the same numeric UID can name different mail.
/// `current` is the folder's name and UIDVALIDITY now.
pub fn chunk_is_current(chunk: &BodyChunk, current: Option<(&str, Option<i64>)>) -> (r: bool)
    ensures
        r == (current matches Some((name, validity)) && name@ == chunk.folder_name@ && validity
            == chunk.uid_validity),
        current is None ==> !r,
        current is Some && (current->0).1 != chunk.uid_validity ==> !r,
        current is Some && (current->0).0@ != chunk.folder_name@ ==> !r,
{
    match current {
        Some((name, validity)) => name.eq(chunk.folder_name.as_str()) && same_validity(
            validity,
            chunk.uid_validity,
        ),
        None => false,
    }
}

/// What a worker does after a chunk failed.
#[derive(Debug)]
pub enum WorkerStep {
    /// Retry the two halves on a fresh session; where none can be had, the
    /// worker ends with this error.
    Halve(CoreError),
    /// A single message failed: it goes back on the queue and waits for the
    /// next periodic retry rather than spinning.
    Requeue(CoreError),
    /// A local failure: reconnecting would not mend it.
    Abort(CoreError),
}

pub fn after_chunk_error(error: BodyChunkError, chunk_len: usize) -> (r: WorkerStep)
    ensures
        r == (match error {
            BodyChunkError::Reconnect(e) => if chunk_len > 1 {
                WorkerStep::Halve(e)
            } else {
                WorkerStep::Requeue(e)
            },
            BodyChunkError::Fatal(e) => WorkerStep::Abort(e),
        }),
{
    match error {
        BodyChunkError::Reconnect(e) => if chunk_len > 1 {
            WorkerStep::Halve(e)
        } else {
            WorkerStep::Requeue(e)
        },
        BodyChunkError::Fatal(e) => WorkerStep::Abort(e),
    }
}

/// The chunks that wait, the next one first.
#[derive(Debug)]
pub struct WorkQueue {
    pub chunks: Vec<BodyChunk>,
}

/// The chunk is a part of another one: the same folder in the same state.
pub open spec fn is_part_of(part: BodyChunk, c: BodyChunk) -> bool {
    part.folder_id == c.folder_id && part.folder_name@ == c.folder_name@ && part.uid_validity
        == c.uid_validity
}

impl WorkQueue {
    /// The messages that wait, in order.
    pub open spec fn pending(self) -> Seq<(i64, i64)> {
        joined(chunk_items(self.chunks@))
    }

    pub fn take(&mut self) -> (r: Option<BodyChunk>)
        ensures
            old(self).chunks@.len() == 0 ==> r is None && final(self).chunks@ == old(self).chunks@,
            old(self).chunks@.len() > 0 ==> r == Some(old(self).chunks@[0])
                && final(self).chunks@ == old(self).chunks@.drop_first(),
    {
        if self.chunks.len() == 0 {
            None
        } else {
            let ghost before = self.chunks@;
            let chunk: BodyChunk = self.chunks.remove(0);
            proof {
                assert(self.chunks@ =~= before.drop_first());
            }
            Some(chunk)
        }
    }

    /// Takes back a chunk that failed. On a broken connection nothing is lost:
    /// its messages wait again in front of the others, in two halves where
    /// there is more than one.
    pub fn take_back(&mut self, chunk: BodyChunk, error: BodyChunkError) -> (r: WorkerStep)
        ensures
            r == (match error {
                BodyChunkError::Reconnect(e) => if chunk.items@.len() > 1 {
                    WorkerStep::Halve(e)
                } else {
                    WorkerStep::Requeue(e)
                },
                BodyChunkError::Fatal(e) => WorkerStep::Abort(e),
            }),
            error is Reconnect ==> final(self).pending() == chunk.items@ + old(self).pending(),
            r is Halve ==> {
                &&& final(self).chunks@.len() == old(self).chunks@.len() + 2
                &&& final(self).chunks@.skip(2) == old(self).chunks@
                &&& is_part_of(final(self).chunks@[0], chunk)
                &&& is_part_of(final(self).chunks@[1], chunk)
                &&& final(self).chunks@[0].items@.len() == chunk.items@.len() / 2
                &&& final(self).chunks@[0].items@ + final(self).chunks@[1].items@ == chunk.items@
            },
            r is Requeue ==> final(self).chunks@ == seq![chunk] + old(self).chunks@,
            r is Abort ==> final(self).chunks@ == old(self).chunks@,
    {
        let step: WorkerStep = after_chunk_error(error, chunk.items.len());
        let ghost before = self.chunks@;
        let ghost whole = chunk;
        match step {
            WorkerStep::Halve(_) => {
                let folder_name: String = chunk.folder_name.clone();
                let mut left: BodyChunk = chunk;
                let rest: Vec<(i64, i64)> = bisect(&mut left.items);
                let right: BodyChunk = BodyChunk {
                    folder_id: left.folder_id,
                    folder_name,
                    uid_validity: left.uid_validity,
                    items: rest,
                };
                self.chunks.insert(0, right);
                self.chunks.insert(0, left);
                proof {
                    let now = self.chunks@;
                    assert(now =~= seq![left, right] + before);
                    assert(now.skip(2) =~= before);
                    lemma_two_in_front(left, right, before);
                }
            },
            WorkerStep::Requeue(_) => {
                self.chunks.insert(0, chunk);
                proof {
                    assert(self.chunks@ =~= seq![whole] + before);
                    lemma_one_in_front(whole, before);
                }
            },
            WorkerStep::Abort(_) => {},
        }
        step
    }
}

proof fn lemma_one_in_front(c: BodyChunk, chunks: Seq<BodyChunk>)
    ensures
        joined(chunk_items(seq![c] + chunks)) == c.items@ + joined(chunk_items(chunks)),
{
    let all = chunk_items(seq![c] + chunks);
    lemma_joined_first(all);
    assert(all.drop_first() =~= chunk_items(chunks));
}

proof fn lemma_two_in_front(left: BodyChunk, right: BodyChunk, chunks: Seq<BodyChunk>)
    ensures
        joined(chunk_items(seq![left, right] + chunks)) == left.items@ + right.items@ + joined(
            chunk_items(chunks),
        ),
{
    lemma_one_in_front(right, chunks);
    lemma_one_in_front(left, seq![right] + chunks);
    assert(seq![left] + (seq![right] + chunks) =~= seq![left, right] + chunks);
    assert(left.items@ + (right.items@ + joined(chunk_items(chunks))) =~= left.items@ + right.items@
        + joined(chunk_items(chunks)));
}

// ---------------------------------------------------------------------------
// Layouts
// ---------------------------------------------------------------------------

/// The order of layouts: section by section, a prefix before its extensions.
pub open spec fn layout_le(a: Seq<Seq<char>>, b: Seq<Seq<char>>) -> bool
    decreases a.len(),
{
    if a.len() == 0 {
        true
    } else if b.len() == 0 {
        false
    } else if a[0] == b[0] {
        layout_le(a.drop_first(), b.drop_first())
    } else {
        lex_le(a[0], b[0])
    }
}

pub open spec fn layout_before(a: Seq<Seq<char>>, b: Seq<Seq<char>>) -> bool {
    layout_le(a, b) && a != b
}

proof fn lemma_layout_total(a: Seq<Seq<char>>, b: Seq<Seq<char>>)
    ensures
        layout_le(a, b) || layout_le(b, a),
        layout_le(a, b) && layout_le(b, a) ==> a == b,
    decreases a.len(),
{
    if a.len() > 0 && b.len() > 0 {
        lemma_lex_total(a[0], b[0]);
        if a[0] == b[0] {
            lemma_layout_total(a.drop_first(), b.drop_first());
            if layout_le(a, b) && layout_le(b, a) {
                assert(a =~= seq![a[0]] + a.drop_first());
                assert(b =~= seq![b[0]] + b.drop_first());
            }
        }
    } else if a.len() == 0 && b.len() == 0 {
        assert(a =~= b);
    }
}

proof fn lemma_layout_trans(a: Seq<Seq<char>>, b: Seq<Seq<char>>, c: Seq<Seq<char>>)
    requires
        layout_le(a, b),
        layout_le(b, c),
    ensures
        layout_le(a, c),
    decreases a.len(),
{
    if a.len() > 0 && b.len() > 0 && c.len() > 0 {
        if a[0] == b[0] && b[0] == c[0] {
            lemma_layout_trans(a.drop_first(), b.drop_first(), c.drop_first());
        } else if a[0] != b[0] && b[0] != c[0] {
            lemma_lex_trans(a[0], b[0], c[0]);
            if a[0] == c[0] {
                lemma_lex_total(a[0], b[0]);
            }
        }
    }
}

fn layout_le_texts(a: &Vec<String>, b: &Vec<String>) -> (r: bool)
    ensures
        r == layout_le(texts(a@), texts(b@)),
{
    let mut i: usize = 0;
    let ghost x = texts(a@);
    let ghost y = texts(b@);
    proof {
        assert(x.skip(0) =~= x);
        assert(y.skip(0) =~= y);
    }
    loop
        invariant
            x == texts(a@),
            y == texts(b@),
            i <= x.len(),
            i <= y.len(),
            layout_le(x, y) == layout_le(x.skip(i as int), y.skip(i as int)),
        decreases x.len() - i,
    {
        if i == a.len() {
            return true;
        }
        if i == b.len() {
            return false;
        }
        proof {
            assert(x.skip(i as int)[0] == a@[i as int]@);
            assert(y.skip(i as int)[0] == b@[i as int]@);
            assert(x.skip(i as int).drop_first() =~= x.skip(i + 1));
            assert(y.skip(i as int).drop_first() =~= y.skip(i + 1));
        }
        if !a[i].as_str().eq(b[i].as_str()) {
            return lex_le_str(a[i].as_str(), b[i].as_str());
        }
        i = i + 1;
    }
}

fn same_texts(a: &Vec<String>, b: &Vec<String>) -> (r: bool)
    ensures
        r == (texts(a@) == texts(b@)),
{
    if a.len() != b.len() {
        proof {
            assert(texts(a@).len() != texts(b@).len());
        }
        return false;
    }
    let mut i: usize = 0;
    while i < a.len()
        invariant
            a@.len() == b@.len(),
            i <= a@.len(),
            forall|j: int| 0 <= j < i ==> a@[j]@ == (#[trigger] b@[j])@,
        decreases a@.len() - i,
    {
        if !a[i].as_str().eq(b[i].as_str()) {
            proof {
                assert(texts(a@)[i as int] != texts(b@)[i as int]);
            }
            return false;
        }
        i = i + 1;
    }
    proof {
        assert(texts(a@) =~= texts(b@));
    }
    true
}

/// Messages whose readable text is in the same sections, so that one request
/// fetches them all.
#[derive(Debug)]
pub struct LayoutGroup {
    pub sections: Vec<String>,
    pub items: Vec<PlannedBodyFetch>,
}

/// The messages with a layout, in order.
pub open spec fn with_layout(items: Seq<PlannedBodyFetch>, layout: Seq<Seq<char>>) -> Seq<
    PlannedBodyFetch,
>
    decreases items.len(),
{
    if items.len() == 0 {
        Seq::empty()
    } else if items.last().plan.layout() == layout {
        with_layout(items.drop_last(), layout).push(items.last())
    } else {
        with_layout(items.drop_last(), layout)
    }
}

/// The messages with nothing readable in them, in order.
pub open spec fn unreadable(items: Seq<PlannedBodyFetch>) -> Seq<(i64, Seq<char>)>
    decreases items.len(),
{
    if items.len() == 0 {
        Seq::empty()
    } else if items.last().plan.layout().len() == 0 {
        unreadable(items.drop_last()).push(
            (items.last().message_id, "BODYSTRUCTURE contains no readable text sections"@),
        )
    } else {
        unreadable(items.drop_last())
    }
}

/// A group holds exactly the messages whose readable text is in its sections, and
/// a message fails here exactly where it has no readable text.
pub proof fn groups_hold_messages_of_their_layout(
    items: Seq<PlannedBodyFetch>,
    layout: Seq<Seq<char>>,
)
    ensures
        forall|p: PlannedBodyFetch| #[trigger]
            with_layout(items, layout).contains(p) <==> items.contains(p) && section_ids(
                p.plan.text_sections@,
            ) == layout,
        unreadable(items).len() == 0 <==> forall|i: int|
            0 <= i < items.len() ==> (#[trigger] items[i]).plan.text_sections@.len() > 0,
        forall|k: int|
            0 <= k < unreadable(items).len() ==> exists|i: int|
                0 <= i < items.len() && (#[trigger] unreadable(items)[k]).0 == (
                #[trigger] items[i]).message_id && items[i].plan.text_sections@.len() == 0,
    decreases items.len(),
{
    if items.len() > 0 {
        let n = items.len() - 1;
        let front = items.drop_last();
        groups_hold_messages_of_their_layout(front, layout);
        lemma_ends(items);
        lemma_pushed(with_layout(front, layout), items.last());
        assert(forall|i: int| 0 <= i < n ==> front[i] == #[trigger] items[i]);
        assert(items[n] == items.last());
        let failed = unreadable(front);
        let now = unreadable(items);
        assert forall|k: int| 0 <= k < now.len() implies exists|i: int|
            0 <= i < items.len() && (#[trigger] now[k]).0 == (#[trigger] items[i]).message_id
                && items[i].plan.text_sections@.len() == 0 by {
            if k < failed.len() {
                assert(now[k] == failed[k]);
                let i = choose|i: int|
                    0 <= i < front.len() && failed[k].0 == (#[trigger] front[i]).message_id
                        && front[i].plan.text_sections@.len() == 0;
                assert(items[i] == front[i]);
            } else {
                assert(now[k].0 == items[n].message_id);
            }
        }
    }
}

/// The messages in groups of one layout each: the layouts ascend, every group
/// holds all the messages with its layout in their order, and no message with
/// a layout is left out.
pub open spec fn is_grouping(items: Seq<PlannedBodyFetch>, groups: Seq<LayoutGroup>) -> bool {
    &&& forall|g: int|
        0 <= g < groups.len() ==> is_group(items, #[trigger] groups[g])
    &&& forall|g: int, h: int|
        #![trigger groups[g], groups[h]]
        0 <= g < h < groups.len() ==> layout_before(
            texts(groups[g].sections@),
            texts(groups[h].sections@),
        )
    &&& forall|i: int|
        0 <= i < items.len() && (#[trigger] items[i]).plan.layout().len() > 0 ==> has_group(
            groups,
            items[i].plan.layout(),
        )
}

/// No readable message is left out: each of them is in exactly one group, the one
/// with its sections, and every message of a group is one of them.
pub proof fn every_readable_message_is_grouped(
    items: Seq<PlannedBodyFetch>,
    groups: Seq<LayoutGroup>,
    p: PlannedBodyFetch,
)
    requires
        is_grouping(items, groups),
    ensures
        items.contains(p) && p.plan.text_sections@.len() > 0 ==> exists|g: int|
            0 <= g < groups.len() && (#[trigger] groups[g]).items@.contains(p) && texts(
                groups[g].sections@,
            ) == section_ids(p.plan.text_sections@),
        forall|g: int|
            0 <= g < groups.len() && (#[trigger] groups[g]).items@.contains(p) ==> items.contains(p)
                && texts(groups[g].sections@) == section_ids(p.plan.text_sections@),
        forall|g: int, h: int|
            #![trigger groups[g], groups[h]]
            0 <= g < h < groups.len() && groups[g].items@.contains(p) ==> !groups[h].items@.contains(
                p,
            ),
{
    assert forall|g: int|
        0 <= g < groups.len() && (#[trigger] groups[g]).items@.contains(p) implies items.contains(p)
        && texts(groups[g].sections@) == section_ids(p.plan.text_sections@) by {
        assert(is_group(items, groups[g]));
        groups_hold_messages_of_their_layout(items, texts(groups[g].sections@));
    }
    assert forall|g: int, h: int|
        #![trigger groups[g], groups[h]]
        0 <= g < h < groups.len() && groups[g].items@.contains(p) implies !groups[h].items@.contains(
        p,
    ) by {
        assert(layout_before(texts(groups[g].sections@), texts(groups[h].sections@)));
    }
    if items.contains(p) && p.plan.text_sections@.len() > 0 {
        let i = items.index_of(p);
        assert(items[i].plan.layout().len() > 0);
        assert(has_group(groups, p.plan.layout()));
        let g = choose|g: int|
            0 <= g < groups.len() && texts((#[trigger] groups[g]).sections@) == p.plan.layout();
        assert(is_group(items, groups[g]));
        groups_hold_messages_of_their_layout(items, texts(groups[g].sections@));
        assert(groups[g].items@.contains(p));
    }
}

pub open spec fn is_group(items: Seq<PlannedBodyFetch>, g: LayoutGroup) -> bool {
    &&& g.sections@.len() > 0
    &&& g.items@.len() > 0
    &&& g.items@ == with_layout(items, texts(g.sections@))
}

pub open spec fn has_group(groups: Seq<LayoutGroup>, layout: Seq<Seq<char>>) -> bool {
    exists|g: int| 0 <= g < groups.len() && texts((#[trigger] groups[g]).sections@) == layout
}

/// The first group whose layout does not stand before `layout`.
fn group_position(groups: &Vec<LayoutGroup>, layout: &Vec<String>) -> (r: usize)
    requires
        forall|g: int, h: int|
            #![trigger groups@[g], groups@[h]]
            0 <= g < h < groups@.len() ==> layout_before(
                texts(groups@[g].sections@),
                texts(groups@[h].sections@),
            ),
    ensures
        r <= groups@.len(),
        forall|g: int|
            0 <= g < r ==> layout_before(texts((#[trigger] groups@[g]).sections@), texts(layout@)),
        forall|g: int|
            r <= g < groups@.len() ==> layout_le(
                texts(layout@),
                texts((#[trigger] groups@[g]).sections@),
            ),
{
    let mut i: usize = 0;
    while i < groups.len() && !layout_le_texts(layout, &groups[i].sections)
        invariant
            i <= groups@.len(),
            forall|g: int|
                0 <= g < i ==> layout_before(
                    texts((#[trigger] groups@[g]).sections@),
                    texts(layout@),
                ),
        decreases groups@.len() - i,
    {
        proof {
            lemma_layout_total(texts(layout@), texts(groups@[i as int].sections@));
        }
        i = i + 1;
    }
    proof {
        let l = texts(layout@);
        assert forall|g: int| i <= g < groups@.len() implies layout_le(
            l,
            texts((#[trigger] groups@[g]).sections@),
        ) by {
            if g > i {
                assert(layout_before(
                    texts(groups@[i as int].sections@),
                    texts(groups@[g].sections@),
                ));
                lemma_layout_trans(
                    l,
                    texts(groups@[i as int].sections@),
                    texts(groups@[g].sections@),
                );
            }
        }
    }
    i
}

proof fn lemma_with_layout_push(
    items: Seq<PlannedBodyFetch>,
    item: PlannedBodyFetch,
    layout: Seq<Seq<char>>,
)
    ensures
        with_layout(items.push(item), layout) == (if item.plan.layout() == layout {
            with_layout(items, layout).push(item)
        } else {
            with_layout(items, layout)
        }),
{
    assert(items.push(item).drop_last() =~= items);
}

/// A layout that no message has, gives an empty group.
proof fn lemma_no_layout(items: Seq<PlannedBodyFetch>, layout: Seq<Seq<char>>)
    requires
        forall|i: int| 0 <= i < items.len() ==> (#[trigger] items[i]).plan.layout() != layout,
    ensures
        with_layout(items, layout).len() == 0,
    decreases items.len(),
{
    if items.len() > 0 {
        assert(items[items.len() - 1].plan.layout() != layout);
        assert forall|i: int| 0 <= i < items.len() - 1 implies (
        #[trigger] items.drop_last()[i]).plan.layout() != layout by {
            assert(items[i].plan.layout() != layout);
        }
        lemma_no_layout(items.drop_last(), layout);
    }
}

/// Puts one message into its group.
fn add_to_group(groups: &mut Vec<LayoutGroup>, item: PlannedBodyFetch, Ghost(done): Ghost<
    Seq<PlannedBodyFetch>,
>)
    requires
        is_grouping(done, old(groups)@),
        item.plan.layout().len() > 0,
    ensures
        is_grouping(done.push(item), final(groups)@),
{
    let sections: Vec<String> = item.plan.text_section_ids();
    let ghost layout = texts(sections@);
    let at: usize = group_position(groups, &sections);
    let ghost before = groups@;
    let ghost now = done.push(item);
    let here: bool = at < groups.len() && same_texts(&groups[at].sections, &sections);
    if here {
        groups[at].items.push(item);
        proof {
            let after = groups@;
            assert forall|g: int| 0 <= g < after.len() implies is_group(
                now,
                #[trigger] after[g],
            ) by {
                lemma_with_layout_push(done, item, texts(after[g].sections@));
                assert(is_group(done, before[g]));
                if g != at {
                    assert(after[g] == before[g]);
                    if g < at {
                        assert(layout_before(texts(before[g].sections@), layout));
                    } else {
                        assert(layout_before(
                            texts(before[at as int].sections@),
                            texts(before[g].sections@),
                        ));
                    }
                }
            }
            assert forall|g: int, h: int|
                #![trigger after[g], after[h]]
                0 <= g < h < after.len() implies layout_before(
                texts(after[g].sections@),
                texts(after[h].sections@),
            ) by {
                assert(layout_before(texts(before[g].sections@), texts(before[h].sections@)));
            }
            assert forall|i: int|
                0 <= i < now.len() && (#[trigger] now[i]).plan.layout().len() > 0 implies has_group(
                after,
                now[i].plan.layout(),
            ) by {
                if i < done.len() {
                    assert(done[i] == now[i]);
                    assert(has_group(before, now[i].plan.layout()));
                    let g = choose|g: int|
                        0 <= g < before.len() && texts((#[trigger] before[g]).sections@)
                            == now[i].plan.layout();
                    assert(texts(after[g].sections@) == now[i].plan.layout());
                } else {
                    assert(texts(after[at as int].sections@) == layout);
                }
            }
        }
    } else {
        let mut items: Vec<PlannedBodyFetch> = Vec::new();
        items.push(item);
        proof {
            assert(!has_group(before, layout)) by {
                if has_group(before, layout) {
                    let g = choose|g: int|
                        0 <= g < before.len() && texts((#[trigger] before[g]).sections@)
                            == layout;
                    if g < at {
                        assert(layout_before(texts(before[g].sections@), layout));
                    } else if g > at {
                        assert(layout_before(
                            texts(before[at as int].sections@),
                            texts(before[g].sections@),
                        ));
                        assert(layout_le(layout, texts(before[at as int].sections@)));
                        lemma_layout_total(layout, texts(before[at as int].sections@));
                    }
                }
            }
            assert forall|i: int| 0 <= i < done.len() implies (#[trigger] done[i]).plan.layout()
                != layout by {
                if done[i].plan.layout() == layout {
                    assert(has_group(before, layout));
                }
            }
            lemma_no_layout(done, layout);
            lemma_with_layout_push(done, item, layout);
            assert(with_layout(now, layout) =~= seq![item]);
        }
        groups.insert(at, LayoutGroup { sections, items });
        proof {
            let after = groups@;
            assert forall|g: int| 0 <= g < after.len() implies is_group(
                now,
                #[trigger] after[g],
            ) by {
                if g != at {
                    let o = if g < at {
                        g
                    } else {
                        g - 1
                    };
                    assert(after[g] == before[o]);
                    assert(is_group(done, before[o]));
                    lemma_with_layout_push(done, item, texts(after[g].sections@));
                    assert(texts(before[o].sections@) != layout) by {
                        if texts(before[o].sections@) == layout {
                            assert(has_group(before, layout));
                        }
                    }
                } else {
                    assert(after[g].items@ =~= seq![item]);
                }
            }
            assert forall|g: int, h: int|
                #![trigger after[g], after[h]]
                0 <= g < h < after.len() implies layout_before(
                texts(after[g].sections@),
                texts(after[h].sections@),
            ) by {
                let og = if g < at {
                    g
                } else {
                    g - 1
                };
                let oh = if h < at {
                    h
                } else {
                    h - 1
                };
                if g == at {
                    assert(after[h] == before[oh]);
                    assert(layout_le(layout, texts(before[oh].sections@)));
                    if texts(before[oh].sections@) == layout {
                        assert(has_group(before, layout));
                    }
                } else if h == at {
                    assert(after[g] == before[og]);
                    assert(layout_before(texts(before[og].sections@), layout));
                } else {
                    assert(after[g] == before[og] && after[h] == before[oh]);
                    assert(layout_before(
                        texts(before[og].sections@),
                        texts(before[oh].sections@),
                    ));
                }
            }
            assert forall|i: int|
                0 <= i < now.len() && (#[trigger] now[i]).plan.layout().len() > 0 implies has_group(
                after,
                now[i].plan.layout(),
            ) by {
                if i < done.len() {
                    assert(done[i] == now[i]);
                    assert(has_group(before, now[i].plan.layout()));
                    let g = choose|g: int|
                        0 <= g < before.len() && texts((#[trigger] before[g]).sections@)
                            == now[i].plan.layout();
                    let n = if g < at {
                        g
                    } else {
                        g + 1
                    };
                    assert(after[n] == before[g]);
                    assert(texts(after[n].sections@) == now[i].plan.layout());
                } else {
                    assert(texts(after[at as int].sections@) == layout);
                }
            }
        }
    }
}

proof fn lemma_grouping_skips(
    done: Seq<PlannedBodyFetch>,
    item: PlannedBodyFetch,
    groups: Seq<LayoutGroup>,
)
    requires
        is_grouping(done, groups),
        item.plan.layout().len() == 0,
    ensures
        is_grouping(done.push(item), groups),
{
    let now = done.push(item);
    assert forall|g: int| 0 <= g < groups.len() implies is_group(now, #[trigger] groups[g]) by {
        assert(is_group(done, groups[g]));
        lemma_with_layout_push(done, item, texts(groups[g].sections@));
        assert(texts(groups[g].sections@).len() > 0);
    }
    assert forall|i: int|
        0 <= i < now.len() && (#[trigger] now[i]).plan.layout().len() > 0 implies has_group(
        groups,
        now[i].plan.layout(),
    ) by {
        assert(done[i] == now[i]);
    }
}

/// The messages of a chunk in groups of one layout each, and those with nothing
/// readable in them.
pub fn group_by_layout(planned: Vec<PlannedBodyFetch>) -> (r: (
    Vec<LayoutGroup>,
    Vec<ContentFailure>,
))
    ensures
        is_grouping(planned@, r.0@),
        failure_views(r.1@) == unreadable(planned@),
{
    let ghost all = planned@;
    let mut rest: Vec<PlannedBodyFetch> = planned;
    let mut stack: Vec<PlannedBodyFetch> = Vec::new();
    proof {
        assert(all.take(all.len() as int) =~= all);
        assert(all.skip(all.len() as int).reverse() =~= Seq::empty());
    }
    while rest.len() > 0
        invariant
            rest@.len() <= all.len(),
            rest@ == all.take(rest@.len() as int),
            stack@ == all.skip(rest@.len() as int).reverse(),
        decreases rest@.len(),
    {
        let ghost n = rest@.len() as int;
        if let Some(item) = rest.pop() {
            stack.push(item);
            proof {
                assert(rest@ =~= all.take(n - 1));
                assert(all.skip(n - 1).reverse() =~= all.skip(n).reverse().push(all[n - 1]));
            }
        }
    }
    let mut groups: Vec<LayoutGroup> = Vec::new();
    let mut failures: Vec<ContentFailure> = Vec::new();
    proof {
        assert(all.skip(0) =~= all);
        assert(failure_views(failures@) =~= Seq::empty());
        assert(all.take(0) =~= Seq::empty());
    }
    while stack.len() > 0
        invariant
            stack@.len() <= all.len(),
            stack@ == all.skip(all.len() - stack@.len()).reverse(),
            is_grouping(all.take(all.len() - stack@.len()), groups@),
            failure_views(failures@) == unreadable(all.take(all.len() - stack@.len())),
        decreases stack@.len(),
    {
        let ghost k = all.len() - stack@.len();
        let ghost failed = failures@;
        let ghost done = all.take(k);
        proof {
            assert(all.take(k + 1).drop_last() =~= done);
            assert(all.take(k + 1) =~= done.push(all[k]));
        }
        if let Some(item) = stack.pop() {
            proof {
                assert(item == all[k]);
                assert(stack@ =~= all.skip(k + 1).reverse());
            }
            if item.plan.text_sections.len() == 0 {
                proof {
                    lemma_grouping_skips(done, item, groups@);
                }
                failures.push(
                    (item.message_id, owned("BODYSTRUCTURE contains no readable text sections")),
                );
                proof {
                    assert(failure_views(failures@) =~= failure_views(failed).push(
                        (
                            item.message_id,
                            "BODYSTRUCTURE contains no readable text sections"@,
                        ),
                    ));
                }
            } else {
                add_to_group(&mut groups, item, Ghost(done));
            }
        }
    }
    proof {
        assert(all.take(all.len() as int) =~= all);
    }
    (groups, failures)
}

} // verus!
