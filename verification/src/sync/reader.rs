//! The reader that fetches what the user opens: which requests go together,
//! and whether a folder on the server is still the one that the rows name.

use vstd::prelude::*;

use crate::error::{CoreError, ErrorView};
use crate::lists::{lemma_ends, lemma_pushed, push_new, with_all_new};
use crate::sort::{ascends, comes_before, is_stable_order, sorted_distinct, stable_order};
use crate::sync::folders::{same_validity, Folder, Selected};
use crate::text::{concat2, concat3, decimal_int, i64_text, owned};

verus! {

/// Priority reads stay small so opening one thread never monopolizes the
/// dedicated reader connection.
pub const PRIORITY_BODY_FETCH_CHUNK: usize = 25;

/// A read is tried on the session at hand and then once on a fresh one.
pub const READ_ATTEMPTS: u8 = 2;

#[derive(Debug, Clone, Copy, PartialEq, Eq, Structural)]
pub enum PriorityFetchCmd {
    Body(i64),
    Attachment { attachment_id: i64 },
}

// ---------------------------------------------------------------------------
// Attempts
// ---------------------------------------------------------------------------

/// What the reader does next for a request.
#[derive(Debug, Clone, Copy, PartialEq, Eq, Structural)]
pub enum ReadStage {
    Connect,
    Read,
    Done,
    /// What was asked for is released, so that a reopen or the background can
    /// pick it up.
    GaveUp,
}

#[derive(Debug, Clone, Copy, PartialEq, Eq, Structural)]
pub enum ReadEvent {
    Succeeded,
    Failed,
}

/// One request on the reader's connection. The session at hand is tried first;
/// if it's gone stale (servers close idle connections), the read fails, so it
/// is dropped and the read retried once on a fresh connection. Without the
/// retry the skeleton would hang forever: nothing re-nudges the request until
/// the user reopens the thread.
#[derive(Debug, Clone, Copy, PartialEq, Eq, Structural)]
pub struct ReadTry {
    pub stage: ReadStage,
    /// Reads that have failed.
    pub failed: u8,
}

impl ReadTry {
    pub open spec fn is_over(self) -> bool {
        self.stage is Done || self.stage is GaveUp
    }

    pub open spec fn sound(self) -> bool {
        self.failed <= READ_ATTEMPTS && (!self.is_over() ==> self.failed < READ_ATTEMPTS)
    }

    /// How many answers there can still be.
    pub open spec fn answers_left(self) -> int {
        match self.stage {
            ReadStage::Connect => 2 * (READ_ATTEMPTS - self.failed),
            ReadStage::Read => 2 * (READ_ATTEMPTS - self.failed) - 1,
            _ => 0,
        }
    }

    pub fn begin(has_session: bool) -> (r: ReadTry)
        ensures
            r.sound(),
            r.failed == 0,
            r.stage == (if has_session {
                ReadStage::Read
            } else {
                ReadStage::Connect
            }),
    {
        ReadTry {
            stage: if has_session {
                ReadStage::Read
            } else {
                ReadStage::Connect
            },
            failed: 0,
        }
    }

    /// Takes in how it went. It comes to an end: every answer leaves fewer to
    /// wait for.
    pub fn step(&mut self, e: ReadEvent)
        requires
            old(self).sound(),
            !old(self).is_over(),
        ensures
            final(self).sound(),
            final(self).failed == (if old(self).stage is Read && e is Failed {
                old(self).failed + 1
            } else {
                old(self).failed as int
            }),
            final(self).stage == (match (old(self).stage, e) {
                (ReadStage::Connect, ReadEvent::Succeeded) => ReadStage::Read,
                (ReadStage::Connect, ReadEvent::Failed) => ReadStage::GaveUp,
                (_, ReadEvent::Succeeded) => ReadStage::Done,
                (_, ReadEvent::Failed) => if old(self).failed + 1 < READ_ATTEMPTS {
                    ReadStage::Connect
                } else {
                    ReadStage::GaveUp
                },
            }),
            final(self).answers_left() < old(self).answers_left(),
            final(self).stage is Done <==> old(self).stage is Read && e is Succeeded,
            old(self).stage is Read && e is Failed && old(self).failed == 0 ==> final(self).stage
                is Connect,
            old(self).stage is Read && e is Failed && old(self).failed == 1 ==> final(self).stage
                is GaveUp,
    {
        match (self.stage, e) {
            (ReadStage::Connect, ReadEvent::Succeeded) => {
                self.stage = ReadStage::Read;
            },
            (ReadStage::Connect, ReadEvent::Failed) => {
                self.stage = ReadStage::GaveUp;
            },
            (_, ReadEvent::Succeeded) => {
                self.stage = ReadStage::Done;
            },
            (_, ReadEvent::Failed) => {
                self.failed = self.failed + 1;
                self.stage = if self.failed < READ_ATTEMPTS {
                    ReadStage::Connect
                } else {
                    ReadStage::GaveUp
                };
            },
        }
    }
}

// ---------------------------------------------------------------------------
// Coalescing
// ---------------------------------------------------------------------------

/// The bodies that go into one batch with `first`: those that were asked for
/// next, up to the size of a batch.
pub open spec fn batched(first: i64, cmds: Seq<PriorityFetchCmd>) -> Seq<i64>
    decreases cmds.len(),
{
    if cmds.len() == 0 {
        seq![first]
    } else {
        let rest = batched(first, cmds.drop_last());
        match cmds.last() {
            PriorityFetchCmd::Body(id) if rest.len() < PRIORITY_BODY_FETCH_CHUNK => rest.push(id),
            _ => rest,
        }
    }
}

/// The requests that wait: attachments, and bodies that did not fit, in order.
pub open spec fn deferred(first: i64, cmds: Seq<PriorityFetchCmd>) -> Seq<PriorityFetchCmd>
    decreases cmds.len(),
{
    if cmds.len() == 0 {
        Seq::empty()
    } else {
        let rest = deferred(first, cmds.drop_last());
        match cmds.last() {
            PriorityFetchCmd::Body(_) if batched(first, cmds.drop_last()).len()
                < PRIORITY_BODY_FETCH_CHUNK => rest,
            c => rest.push(c),
        }
    }
}

/// One batch of bodies, and the requests that wait.
#[derive(Debug, Clone)]
pub struct Coalesced {
    pub ids: Vec<i64>,
    pub deferred: Vec<PriorityFetchCmd>,
}

/// Coalesce every request already queued into ONE batch, so opening a thread
/// pulls all its bodies in a single FETCH round-trip instead of one per
/// message. Opening a single message just fetches that one. The ids come in
/// ascending order, each once.
pub fn coalesce(first: i64, cmds: &Vec<PriorityFetchCmd>) -> (r: Coalesced)
    ensures
        ascends(r.ids@),
        forall|x: i64| #[trigger] r.ids@.contains(x) <==> batched(first, cmds@).contains(x),
        r.deferred@ == deferred(first, cmds@),
{
    let mut ids: Vec<i64> = Vec::new();
    ids.push(first);
    let mut waiting: Vec<PriorityFetchCmd> = Vec::new();
    let mut i: usize = 0;
    proof {
        assert(ids@ =~= seq![first]);
    }
    while i < cmds.len()
        invariant
            i <= cmds@.len(),
            ids@ == batched(first, cmds@.take(i as int)),
            waiting@ == deferred(first, cmds@.take(i as int)),
        decreases cmds@.len() - i,
    {
        proof {
            assert(cmds@.take(i + 1).drop_last() =~= cmds@.take(i as int));
        }
        match cmds[i] {
            PriorityFetchCmd::Body(id) => {
                if ids.len() < PRIORITY_BODY_FETCH_CHUNK {
                    ids.push(id);
                } else {
                    waiting.push(cmds[i]);
                }
            },
            c => {
                waiting.push(c);
            },
        }
        i = i + 1;
    }
    proof {
        assert(cmds@.take(cmds@.len() as int) =~= cmds@);
    }
    Coalesced { ids: sorted_distinct(&ids), deferred: waiting }
}

/// No request is lost: a body that was asked for is in the batch or waits, and
/// an attachment waits.
pub proof fn coalescing_loses_nothing(first: i64, cmds: Seq<PriorityFetchCmd>, i: int)
    requires
        0 <= i < cmds.len(),
    ensures
        batched(first, cmds).contains(first),
        cmds[i] matches PriorityFetchCmd::Body(id) ==> batched(first, cmds).contains(id)
            || deferred(first, cmds).contains(cmds[i]),
        cmds[i] is Attachment ==> deferred(first, cmds).contains(cmds[i]),
        batched(first, cmds).len() <= PRIORITY_BODY_FETCH_CHUNK,
    decreases cmds.len(),
{
    lemma_batch_keeps(first, cmds);
    let rest = cmds.drop_last();
    if i < rest.len() {
        coalescing_loses_nothing(first, rest, i);
        assert(rest[i] == cmds[i]);
        if deferred(first, rest).contains(cmds[i]) {
            let k = choose|k: int|
                0 <= k < deferred(first, rest).len() && deferred(first, rest)[k] == cmds[i];
            assert(deferred(first, cmds)[k] == cmds[i]);
        }
        if let PriorityFetchCmd::Body(id) = cmds[i] {
            if batched(first, rest).contains(id) {
                let k = choose|k: int|
                    0 <= k < batched(first, rest).len() && batched(first, rest)[k] == id;
                assert(batched(first, cmds)[k] == id);
            }
        }
    } else {
        match cmds.last() {
            PriorityFetchCmd::Body(id) if batched(first, rest).len()
                < PRIORITY_BODY_FETCH_CHUNK => {
                assert(batched(first, cmds)[batched(first, rest).len() as int] == id);
            },
            c => {
                assert(deferred(first, cmds)[deferred(first, rest).len() as int] == c);
            },
        }
    }
}

/// A body waits only where the batch is full, at twenty-five bodies; nothing is
/// fetched and nothing waits that was not asked for.
pub proof fn bodies_wait_only_for_a_full_batch(first: i64, cmds: Seq<PriorityFetchCmd>)
    ensures
        forall|c: PriorityFetchCmd| #[trigger]
            deferred(first, cmds).contains(c) ==> cmds.contains(c) && (c is Body ==> batched(
                first,
                cmds,
            ).len() == 25),
        forall|id: i64| #[trigger]
            batched(first, cmds).contains(id) ==> id == first || cmds.contains(
                PriorityFetchCmd::Body(id),
            ),
        1 <= batched(first, cmds).len() <= 25,
    decreases cmds.len(),
{
    lemma_batch_keeps(first, cmds);
    if cmds.len() > 0 {
        let rest = cmds.drop_last();
        bodies_wait_only_for_a_full_batch(first, rest);
        lemma_ends(cmds);
        lemma_pushed(deferred(first, rest), cmds.last());
        if let PriorityFetchCmd::Body(id) = cmds.last() {
            lemma_pushed(batched(first, rest), id);
        }
        assert forall|c: PriorityFetchCmd| #[trigger] deferred(first, cmds).contains(
            c,
        ) implies cmds.contains(c) && (c is Body ==> batched(first, cmds).len() == 25) by {
            if deferred(first, rest).contains(c) {
                assert(rest.contains(c));
            }
        }
        assert forall|id: i64| #[trigger] batched(first, cmds).contains(id) implies id == first
            || cmds.contains(PriorityFetchCmd::Body(id)) by {
            if batched(first, rest).contains(id) && id != first {
                assert(rest.contains(PriorityFetchCmd::Body(id)));
            }
        }
    } else {
        assert(batched(first, cmds) =~= seq![first]);
    }
}

proof fn lemma_batch_keeps(first: i64, cmds: Seq<PriorityFetchCmd>)
    ensures
        1 <= batched(first, cmds).len() <= PRIORITY_BODY_FETCH_CHUNK,
        batched(first, cmds)[0] == first,
        batched(first, cmds).contains(first),
    decreases cmds.len(),
{
    if cmds.len() > 0 {
        lemma_batch_keeps(first, cmds.drop_last());
    }
    assert(batched(first, cmds)[0] == first);
}

// ---------------------------------------------------------------------------
// Grouping by folder
// ---------------------------------------------------------------------------

/// A message whose body was asked for, as its row has it now.
#[derive(Debug, Clone)]
pub struct BodyRequest {
    pub message_id: i64,
    pub row: Option<RequestRow>,
}

#[derive(Debug, Clone)]
pub struct RequestRow {
    pub body_state: String,
    pub folder_id: Option<i64>,
    pub uid: Option<i64>,
}

/// A body to fetch.
#[derive(Debug, Clone, Copy, PartialEq, Eq, Structural)]
pub struct Wanted {
    pub folder_id: i64,
    pub uid: u32,
    pub message_id: i64,
}

/// What a request comes to: nothing where the message is gone or its body is
/// there already, a fetch where it has a place on the server.
pub open spec fn wanted_of(q: BodyRequest) -> Option<Wanted> {
    match q.row {
        Some(RequestRow { body_state, folder_id: Some(folder_id), uid: Some(uid) }) => if body_state@
            != "cached"@ {
            Some(Wanted { folder_id, uid: uid as u32, message_id: q.message_id })
        } else {
            None
        },
        _ => None,
    }
}

/// A local-only/orphaned row cannot be fetched remotely, so it is released
/// instead of leaving an endless skeleton.
pub open spec fn is_released(q: BodyRequest) -> bool {
    q.row matches Some(r) && r.body_state@ != "cached"@ && (r.folder_id is None || r.uid is None)
}

pub open spec fn all_wanted(qs: Seq<BodyRequest>) -> Seq<Wanted>
    decreases qs.len(),
{
    if qs.len() == 0 {
        Seq::empty()
    } else {
        match wanted_of(qs.last()) {
            Some(w) => all_wanted(qs.drop_last()).push(w),
            None => all_wanted(qs.drop_last()),
        }
    }
}

pub open spec fn all_released(qs: Seq<BodyRequest>) -> Seq<i64>
    decreases qs.len(),
{
    if qs.len() == 0 {
        Seq::empty()
    } else if is_released(qs.last()) {
        all_released(qs.drop_last()).push(qs.last().message_id)
    } else {
        all_released(qs.drop_last())
    }
}

/// A body is fetched exactly where the message is there, has a place on the server
/// and is not cached yet, under its own id and from its own place; it is released
/// exactly where it is not cached and has no such place.
pub proof fn opened_messages_are_fetched_or_released(qs: Seq<BodyRequest>)
    ensures
        forall|w: Wanted| #[trigger]
            all_wanted(qs).contains(w) <==> exists|i: int|
                0 <= i < qs.len() && (#[trigger] qs[i]).message_id == w.message_id && qs[i].row
                    is Some && qs[i].row->0.body_state@ != "cached"@ && qs[i].row->0.folder_id
                    == Some(w.folder_id) && qs[i].row->0.uid is Some && w.uid
                    == qs[i].row->0.uid->0 as u32,
        forall|id: i64| #[trigger]
            all_released(qs).contains(id) <==> exists|i: int|
                0 <= i < qs.len() && (#[trigger] qs[i]).message_id == id && qs[i].row is Some
                    && qs[i].row->0.body_state@ != "cached"@ && (qs[i].row->0.folder_id is None
                    || qs[i].row->0.uid is None),
    decreases qs.len(),
{
    if qs.len() > 0 {
        let n = qs.len() - 1;
        let front = qs.drop_last();
        opened_messages_are_fetched_or_released(front);
        assert(forall|i: int| 0 <= i < n ==> front[i] == #[trigger] qs[i]);
        assert(qs[n] == qs.last());
        let rest = all_wanted(front);
        let all = all_wanted(qs);
        if let Some(w) = wanted_of(qs[n]) {
            lemma_pushed(rest, w);
        }
        assert forall|w: Wanted| #[trigger] all.contains(w) <==> exists|i: int|
            0 <= i < qs.len() && wanted_of(#[trigger] qs[i]) == Some(w) by {
            if rest.contains(w) {
                let i = choose|i: int|
                    0 <= i < front.len() && wanted_of(#[trigger] front[i]) == Some(w);
                assert(wanted_of(qs[i]) == Some(w));
            }
            if exists|i: int| 0 <= i < qs.len() && wanted_of(#[trigger] qs[i]) == Some(w) {
                let i = choose|i: int| 0 <= i < qs.len() && wanted_of(#[trigger] qs[i]) == Some(w);
                if i < n {
                    assert(wanted_of(front[i]) == Some(w));
                }
            }
        }
        assert forall|w: Wanted| #[trigger] all.contains(w) <==> exists|i: int|
            0 <= i < qs.len() && (#[trigger] qs[i]).message_id == w.message_id && qs[i].row is Some
                && qs[i].row->0.body_state@ != "cached"@ && qs[i].row->0.folder_id == Some(
                w.folder_id,
            ) && qs[i].row->0.uid is Some && w.uid == qs[i].row->0.uid->0 as u32 by {
            assert forall|i: int| 0 <= i < qs.len() implies (wanted_of(#[trigger] qs[i]) == Some(w)
                <==> qs[i].message_id == w.message_id && qs[i].row is Some
                && qs[i].row->0.body_state@ != "cached"@ && qs[i].row->0.folder_id == Some(
                w.folder_id,
            ) && qs[i].row->0.uid is Some && w.uid == qs[i].row->0.uid->0 as u32) by {}
        }
        let before = all_released(front);
        lemma_pushed(before, qs[n].message_id);
        assert forall|id: i64| #[trigger] all_released(qs).contains(id) <==> exists|i: int|
            0 <= i < qs.len() && (#[trigger] qs[i]).message_id == id && qs[i].row is Some
                && qs[i].row->0.body_state@ != "cached"@ && (qs[i].row->0.folder_id is None
                || qs[i].row->0.uid is None) by {
            if before.contains(id) {
                let i = choose|i: int|
                    0 <= i < front.len() && (#[trigger] front[i]).message_id == id && front[i].row
                        is Some && front[i].row->0.body_state@ != "cached"@ && (
                    front[i].row->0.folder_id is None || front[i].row->0.uid is None);
                assert(qs[i].message_id == id);
            }
            if exists|i: int|
                0 <= i < qs.len() && (#[trigger] qs[i]).message_id == id && is_released(qs[i]) {
                let i = choose|i: int|
                    0 <= i < qs.len() && (#[trigger] qs[i]).message_id == id && is_released(qs[i]);
                if i < n {
                    assert(front[i].message_id == id);
                }
            }
            if all_released(qs).contains(id) && !before.contains(id) {
                assert(qs[n].message_id == id);
            }
        }
    }
}

/// The bodies of one folder, in the order in which they were asked for.
pub open spec fn in_folder(ws: Seq<Wanted>, folder_id: i64) -> Seq<Wanted>
    decreases ws.len(),
{
    if ws.len() == 0 {
        Seq::empty()
    } else if ws.last().folder_id == folder_id {
        in_folder(ws.drop_last(), folder_id).push(ws.last())
    } else {
        in_folder(ws.drop_last(), folder_id)
    }
}

/// The UIDs of bodies.
pub open spec fn uids_of(ws: Seq<Wanted>) -> Seq<i64> {
    ws.map_values(|w: Wanted| w.uid as i64)
}

/// The bodies of one folder in ascending order of their UIDs.
pub open spec fn is_uid_ordered(ws: Seq<Wanted>, out: Seq<Wanted>) -> bool {
    exists|order: Seq<usize>|
        #[trigger] is_stable_order(uids_of(ws), order) && order.len() == ws.len()
            && out == order.map_values(|i: usize| ws[i as int])
}

/// What goes out for a folder are the bodies that lie in it, all of them, in
/// ascending order of their UIDs.
pub proof fn folders_fetch_their_own_bodies(
    ws: Seq<Wanted>,
    folder_id: i64,
    out: Seq<Wanted>,
)
    requires
        ws.len() <= usize::MAX,
        is_uid_ordered(in_folder(ws, folder_id), out),
    ensures
        forall|w: Wanted| #[trigger]
            out.contains(w) <==> ws.contains(w) && w.folder_id == folder_id,
        forall|x: int, y: int|
            #![trigger out[x], out[y]]
            0 <= x < y < out.len() ==> out[x].uid <= out[y].uid,
{
    let own = in_folder(ws, folder_id);
    lemma_in_folder(ws, folder_id);
    let order = choose|order: Seq<usize>|
        #[trigger] is_stable_order(uids_of(own), order) && order.len() == own.len() && out
            == order.map_values(|i: usize| own[i as int]);
    assert forall|w: Wanted| #[trigger] out.contains(w) <==> own.contains(w) by {
        if out.contains(w) {
            let k = out.index_of(w);
            assert(order.contains(order[k]));
            assert(own[order[k] as int] == w);
        }
        if own.contains(w) {
            let i = own.index_of(w);
            assert(order.contains(i as usize));
            let k = order.index_of(i as usize);
            assert(out[k] == w);
        }
    }
    assert forall|x: int, y: int|
        #![trigger out[x], out[y]]
        0 <= x < y < out.len() implies out[x].uid <= out[y].uid by {
        assert(comes_before(uids_of(own), order[x], order[y]));
        assert(order.contains(order[x]) && order.contains(order[y]));
    }
}

proof fn lemma_in_folder(ws: Seq<Wanted>, folder_id: i64)
    ensures
        forall|w: Wanted| #[trigger]
            in_folder(ws, folder_id).contains(w) <==> ws.contains(w) && w.folder_id == folder_id,
        in_folder(ws, folder_id).len() <= ws.len(),
    decreases ws.len(),
{
    if ws.len() > 0 {
        lemma_in_folder(ws.drop_last(), folder_id);
        lemma_ends(ws);
        lemma_pushed(in_folder(ws.drop_last(), folder_id), ws.last());
    }
}

/// The requests of a batch: the folders to select, with the bodies to fetch in
/// each, and the messages to release.
#[derive(Debug, Clone)]
pub struct BatchPlan {
    pub folders: Vec<i64>,
    pub items: Vec<Vec<Wanted>>,
    pub released: Vec<i64>,
}

fn want(q: &BodyRequest) -> (r: Option<Wanted>)
    ensures
        r == wanted_of(*q),
{
    match &q.row {
        Some(row) => {
            if row.body_state.as_str().eq("cached") {
                return None;
            }
            match (row.folder_id, row.uid) {
                (Some(folder_id), Some(uid)) => Some(
                    Wanted {
                        folder_id,
                        uid: #[verifier::truncate]
                        (uid as u32),
                        message_id: q.message_id,
                    },
                ),
                _ => None,
            }
        },
        None => None,
    }
}

fn releases(q: &BodyRequest) -> (r: bool)
    ensures
        r == is_released(*q),
{
    match &q.row {
        Some(row) => !row.body_state.as_str().eq("cached") && (row.folder_id.is_none()
            || row.uid.is_none()),
        None => false,
    }
}

fn folder_items(ws: &Vec<Wanted>, folder_id: i64) -> (r: Vec<Wanted>)
    ensures
        is_uid_ordered(in_folder(ws@, folder_id), r@),
{
    let mut here: Vec<Wanted> = Vec::new();
    let mut keys: Vec<i64> = Vec::new();
    let mut i: usize = 0;
    while i < ws.len()
        invariant
            i <= ws@.len(),
            here@ == in_folder(ws@.take(i as int), folder_id),
            keys@ == uids_of(here@),
        decreases ws@.len() - i,
    {
        proof {
            assert(ws@.take(i + 1).drop_last() =~= ws@.take(i as int));
        }
        if ws[i].folder_id == folder_id {
            here.push(ws[i]);
            keys.push(ws[i].uid as i64);
            proof {
                assert(keys@ =~= uids_of(here@));
            }
        }
        i = i + 1;
    }
    proof {
        assert(ws@.take(ws@.len() as int) =~= ws@);
    }
    let order: Vec<usize> = stable_order(&keys);
    let mut out: Vec<Wanted> = Vec::new();
    let mut k: usize = 0;
    while k < order.len()
        invariant
            k <= order@.len(),
            order@.len() == here@.len(),
            keys@.len() == here@.len(),
            is_stable_order(keys@, order@),
            out@ == order@.take(k as int).map_values(|i: usize| here@[i as int]),
        decreases order@.len() - k,
    {
        proof {
            assert(order@.contains(order@[k as int]));
            assert(order@.take(k + 1) =~= order@.take(k as int).push(order@[k as int]));
        }
        out.push(here[order[k]]);
        k = k + 1;
        proof {
            assert(out@ =~= order@.take(k as int).map_values(|i: usize| here@[i as int]));
        }
    }
    proof {
        assert(order@.take(order@.len() as int) =~= order@);
        assert(is_stable_order(uids_of(here@), order@));
    }
    out
}

/// Group the requests by folder so each folder's UIDs go out together.
/// Idempotent: already-cached messages are skipped, so a retry after a partial
/// failure only refetches what's missing.
pub fn fetch_bodies_batch(requests: &Vec<BodyRequest>) -> (r: BatchPlan)
    ensures
        r.released@ == all_released(requests@),
        r.folders@ == with_all_new(
            Seq::<i64>::empty(),
            all_wanted(requests@).map_values(|w: Wanted| w.folder_id),
        ),
        r.items@.len() == r.folders@.len(),
        forall|k: int|
            0 <= k < r.folders@.len() ==> is_uid_ordered(
                in_folder(all_wanted(requests@), r.folders@[k]),
                (#[trigger] r.items@[k])@,
            ),
{
    let mut ws: Vec<Wanted> = Vec::new();
    let mut folders: Vec<i64> = Vec::new();
    let mut released: Vec<i64> = Vec::new();
    let mut i: usize = 0;
    while i < requests.len()
        invariant
            i <= requests@.len(),
            ws@ == all_wanted(requests@.take(i as int)),
            released@ == all_released(requests@.take(i as int)),
            folders@ == with_all_new(
                Seq::<i64>::empty(),
                ws@.map_values(|w: Wanted| w.folder_id),
            ),
        decreases requests@.len() - i,
    {
        let q: &BodyRequest = &requests[i];
        proof {
            assert(requests@.take(i + 1).drop_last() =~= requests@.take(i as int));
        }
        if releases(q) {
            released.push(q.message_id);
        }
        if let Some(w) = want(q) {
            let ghost before = ws@.map_values(|w: Wanted| w.folder_id);
            ws.push(w);
            push_new(&mut folders, w.folder_id);
            proof {
                let now = ws@.map_values(|w: Wanted| w.folder_id);
                assert(now.drop_last() =~= before);
                assert(now.last() == w.folder_id);
            }
        }
        i = i + 1;
    }
    proof {
        assert(requests@.take(requests@.len() as int) =~= requests@);
    }
    let mut items: Vec<Vec<Wanted>> = Vec::new();
    let mut k: usize = 0;
    while k < folders.len()
        invariant
            k <= folders@.len(),
            items@.len() == k,
            forall|j: int|
                0 <= j < k ==> is_uid_ordered(
                    in_folder(ws@, folders@[j]),
                    (#[trigger] items@[j])@,
                ),
        decreases folders@.len() - k,
    {
        items.push(folder_items(&ws, folders[k]));
        k = k + 1;
    }
    BatchPlan { folders, items, released }
}

// ---------------------------------------------------------------------------
// Attachments
// ---------------------------------------------------------------------------

/// Where an attachment's bytes are.
#[derive(Debug, Clone)]
pub struct AttachmentPlace {
    pub section: String,
    pub folder_id: i64,
    pub uid: i64,
}

/// The place of an attachment: its section, and the folder and UID of its
/// message. `message` is the folder and the UID of the message's row.
pub fn attachment_place(
    section: Option<String>,
    message_id: i64,
    message: Option<(Option<i64>, Option<i64>)>,
) -> (r: Result<AttachmentPlace, CoreError>)
    ensures
        match (section, message) {
            (None, _) => r is Err && r->Err_0@ == ErrorView::NotFound("attachment IMAP section"@),
            (Some(_), None) => r is Err && r->Err_0@ == ErrorView::NotFound(
                "message "@ + decimal_int(message_id as int),
            ),
            (Some(s), Some((Some(folder_id), Some(uid)))) => r == Ok::<AttachmentPlace, CoreError>(
                AttachmentPlace { section: s, folder_id, uid },
            ),
            _ => r is Err && r->Err_0@ == ErrorView::NotFound("remote attachment location"@),
        },
{
    let section: String = match section {
        Some(s) => s,
        None => return Err(CoreError::NotFound(owned("attachment IMAP section"))),
    };
    match message {
        None => {
            let number: String = i64_text(message_id);
            Err(CoreError::NotFound(concat2("message ", number.as_str())))
        },
        Some((Some(folder_id), Some(uid))) => Ok(AttachmentPlace { section, folder_id, uid }),
        _ => Err(CoreError::NotFound(owned("remote attachment location"))),
    }
}

// ---------------------------------------------------------------------------
// Selecting
// ---------------------------------------------------------------------------

/// An optional number the way it is printed in messages.
pub open spec fn opt_number(n: Option<i64>) -> Seq<char> {
    match n {
        Some(v) => "Some("@ + decimal_int(v as int) + ")"@,
        None => "None"@,
    }
}

fn opt_number_text(n: Option<i64>) -> (r: String)
    ensures
        r@ == opt_number(n),
{
    match n {
        Some(v) => {
            let number: String = i64_text(v);
            concat3("Some(", number.as_str(), ")")
        },
        None => owned("None"),
    }
}

/// The folder is still the one that was read before: the same name, and the
/// same meaning of its UIDs.
pub open spec fn is_unchanged(folder: Folder, current: Option<Folder>) -> bool {
    current matches Some(c) && c.imap_name@ == folder.imap_name@ && c.uidvalidity
        == folder.uidvalidity
}

pub fn folder_unchanged(folder: &Folder, current: Option<&Folder>) -> (r: bool)
    ensures
        r == is_unchanged(*folder, crate::actions::owned_ref(current)),
{
    match current {
        Some(c) => c.imap_name.as_str().eq(folder.imap_name.as_str()) && same_validity(
            c.uidvalidity,
            folder.uidvalidity,
        ),
        None => false,
    }
}

/// Why a folder is not read; where its UIDs have lost their meaning, whether
/// the saved ones are cleared.
#[derive(Debug, Clone)]
pub struct SelectRefusal {
    pub reset_uids: bool,
    pub error: CoreError,
}

/// Select a folder only while its persisted UID namespace still matches the
/// server. A mismatch invalidates every saved UID in that folder, so they are
/// cleared before any later read retries - unless the row has changed since
/// and speaks of another namespace already.
pub fn select_folder_for_remote_read(
    folder: &Folder,
    selected: Selected,
    current: Option<&Folder>,
) -> (r: Result<(), SelectRefusal>)
    ensures
        r is Ok <==> selected.uid_validity == folder.uidvalidity && is_unchanged(
            *folder,
            crate::actions::owned_ref(current),
        ),
        selected.uid_validity != folder.uidvalidity ==> r is Err && r->Err_0.reset_uids
            == is_unchanged(*folder, crate::actions::owned_ref(current)) && r->Err_0.error@
            == ErrorView::Imap(
            "folder UIDVALIDITY changed before remote read: expected "@ + opt_number(
                folder.uidvalidity,
            ) + ", selected "@ + opt_number(selected.uid_validity),
        ),
        selected.uid_validity == folder.uidvalidity && r is Err ==> !r->Err_0.reset_uids
            && r->Err_0.error@ == ErrorView::NotFound(
            "folder changed while selecting remote mailbox"@,
        ),
{
    let unchanged: bool = folder_unchanged(folder, current);
    if !same_validity(selected.uid_validity, folder.uidvalidity) {
        let expected: String = opt_number_text(folder.uidvalidity);
        let found: String = opt_number_text(selected.uid_validity);
        let mut message: String = concat3(
            "folder UIDVALIDITY changed before remote read: expected ",
            expected.as_str(),
            ", selected ",
        );
        message.push_str(found.as_str());
        return Err(SelectRefusal { reset_uids: unchanged, error: CoreError::Imap(message) });
    }
    if unchanged {
        Ok(())
    } else {
        Err(
            SelectRefusal {
                reset_uids: false,
                error: CoreError::NotFound(
                    owned("folder changed while selecting remote mailbox"),
                ),
            },
        )
    }
}

} // verus!
