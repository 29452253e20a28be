//! One cycle of an account and one visit to a folder.
//!
//! A cycle performs nothing itself. It says what to do next, is told how that
//! went, and ends with whether another pass is due at once.

use vstd::prelude::*;

use crate::lists::{lemma_ends, lemma_pushed};
use crate::models::roles::{ALL, INBOX};
use crate::models::Provider;
use crate::sort::is_stable_order;
use crate::sync::folders::{
    can_scan, discovers_folders, ends_at_inbox, first_sync, first_unused, forward_scan, is_scan,
    lacks_history, needs_history, next_baseline, notify_from, ordered_folders, ranks, reconciles,
    uids_invalid, uidvalidity_changed, CycleOrder, FirstSync, Folder, ForwardScan, InboxBaseline,
    Selected,
};

verus! {

// ---------------------------------------------------------------------------
// The cycle
// ---------------------------------------------------------------------------

/// What a cycle does next.
#[derive(Debug, Clone, Copy, PartialEq, Eq, Structural)]
pub enum CycleStage {
    /// Look for folders on the server.
    Discover,
    /// Read the folders from the store.
    List,
    /// Sync the inbox, which is the folder at this position.
    Inbox(usize),
    /// Tell the user that the mail is up to date.
    Announce,
    /// Replay a slice of queued actions.
    Actions,
    /// Sync the folder at this place of the later visits.
    Later(usize),
    /// Drop old finished actions.
    Collect,
    /// Nothing: the cycle is over.
    Ended { again: bool },
}

/// How the last step went.
#[derive(Debug, Clone)]
pub enum CycleEvent {
    Done,
    Listed(CycleOrder),
    /// A folder was synced; in the inbox there may be more new mail.
    Synced { remaining: bool },
    ActionsRun { due_remaining: bool },
}

#[derive(Debug, Clone)]
pub struct Cycle {
    pub stage: CycleStage,
    /// Flags and expunges are reconciled too.
    pub heavy: bool,
    pub foreground_only: bool,
    pub inbox: Option<usize>,
    pub inbox_synced: bool,
    pub inbox_remaining: bool,
    pub later: Vec<usize>,
}

impl Cycle {
    /// The event is an answer to what the cycle does.
    pub open spec fn awaits(self, e: CycleEvent) -> bool {
        match self.stage {
            CycleStage::Discover | CycleStage::Announce | CycleStage::Collect => e is Done,
            CycleStage::List => e is Listed,
            CycleStage::Inbox(_) | CycleStage::Later(_) => e is Synced,
            CycleStage::Actions => e is ActionsRun,
            CycleStage::Ended { .. } => false,
        }
    }

    /// The later visit at this place, or the end of the visits.
    pub open spec fn visit_at(self, k: int) -> CycleStage {
        if k < self.later@.len() {
            CycleStage::Later(k as usize)
        } else {
            CycleStage::Collect
        }
    }

    pub open spec fn stage_after(self, e: CycleEvent) -> CycleStage {
        match self.stage {
            CycleStage::Discover => CycleStage::List,
            CycleStage::List => match e->Listed_0.inbox {
                Some(i) => CycleStage::Inbox(i),
                None => CycleStage::Announce,
            },
            CycleStage::Inbox(_) => CycleStage::Announce,
            CycleStage::Announce => if self.foreground_only || self.inbox_remaining {
                CycleStage::Ended { again: true }
            } else {
                CycleStage::Actions
            },
            CycleStage::Actions => if e->due_remaining {
                CycleStage::Ended { again: true }
            } else {
                self.visit_at(0)
            },
            CycleStage::Later(k) => self.visit_at(k + 1),
            CycleStage::Collect => CycleStage::Ended { again: false },
            CycleStage::Ended { again } => CycleStage::Ended { again },
        }
    }

    /// Number of answers until the cycle is over, at most.
    pub open spec fn steps_left(self) -> int {
        match self.stage {
            CycleStage::Discover => 7int + self.later@.len(),
            CycleStage::List => 6int + self.later@.len(),
            CycleStage::Inbox(_) => 5int + self.later@.len(),
            CycleStage::Announce => 4int + self.later@.len(),
            CycleStage::Actions => 3int + self.later@.len(),
            CycleStage::Later(k) => 2int + self.later@.len() - k,
            CycleStage::Collect => 1,
            CycleStage::Ended { .. } => 0,
        }
    }

    /// Past the inbox, the inbox was synced if there is one; a later visit is
    /// to a folder of the list.
    pub open spec fn sound(self) -> bool {
        &&& self.stage is Announce || self.stage is Actions || self.stage is Later
            || self.stage is Collect ==> self.inbox is None || self.inbox_synced
        &&& self.stage matches CycleStage::Later(k) ==> k < self.later@.len()
        &&& self.stage is Discover || self.stage is List ==> self.later@.len() == 0
            && !self.inbox_synced
    }

    pub fn begin(cycle: u64, action_replay: bool, foreground_only: bool) -> (r: Cycle)
        ensures
            r.stage == (if !action_replay && cycle % 30 == 0 {
                CycleStage::Discover
            } else {
                CycleStage::List
            }),
            r.heavy == (!action_replay && cycle > 0 && cycle % 5 == 0),
            r.foreground_only == foreground_only,
            r.inbox is None,
            !r.inbox_synced,
            !r.inbox_remaining,
            r.later@.len() == 0,
            r.sound(),
    {
        let stage: CycleStage = if discovers_folders(cycle, action_replay) {
            CycleStage::Discover
        } else {
            CycleStage::List
        };
        Cycle {
            stage,
            heavy: reconciles(cycle, action_replay),
            foreground_only,
            inbox: None,
            inbox_synced: false,
            inbox_remaining: false,
            later: Vec::new(),
        }
    }

    /// Takes in how the last step went.
    pub fn advance(&mut self, e: CycleEvent)
        requires
            old(self).sound(),
            old(self).awaits(e),
        ensures
            final(self).stage == old(self).stage_after(e),
            final(self).sound(),
            final(self).heavy == old(self).heavy,
            final(self).foreground_only == old(self).foreground_only,
            final(self).inbox == (match e {
                CycleEvent::Listed(order) => order.inbox,
                _ => old(self).inbox,
            }),
            final(self).later == (match e {
                CycleEvent::Listed(order) => order.others,
                _ => old(self).later,
            }),
            final(self).inbox_synced == (old(self).inbox_synced || old(self).stage is Inbox),
            final(self).inbox_remaining == (if old(self).stage is Inbox {
                e->remaining
            } else {
                old(self).inbox_remaining
            }),
    {
        match self.stage {
            CycleStage::Discover => {
                self.stage = CycleStage::List;
            },
            CycleStage::List => {
                if let CycleEvent::Listed(order) = e {
                    self.stage = match order.inbox {
                        Some(i) => CycleStage::Inbox(i),
                        None => CycleStage::Announce,
                    };
                    self.inbox = order.inbox;
                    self.later = order.others;
                }
            },
            CycleStage::Inbox(_) => {
                if let CycleEvent::Synced { remaining } = e {
                    self.inbox_remaining = remaining;
                }
                self.inbox_synced = true;
                self.stage = CycleStage::Announce;
            },
            CycleStage::Announce => {
                self.stage = if ends_at_inbox(self.foreground_only, self.inbox_remaining) {
                    CycleStage::Ended { again: true }
                } else {
                    CycleStage::Actions
                };
            },
            CycleStage::Actions => {
                if let CycleEvent::ActionsRun { due_remaining } = e {
                    self.stage = if due_remaining {
                        CycleStage::Ended { again: true }
                    } else if self.later.len() > 0 {
                        CycleStage::Later(0)
                    } else {
                        CycleStage::Collect
                    };
                }
            },
            CycleStage::Later(k) => {
                let unvisited: usize = self.later.len() - k;
                self.stage = if unvisited > 1 {
                    CycleStage::Later(k + 1)
                } else {
                    CycleStage::Collect
                };
            },
            CycleStage::Collect => {
                self.stage = CycleStage::Ended { again: false };
            },
            CycleStage::Ended { .. } => {},
        }
    }
}

/// The inbox is synced before any queued action is replayed, so that a long
/// replay cannot hide mail that has just arrived: no answer leads a cycle to
/// its actions that has an inbox and has not synced it.
pub proof fn inbox_comes_before_actions(before: Cycle, e: CycleEvent)
    requires
        before.sound(),
        before.awaits(e),
        before.stage_after(e) is Actions,
    ensures
        before.stage is Announce,
        before.inbox is None || before.inbox_synced,
        !before.inbox_remaining,
{
}

/// What a cycle does in turn: it discovers, lists, syncs the inbox, announces it,
/// replays actions, visits the other folders one by one, and collects. It ends
/// early and is due again only where the caller waits for the inbox alone, where
/// the inbox has more new mail, or where actions are left.
pub proof fn cycles_run_in_order(c: Cycle, e: CycleEvent)
    requires
        c.sound(),
        c.awaits(e),
    ensures
        c.stage is Discover ==> c.stage_after(e) is List,
        c.stage is List && e->Listed_0.inbox is Some ==> c.stage_after(e) == CycleStage::Inbox(
            e->Listed_0.inbox->0,
        ),
        c.stage is List && e->Listed_0.inbox is None ==> c.stage_after(e) is Announce,
        c.stage is Inbox ==> c.stage_after(e) is Announce,
        c.stage is Announce && !c.foreground_only && !c.inbox_remaining ==> c.stage_after(e)
            is Actions,
        c.stage is Announce && (c.foreground_only || c.inbox_remaining) ==> c.stage_after(e)
            == (CycleStage::Ended { again: true }),
        c.stage is Actions && e->due_remaining ==> c.stage_after(e) == (CycleStage::Ended {
            again: true,
        }),
        c.stage is Actions && !e->due_remaining && c.later@.len() > 0 ==> c.stage_after(e)
            == CycleStage::Later(0),
        c.stage is Actions && !e->due_remaining && c.later@.len() == 0 ==> c.stage_after(e)
            is Collect,
        c.stage matches CycleStage::Later(k) ==> if k + 1 < c.later@.len() {
            c.stage_after(e) == CycleStage::Later((k + 1) as usize)
        } else {
            c.stage_after(e) is Collect
        },
        c.stage is Collect ==> c.stage_after(e) == (CycleStage::Ended { again: false }),
{
}

/// A cycle ends: every answer brings the end closer.
pub proof fn every_cycle_ends(before: Cycle, e: CycleEvent, after: Cycle)
    requires
        before.sound(),
        before.awaits(e),
        !(e is Listed) ==> after.later == before.later,
        after.stage == before.stage_after(e),
    ensures
        0 <= before.steps_left(),
        !(before.stage is List) ==> after.steps_left() < before.steps_left(),
        before.stage is List ==> after.steps_left() <= 5 + after.later@.len(),
{
    assert(before.later.len() == before.later@.len());
}

// ---------------------------------------------------------------------------
// A folder
// ---------------------------------------------------------------------------

/// What selecting a folder leads to before anything is fetched.
#[derive(Debug, Clone, Copy, PartialEq, Eq, Structural)]
pub struct SelectionPlan {
    /// The stored UIDs name other messages now and are forgotten.
    pub reset_uids: bool,
    pub baseline: Option<InboxBaseline>,
}

pub fn selection_plan(folder: &Folder, selected: Selected, baseline: Option<InboxBaseline>) -> (r:
    SelectionPlan)
    ensures
        r.reset_uids == uids_invalid(folder.uidvalidity, selected.uid_validity),
        !folder.has_role(INBOX@) ==> r.baseline == baseline,
        folder.has_role(INBOX@) ==> r.baseline == (if baseline is Some && !r.reset_uids
            && baseline->0.uid_validity == selected.uid_validity {
            baseline
        } else {
            Some(
                InboxBaseline {
                    uid_validity: selected.uid_validity,
                    first_live_uid: (first_unused(selected) as i64) as u32,
                },
            )
        }),
        r.reset_uids <==> folder.uidvalidity is Some && selected.uid_validity is Some
            && folder.uidvalidity->0 != selected.uid_validity->0,
{
    let is_inbox: bool = folder.is_role(INBOX);
    SelectionPlan {
        reset_uids: uidvalidity_changed(folder.uidvalidity, selected.uid_validity),
        baseline: next_baseline(baseline, is_inbox, folder.uidvalidity, selected),
    }
}

/// What a visit to a folder does, from its row as it is after the selection.
#[derive(Debug, Clone, Copy, PartialEq, Eq, Structural)]
pub struct VisitPlan {
    /// The folder is new: its history starts here, and nothing is fetched.
    pub first: Option<FirstSync>,
    /// The UIDs that are scanned for new mail.
    pub scan: Option<ForwardScan>,
    /// New mail from this UID on is told of.
    pub notify_from: Option<u32>,
    pub reconciles: bool,
    /// The walk through history has something to do.
    pub wakes_history: bool,
    /// There is more new mail than this visit scans.
    pub remaining: bool,
}

/// A folder that was never synced only marks where its history starts: the
/// walk through history owns what lies below, and later visits own what comes
/// above.
pub fn visit_plan(
    fresh: &Folder,
    selected: Selected,
    baseline: Option<InboxBaseline>,
    heavy: bool,
) -> (r: VisitPlan)
    requires
        fresh.backfill_cursor is Some ==> can_scan(fresh.last_seen_uid, selected),
    ensures
        fresh.backfill_cursor is None ==> {
            &&& r.first is Some
            &&& r.first->0.live_high == first_unused(selected) - 1
            &&& r.first->0.history_cursor == first_unused(selected)
            &&& r.first->0.history_done == (first_unused(selected) == 1)
            &&& r.scan is None
            &&& !r.reconciles
            &&& r.wakes_history
            &&& !r.remaining
        },
        fresh.backfill_cursor is Some ==> {
            &&& r.first is None
            &&& is_scan(fresh.last_seen_uid, selected, r.scan)
            &&& r.scan matches Some(s) ==> s.last_seen < u32::MAX
            &&& r.reconciles == heavy
            &&& r.wakes_history == !fresh.backfill_done
            &&& r.remaining == (r.scan is Some && r.scan->0.remaining)
        },
        r.notify_from == (if fresh.has_role(INBOX@) && baseline is Some {
            Some(baseline->0.first_live_uid)
        } else {
            None
        }),
        !fresh.has_role(INBOX@) ==> r.notify_from is None,
        r.first is Some <==> fresh.backfill_cursor is None,
        r.first is Some ==> r.scan is None && !r.remaining,
        !heavy ==> !r.reconciles,
{
    let notify: Option<u32> = notify_from(fresh.is_role(INBOX), baseline);
    if fresh.backfill_cursor.is_none() {
        return VisitPlan {
            first: Some(first_sync(selected)),
            scan: None,
            notify_from: notify,
            reconciles: false,
            wakes_history: true,
            remaining: false,
        };
    }
    let scan: Option<ForwardScan> = forward_scan(fresh.last_seen_uid, selected);
    let remaining: bool = match scan {
        Some(s) => s.remaining,
        None => false,
    };
    VisitPlan {
        first: None,
        scan,
        notify_from: notify,
        reconciles: heavy,
        wakes_history: !fresh.backfill_done,
        remaining,
    }
}

/// The positions of the fetched headers that belong to the scan. A server may
/// answer with more than was asked for.
pub open spec fn scanned(s: ForwardScan, uids: Seq<u32>) -> Seq<usize>
    decreases uids.len(),
{
    if uids.len() == 0 {
        Seq::empty()
    } else {
        let rest = scanned(s, uids.drop_last());
        if s.last_seen < uids.last() <= s.range_end {
            rest.push((uids.len() - 1) as usize)
        } else {
            rest
        }
    }
}

/// Of what the server answers exactly that is stored which lies in the range that
/// was asked for: above what was seen, and up to its end.
pub proof fn only_new_headers_are_stored(s: ForwardScan, uids: Seq<u32>)
    requires
        uids.len() <= usize::MAX,
    ensures
        forall|i: usize| #[trigger]
            scanned(s, uids).contains(i) <==> i < uids.len() && uids[i as int] > s.last_seen
                && uids[i as int] <= s.range_end,
    decreases uids.len(),
{
    if uids.len() > 0 {
        let front = uids.drop_last();
        only_new_headers_are_stored(s, front);
        lemma_pushed(scanned(s, front), (uids.len() - 1) as usize);
    }
}

pub fn scanned_headers(s: ForwardScan, uids: &Vec<u32>) -> (r: Vec<usize>)
    ensures
        r@ == scanned(s, uids@),
{
    let mut out: Vec<usize> = Vec::new();
    let mut i: usize = 0;
    while i < uids.len()
        invariant
            i <= uids@.len(),
            out@ == scanned(s, uids@.take(i as int)),
        decreases uids@.len() - i,
    {
        proof {
            assert(uids@.take(i + 1).drop_last() =~= uids@.take(i as int));
        }
        if s.covers(uids[i]) {
            out.push(i);
        }
        i = i + 1;
    }
    proof {
        assert(uids@.take(uids@.len() as int) =~= uids@);
    }
    out
}

// ---------------------------------------------------------------------------
// History
// ---------------------------------------------------------------------------

/// What the walk through history does in a folder, from its row as it is now.
#[derive(Debug, Clone, Copy, PartialEq, Eq, Structural)]
pub enum HistoryWork {
    /// The folder was never synced: its recent window comes first.
    Window,
    /// One more step down.
    Extend,
    Nothing,
}

pub fn history_work(fresh: &Folder) -> (r: HistoryWork)
    ensures
        r == (if fresh.backfill_cursor is None {
            HistoryWork::Window
        } else if fresh.backfill_done {
            HistoryWork::Nothing
        } else {
            HistoryWork::Extend
        }),
        r is Window <==> fresh.backfill_cursor is None,
        r is Nothing <==> fresh.backfill_cursor is Some && fresh.backfill_done,
        r is Extend <==> fresh.backfill_cursor is Some && !fresh.backfill_done,
{
    if fresh.backfill_cursor.is_none() {
        HistoryWork::Window
    } else if fresh.backfill_done {
        HistoryWork::Nothing
    } else {
        HistoryWork::Extend
    }
}

/// The folders that a pass of the walk advances, in the order of visits.
pub open spec fn unfinished(folders: Seq<Folder>, provider: Provider, order: Seq<usize>) -> Seq<
    usize,
>
    decreases order.len(),
{
    if order.len() == 0 {
        Seq::empty()
    } else {
        let rest = unfinished(folders, provider, order.drop_last());
        if lacks_history(folders[order.last() as int], provider) {
            rest.push(order.last())
        } else {
            rest
        }
    }
}

/// A pass of the walk advances every folder whose headers are not all here, and no
/// other: one that was never synced or has history left, unless it is an All
/// folder that only repeats the others.
pub proof fn every_unfinished_folder_is_advanced(
    folders: Seq<Folder>,
    provider: Provider,
    order: Seq<usize>,
)
    requires
        is_stable_order(ranks(folders), order),
    ensures
        forall|i: usize| #[trigger]
            unfinished(folders, provider, order).contains(i) <==> i < folders.len() && (
            folders[i as int].backfill_cursor is None || !folders[i as int].backfill_done) && (
            folders[i as int].has_role(ALL@) ==> provider is Gmail),
{
    lemma_unfinished(folders, provider, order);
}

proof fn lemma_unfinished(folders: Seq<Folder>, provider: Provider, order: Seq<usize>)
    ensures
        forall|i: usize| #[trigger]
            unfinished(folders, provider, order).contains(i) <==> order.contains(i) && (
            folders[i as int].backfill_cursor is None || !folders[i as int].backfill_done) && (
            folders[i as int].has_role(ALL@) ==> provider is Gmail),
    decreases order.len(),
{
    if order.len() > 0 {
        lemma_unfinished(folders, provider, order.drop_last());
        lemma_ends(order);
        lemma_pushed(unfinished(folders, provider, order.drop_last()), order.last());
    }
}

pub fn history_visits(folders: &Vec<Folder>, provider: Provider) -> (r: Vec<usize>)
    ensures
        exists|order: Seq<usize>|
            is_stable_order(ranks(folders@), order) && r@ == #[trigger] unfinished(
                folders@,
                provider,
                order,
            ),
{
    let order: Vec<usize> = ordered_folders(folders);
    let mut out: Vec<usize> = Vec::new();
    let mut k: usize = 0;
    while k < order.len()
        invariant
            k <= order@.len(),
            is_stable_order(ranks(folders@), order@),
            out@ == unfinished(folders@, provider, order@.take(k as int)),
        decreases order@.len() - k,
    {
        proof {
            assert(order@.take(k + 1).drop_last() =~= order@.take(k as int));
            assert(order@.contains(order@[k as int]));
        }
        if needs_history(&folders[order[k]], provider) {
            out.push(order[k]);
        }
        k = k + 1;
    }
    proof {
        assert(order@.take(order@.len() as int) =~= order@);
    }
    out
}

/// What a pass of the walk does next.
#[derive(Debug, Clone, Copy, PartialEq, Eq, Structural)]
pub enum HistoryStage {
    /// Try one header again that could not be stored.
    Retry,
    /// Read the folders from the store.
    List,
    /// Advance the folder at this place of the visits by one step.
    Visit(usize),
    /// Nothing: the pass is over. Another one follows at once, or the walk
    /// rests until it is called, with or without its connection.
    Ended { again: bool, log_out: bool },
}

/// How the last step of a pass went.
#[derive(Debug, Clone)]
pub enum HistoryEvent {
    Done { progressed: bool },
    Listed(Vec<usize>),
    Failed,
}

/// One pass of the walk: each folder that still needs headers is advanced by
/// one step, which keeps folders progressing evenly.
#[derive(Debug, Clone)]
pub struct HistoryPass {
    pub stage: HistoryStage,
    pub progressed: bool,
    pub visits: Vec<usize>,
}

/// A pass that got through. Where nothing was left to do no connection is held
/// open between calls: servers reap them, and the next step would fail.
pub open spec fn pass_end(progressed: bool) -> HistoryStage {
    HistoryStage::Ended { again: progressed, log_out: !progressed }
}

impl HistoryPass {
    pub open spec fn awaits(self, e: HistoryEvent) -> bool {
        match self.stage {
            HistoryStage::Retry | HistoryStage::Visit(_) => !(e is Listed),
            HistoryStage::List => !(e is Done),
            HistoryStage::Ended { .. } => false,
        }
    }

    /// A visit is to a folder of the list, and a pass follows at once only
    /// where this one progressed: a walk that is caught up does not spin.
    pub open spec fn sound(self) -> bool {
        &&& self.stage matches HistoryStage::Visit(k) ==> k < self.visits@.len()
        &&& self.stage matches HistoryStage::Ended { again, .. } ==> again ==> self.progressed
    }

    pub open spec fn visit_at(self, k: int) -> HistoryStage {
        if k < self.visits@.len() {
            HistoryStage::Visit(k as usize)
        } else {
            pass_end(self.progressed)
        }
    }

    pub fn begin() -> (r: HistoryPass)
        ensures
            r.stage == HistoryStage::Retry,
            !r.progressed,
            r.visits@.len() == 0,
            r.sound(),
    {
        HistoryPass { stage: HistoryStage::Retry, progressed: false, visits: Vec::new() }
    }

    /// Takes in how the last step went. A step that fails ends the pass, and
    /// the connection with it; a store that cannot be read ends only the pass.
    pub fn advance(&mut self, e: HistoryEvent)
        requires
            old(self).sound(),
            old(self).awaits(e),
        ensures
            final(self).sound(),
            final(self).visits@ == (match e {
                HistoryEvent::Listed(visits) => visits@,
                _ => old(self).visits@,
            }),
            final(self).progressed == (match (old(self).stage, e) {
                (HistoryStage::Retry, HistoryEvent::Done { progressed }) => progressed,
                (HistoryStage::Visit(_), HistoryEvent::Done { .. }) => true,
                _ => old(self).progressed,
            }),
            final(self).stage == (match (old(self).stage, e) {
                (HistoryStage::List, HistoryEvent::Failed) => HistoryStage::Ended {
                    again: false,
                    log_out: false,
                },
                (_, HistoryEvent::Failed) => HistoryStage::Ended { again: false, log_out: true },
                (HistoryStage::Retry, _) => HistoryStage::List,
                (HistoryStage::List, _) => final(self).visit_at(0),
                (HistoryStage::Visit(k), _) => final(self).visit_at(k + 1),
                (HistoryStage::Ended { .. }, _) => old(self).stage,
            }),
            old(self).stage matches HistoryStage::Visit(k) ==> !(e is Failed) ==> if k + 1 < old(
                self,
            ).visits@.len() {
                final(self).stage == HistoryStage::Visit((k + 1) as usize)
            } else {
                final(self).stage == (HistoryStage::Ended { again: true, log_out: false })
            },
            old(self).stage is List ==> (e matches HistoryEvent::Listed(visits) ==> if visits@.len()
                > 0 {
                final(self).stage == HistoryStage::Visit(0)
            } else {
                final(self).stage == (HistoryStage::Ended {
                    again: old(self).progressed,
                    log_out: !old(self).progressed,
                })
            }),
    {
        match self.stage {
            HistoryStage::Retry => {
                if let HistoryEvent::Done { progressed } = e {
                    self.progressed = progressed;
                    self.stage = HistoryStage::List;
                } else {
                    self.stage = HistoryStage::Ended { again: false, log_out: true };
                }
            },
            HistoryStage::List => {
                if let HistoryEvent::Listed(visits) = e {
                    self.visits = visits;
                    self.stage = if self.visits.len() > 0 {
                        HistoryStage::Visit(0)
                    } else {
                        HistoryStage::Ended { again: self.progressed, log_out: !self.progressed }
                    };
                } else {
                    self.stage = HistoryStage::Ended { again: false, log_out: false };
                }
            },
            HistoryStage::Visit(k) => {
                if let HistoryEvent::Done { .. } = e {
                    self.progressed = true;
                    let unvisited: usize = self.visits.len() - k;
                    self.stage = if unvisited > 1 {
                        HistoryStage::Visit(k + 1)
                    } else {
                        HistoryStage::Ended { again: true, log_out: false }
                    };
                } else {
                    self.stage = HistoryStage::Ended { again: false, log_out: true };
                }
            },
            HistoryStage::Ended { .. } => {},
        }
    }
}

} // verus!
