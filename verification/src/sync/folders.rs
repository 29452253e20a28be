//! The folders of an account: the order in which they are visited, the UID
//! ranges that are scanned, and what the server's state does to the rows here.

use vstd::prelude::*;

use crate::lists::{lemma_ends, lemma_pushed, push_new, with_new};
use crate::models::roles::{ALL, ARCHIVE, DRAFTS, INBOX, SENT};
use crate::models::Provider;
use crate::sort::{comes_before, is_stable_order, stable_order};
use crate::sync::batches::{chunk_views, chunked, is_chunked};
use crate::text::{decimal, opt_text, u64_text};

verus! {

pub const BACKFILL_DAYS: i64 = 90;

/// A day in milliseconds.
pub const DAY_MS: i64 = 86_400_000;

/// The first day of the mail that a new folder starts with, as the number of days
/// since 1970: so many days before the day of `now_ms`.
pub fn backfill_since(now_ms: i64) -> (r: i64)
    ensures
        r == now_ms as int / DAY_MS as int - BACKFILL_DAYS,
{
    let shift: i128 = 200_000_000_000;
    let ms: u128 = ((now_ms as i128) + shift * 86_400_000) as u128;
    let days: u128 = ms / 86_400_000;
    ((days as i128) - shift - 90) as i64
}

pub const HEADER_CHUNK: usize = 200;

pub const HISTORY_CHUNK: u32 = 500;

/// The most recent N UIDs get flag reconciliation.
pub const FLAG_WINDOW: i64 = 1000;

/// Finished actions are kept for seven days.
pub const ACTION_HISTORY_MS: i64 = 604_800_000;

/// A folder as the store has it.
#[derive(Debug, Clone)]
pub struct Folder {
    pub id: i64,
    pub imap_name: String,
    pub role: Option<String>,
    pub uidvalidity: Option<i64>,
    pub last_seen_uid: i64,
    pub backfill_cursor: Option<i64>,
    pub backfill_done: bool,
}

impl Folder {
    pub open spec fn has_role(self, role: Seq<char>) -> bool {
        opt_text(self.role) == Some(role)
    }

    pub fn is_role(&self, role: &str) -> (r: bool)
        ensures
            r == self.has_role(role@),
    {
        match &self.role {
            Some(s) => s.as_str().eq(role),
            None => false,
        }
    }
}

// ---------------------------------------------------------------------------
// Order
// ---------------------------------------------------------------------------

/// The order of visits: inbox first, then sent/drafts, then the rest.
pub open spec fn sync_rank(f: Folder) -> int {
    if f.has_role(INBOX@) {
        0
    } else if f.has_role(SENT@) {
        1
    } else if f.has_role(DRAFTS@) {
        2
    } else if f.has_role(ARCHIVE@) {
        3
    } else {
        4
    }
}

fn rank_of(f: &Folder) -> (r: u8)
    ensures
        r == sync_rank(*f),
        r <= 4,
{
    if f.is_role(INBOX) {
        0
    } else if f.is_role(SENT) {
        1
    } else if f.is_role(DRAFTS) {
        2
    } else if f.is_role(ARCHIVE) {
        3
    } else {
        4
    }
}

/// The ranks of folders.
pub open spec fn ranks(folders: Seq<Folder>) -> Seq<i64> {
    folders.map_values(|f: Folder| sync_rank(f) as i64)
}

/// The folders in the order in which a cycle visits them: by rank, and folders
/// of one rank in their order.
pub fn ordered_folders(folders: &Vec<Folder>) -> (r: Vec<usize>)
    ensures
        is_stable_order(ranks(folders@), r@),
        r@.len() == folders@.len(),
{
    let mut keys: Vec<i64> = Vec::new();
    let mut i: usize = 0;
    while i < folders.len()
        invariant
            i <= folders@.len(),
            keys@ == ranks(folders@.take(i as int)),
        decreases folders@.len() - i,
    {
        keys.push(rank_of(&folders[i]) as i64);
        i = i + 1;
        proof {
            assert(keys@ =~= ranks(folders@.take(i as int)));
        }
    }
    proof {
        assert(folders@.take(folders@.len() as int) =~= folders@);
    }
    stable_order(&keys)
}

/// A visit order names every folder exactly once, and the inbox comes before
/// everything that is not one.
pub proof fn every_folder_is_visited_once(folders: Seq<Folder>, order: Seq<usize>)
    requires
        is_stable_order(ranks(folders), order),
    ensures
        order.no_duplicates(),
        forall|i: usize| #[trigger] order.contains(i) <==> i < folders.len(),
        forall|x: int, y: int|
            #![trigger order[x], order[y]]
            0 <= x < y < order.len() && folders[order[y] as int].has_role(INBOX@)
                ==> folders[order[x] as int].has_role(INBOX@),
{
    let keys = ranks(folders);
    assert forall|x: int, y: int|
        0 <= x < order.len() && 0 <= y < order.len() && x != y implies order[x] != order[y] by {
        if x < y {
            assert(comes_before(keys, order[x], order[y]));
        } else {
            assert(comes_before(keys, order[y], order[x]));
        }
    }
    assert forall|x: int, y: int|
        #![trigger order[x], order[y]]
        0 <= x < y < order.len() && folders[order[y] as int].has_role(INBOX@) implies folders[
    order[x] as int].has_role(INBOX@) by {
        assert(comes_before(keys, order[x], order[y]));
        assert(order.contains(order[x]) && order.contains(order[y]));
    }
}

/// Folders are visited by how soon their mail matters: the inbox, then sent mail,
/// drafts and the archive, then all others; folders of one kind in their order.
pub proof fn folders_are_visited_by_importance(folders: Seq<Folder>, order: Seq<usize>, x: int, y: int)
    requires
        is_stable_order(ranks(folders), order),
        0 <= x < y < order.len(),
    ensures
        ({
            let a = folders[order[x] as int];
            let b = folders[order[y] as int];
            &&& b.has_role(INBOX@) ==> a.has_role(INBOX@)
            &&& b.has_role(SENT@) ==> a.has_role(INBOX@) || a.has_role(SENT@)
            &&& b.has_role(DRAFTS@) ==> a.has_role(INBOX@) || a.has_role(SENT@) || a.has_role(
                DRAFTS@,
            )
            &&& b.has_role(ARCHIVE@) ==> a.has_role(INBOX@) || a.has_role(SENT@) || a.has_role(
                DRAFTS@,
            ) || a.has_role(ARCHIVE@)
            &&& a.role == b.role ==> order[x] < order[y]
        }),
{
    let keys = ranks(folders);
    assert(comes_before(keys, order[x], order[y]));
    assert(order.contains(order[x]) && order.contains(order[y]));
    reveal_strlit("inbox");
    reveal_strlit("sent");
    reveal_strlit("drafts");
    reveal_strlit("archive");
    assert(INBOX@.len() == 5 && SENT@.len() == 4 && DRAFTS@.len() == 6 && ARCHIVE@.len() == 7);
}

// ---------------------------------------------------------------------------
// A cycle
// ---------------------------------------------------------------------------

/// Folder discovery: first cycle and then every ~30 cycles.
pub fn discovers_folders(cycle: u64, action_replay: bool) -> (r: bool)
    ensures
        r == (!action_replay && cycle % 30 == 0),
        action_replay ==> !r,
        cycle == 0 && !action_replay ==> r,
        0 < cycle < 30 ==> !r,
{
    !action_replay && cycle % 30 == 0
}

/// Heavy reconciliation (flags/expunge) comes with every 5th cycle only.
pub fn reconciles(cycle: u64, action_replay: bool) -> (r: bool)
    ensures
        r == (!action_replay && cycle > 0 && cycle % 5 == 0),
        action_replay || cycle < 5 ==> !r,
        cycle == 5 && !action_replay ==> r,
{
    !action_replay && cycle > 0 && cycle % 5 == 0
}

/// A special-use All folder duplicates the rest, except on Gmail, where it is
/// the canonical copy.
pub open spec fn is_duplicate_folder(f: Folder, provider: Provider) -> bool {
    f.has_role(ALL@) && provider != Provider::Gmail
}

pub fn skips_folder(f: &Folder, provider: Provider) -> (r: bool)
    ensures
        r == is_duplicate_folder(*f, provider),
        provider is Gmail || !f.has_role(ALL@) ==> !r,
        f.has_role(ALL@) && !(provider is Gmail) ==> r,
{
    f.is_role(ALL) && !matches!(provider, Provider::Gmail)
}

/// The folders that a cycle visits after the inbox and the queued actions.
pub open spec fn later_visits(folders: Seq<Folder>, provider: Provider, order: Seq<usize>) -> Seq<
    usize,
>
    decreases order.len(),
{
    if order.len() == 0 {
        Seq::empty()
    } else {
        let rest = later_visits(folders, provider, order.drop_last());
        let f = folders[order.last() as int];
        if f.has_role(INBOX@) || is_duplicate_folder(f, provider) {
            rest
        } else {
            rest.push(order.last())
        }
    }
}

/// Past the inbox every folder is visited once, except where a special All folder
/// only repeats the others, which it does not on Gmail.
pub proof fn every_other_folder_is_visited(
    folders: Seq<Folder>,
    provider: Provider,
    order: Seq<usize>,
)
    requires
        is_stable_order(ranks(folders), order),
    ensures
        forall|i: usize| #[trigger]
            later_visits(folders, provider, order).contains(i) <==> i < folders.len()
                && !folders[i as int].has_role(INBOX@) && (folders[i as int].has_role(ALL@)
                ==> provider is Gmail),
        later_visits(folders, provider, order).no_duplicates(),
{
    every_folder_is_visited_once(folders, order);
    lemma_later_visits(folders, provider, order);
}

proof fn lemma_later_visits(folders: Seq<Folder>, provider: Provider, order: Seq<usize>)
    requires
        order.no_duplicates(),
    ensures
        forall|i: usize| #[trigger]
            later_visits(folders, provider, order).contains(i) <==> order.contains(i)
                && !folders[i as int].has_role(INBOX@) && (folders[i as int].has_role(ALL@)
                ==> provider is Gmail),
        later_visits(folders, provider, order).no_duplicates(),
    decreases order.len(),
{
    if order.len() > 0 {
        let front = order.drop_last();
        lemma_later_visits(folders, provider, front);
        lemma_ends(order);
        lemma_pushed(later_visits(folders, provider, front), order.last());
        if front.contains(order.last()) {
            let k = front.index_of(order.last());
            assert(order[k] == order[order.len() - 1]);
        }
        let rest = later_visits(folders, provider, front);
        let all = later_visits(folders, provider, order);
        assert forall|x: int, y: int|
            0 <= x < all.len() && 0 <= y < all.len() && x != y implies all[x] != all[y] by {
            assert(!rest.contains(order.last()));
            if x < rest.len() {
                assert(rest.contains(rest[x]));
            }
            if y < rest.len() {
                assert(rest.contains(rest[y]));
            }
        }
    }
}

/// What a cycle visits: the inbox before any queued action, and the others
/// after them.
#[derive(Debug, Clone)]
pub struct CycleOrder {
    pub inbox: Option<usize>,
    pub others: Vec<usize>,
}

/// The latency-sensitive INBOX pass always runs before any queued mutation.
/// A mass archive/trash replay therefore cannot hide newly arrived mail.
pub fn cycle_order(folders: &Vec<Folder>, provider: Provider) -> (r: CycleOrder)
    ensures
        match r.inbox {
            Some(i) => i < folders@.len() && folders@[i as int].has_role(INBOX@) && forall|j: int|
                0 <= j < i ==> !(#[trigger] folders@[j]).has_role(INBOX@),
            None => forall|j: int|
                0 <= j < folders@.len() ==> !(#[trigger] folders@[j]).has_role(INBOX@),
        },
        exists|order: Seq<usize>|
            is_stable_order(ranks(folders@), order) && r.others@ == #[trigger] later_visits(
                folders@,
                provider,
                order,
            ),
{
    let mut inbox: Option<usize> = None;
    let mut i: usize = 0;
    while i < folders.len() && inbox.is_none()
        invariant
            i <= folders@.len(),
            match inbox {
                Some(k) => k < folders@.len() && folders@[k as int].has_role(INBOX@) && forall|j:
                    int|
                    0 <= j < k ==> !(#[trigger] folders@[j]).has_role(INBOX@),
                None => forall|j: int| 0 <= j < i ==> !(#[trigger] folders@[j]).has_role(INBOX@),
            },
        decreases folders@.len() - i,
    {
        if folders[i].is_role(INBOX) {
            inbox = Some(i);
        }
        i = i + 1;
    }
    let order: Vec<usize> = ordered_folders(folders);
    let mut others: Vec<usize> = Vec::new();
    let mut k: usize = 0;
    while k < order.len()
        invariant
            k <= order@.len(),
            is_stable_order(ranks(folders@), order@),
            others@ == later_visits(folders@, provider, order@.take(k as int)),
        decreases order@.len() - k,
    {
        proof {
            assert(order@.take(k + 1).drop_last() =~= order@.take(k as int));
            assert(order@.contains(order@[k as int]));
        }
        let f: &Folder = &folders[order[k]];
        if !f.is_role(INBOX) && !skips_folder(f, provider) {
            others.push(order[k]);
        }
        k = k + 1;
    }
    proof {
        assert(order@.take(order@.len() as int) =~= order@);
    }
    CycleOrder { inbox, others }
}

/// A manual Sync Now resolves at the foreground Inbox boundary, and so does a
/// pass that left new mail in the inbox: the rest comes with the next pass,
/// which is then due at once.
pub fn ends_at_inbox(foreground_only: bool, inbox_forward_remaining: bool) -> (r: bool)
    ensures
        r == (foreground_only || inbox_forward_remaining),
        foreground_only ==> r,
        inbox_forward_remaining ==> r,
        !foreground_only && !inbox_forward_remaining ==> !r,
{
    foreground_only || inbox_forward_remaining
}

// ---------------------------------------------------------------------------
// New mail
// ---------------------------------------------------------------------------

/// What selecting a folder tells.
#[derive(Debug, Clone, Copy, PartialEq, Eq, Structural)]
pub struct Selected {
    pub uid_validity: Option<i64>,
    pub uid_next: Option<i64>,
}

/// The inbox as it was found first.
#[derive(Debug, Clone, Copy, PartialEq, Eq, Structural)]
pub struct InboxBaseline {
    pub uid_validity: Option<i64>,
    /// UIDs below this value existed at the first successful INBOX SELECT and
    /// are launch catch-up. UIDs at/above it arrived while Comail was running.
    pub first_live_uid: u32,
}

/// The saved UIDs name other messages than the server's: both sides have a
/// UIDVALIDITY, and they differ.
pub open spec fn uids_invalid(stored: Option<i64>, remote: Option<i64>) -> bool {
    stored is Some && remote is Some && stored != remote
}

pub fn uidvalidity_changed(stored: Option<i64>, remote: Option<i64>) -> (r: bool)
    ensures
        r == uids_invalid(stored, remote),
        stored is None || remote is None || stored == remote ==> !r,
        stored is Some && remote is Some && stored->0 != remote->0 ==> r,
{
    match (stored, remote) {
        (Some(a), Some(b)) => a != b,
        _ => false,
    }
}

/// The first UID that is not there yet, and at least 1.
pub open spec fn first_unused(selected: Selected) -> int {
    match selected.uid_next {
        Some(n) if n >= 1 => n as int,
        _ => 1,
    }
}

/// The baseline after the inbox was selected: it is taken once, and anew when
/// the UIDs of the inbox have changed their meaning.
pub fn next_baseline(
    baseline: Option<InboxBaseline>,
    is_inbox: bool,
    stored_validity: Option<i64>,
    selected: Selected,
) -> (r: Option<InboxBaseline>)
    ensures
        !is_inbox ==> r == baseline,
        is_inbox ==> r == (if baseline is Some && !uids_invalid(
            stored_validity,
            selected.uid_validity,
        ) && baseline->0.uid_validity == selected.uid_validity {
            baseline
        } else {
            Some(
                InboxBaseline {
                    uid_validity: selected.uid_validity,
                    first_live_uid: (first_unused(selected) as i64) as u32,
                },
            )
        }),
        is_inbox ==> r is Some && r->0.uid_validity == selected.uid_validity,
        is_inbox && baseline is None && selected.uid_next is Some && 1 <= selected.uid_next->0
            <= u32::MAX ==> r->0.first_live_uid == selected.uid_next->0,
        is_inbox && baseline is Some && baseline->0.uid_validity == selected.uid_validity
            && stored_validity == selected.uid_validity ==> r == baseline,
{
    if !is_inbox {
        return baseline;
    }
    let kept: Option<InboxBaseline> = if uidvalidity_changed(
        stored_validity,
        selected.uid_validity,
    ) {
        None
    } else {
        baseline
    };
    match kept {
        Some(b) => {
            if same_validity(b.uid_validity, selected.uid_validity) {
                return Some(b);
            }
        },
        None => {},
    }
    let next: i64 = match selected.uid_next {
        Some(n) => if n >= 1 {
            n
        } else {
            1
        },
        None => 1,
    };
    Some(
        InboxBaseline {
            uid_validity: selected.uid_validity,
            first_live_uid: #[verifier::truncate]
            (next as u32),
        },
    )
}

/// The two UIDVALIDITY values are the same, or both unknown.
pub fn same_validity(a: Option<i64>, b: Option<i64>) -> (r: bool)
    ensures
        r == (a == b),
{
    match (a, b) {
        (Some(x), Some(y)) => x == y,
        (None, None) => true,
        _ => false,
    }
}

/// Where a folder that was never synced starts: everything up to `live_high`
/// is history, and history is walked down from `history_cursor`.
#[derive(Debug, Clone, Copy, PartialEq, Eq, Structural)]
pub struct FirstSync {
    pub live_high: i64,
    pub history_cursor: i64,
    pub history_done: bool,
}

/// Snapshot the server high-water immediately. The dedicated history worker
/// then walks downward from that point, while the actor owns all later UIDs.
/// This avoids a long initial backfill swallowing genuinely live mail or
/// leaving a gap above a date-filtered search result.
pub fn first_sync(selected: Selected) -> (r: FirstSync)
    ensures
        r.live_high == first_unused(selected) - 1,
        r.history_cursor == first_unused(selected),
        r.history_done == (first_unused(selected) == 1),
        r.live_high + 1 == r.history_cursor,
        selected.uid_next matches Some(n) ==> n >= 1 ==> r.history_cursor == n,
        selected.uid_next is None ==> r.live_high == 0 && r.history_done,
{
    let next: i64 = match selected.uid_next {
        Some(n) => if n >= 1 {
            n
        } else {
            1
        },
        None => 1,
    };
    FirstSync { live_high: next - 1, history_cursor: next, history_done: next == 1 }
}

/// A range of UIDs to scan for new mail.
#[derive(Debug, Clone, Copy, PartialEq, Eq, Structural)]
pub struct ForwardScan {
    /// The highest UID that was scanned before.
    pub last_seen: u32,
    pub range_end: u32,
    /// There is more above the range.
    pub remaining: bool,
}

/// The highest UID that was scanned, from the store. A UID has 32 bits.
pub open spec fn seen_uid(last_seen_uid: i64) -> int {
    if last_seen_uid > 0 {
        (last_seen_uid as u32) as int
    } else {
        0
    }
}

/// The highest UID that the server can have; where it does not tell the next
/// one, nothing bounds it.
pub open spec fn highest_uid(selected: Selected) -> int {
    match selected.uid_next {
        Some(n) => n - 1,
        None => i64::MAX - 1,
    }
}

/// The last UID of the next range.
pub open spec fn scan_end(low: int, high: int) -> int {
    if low + HEADER_CHUNK < high {
        low + HEADER_CHUNK
    } else {
        high
    }
}

/// The next range: right above what was seen, and none where nothing can be
/// there.
pub open spec fn is_scan(last_seen_uid: i64, selected: Selected, r: Option<ForwardScan>) -> bool {
    let low = seen_uid(last_seen_uid);
    let high = highest_uid(selected);
    match r {
        Some(s) => low < high && s.last_seen == low && s.range_end == scan_end(low, high) as u32
            && s.remaining == (s.range_end < high),
        None => low >= high,
    }
}

/// There is a UID to start a scan from: the last one that 32 bits can hold has
/// not been seen, or nothing can lie above it.
pub open spec fn can_scan(last_seen_uid: i64, selected: Selected) -> bool {
    seen_uid(last_seen_uid) < u32::MAX || highest_uid(selected) <= u32::MAX
}

/// New mail since the last seen UID: the next range of at most `HEADER_CHUNK`
/// UIDs, where there can be any.
pub fn forward_scan(last_seen_uid: i64, selected: Selected) -> (r: Option<ForwardScan>)
    requires
        can_scan(last_seen_uid, selected),
    ensures
        is_scan(last_seen_uid, selected, r),
        r matches Some(s) ==> s.last_seen < u32::MAX,
{
    let last_seen: u32 = if last_seen_uid > 0 {
        #[verifier::truncate]
        (last_seen_uid as u32)
    } else {
        0
    };
    let uid_next: i64 = match selected.uid_next {
        Some(n) => n,
        None => i64::MAX,
    };
    if (last_seen as i64) + 1 >= uid_next {
        return None;
    }
    let top: u64 = (uid_next - 1) as u64;
    let reach: u64 = (last_seen as u64) + (HEADER_CHUNK as u64);
    let end: u64 = if reach < top {
        reach
    } else {
        top
    };
    let range_end: u32 = #[verifier::truncate]
    (end as u32);
    Some(ForwardScan { last_seen, range_end, remaining: (range_end as i64) < uid_next - 1 })
}

/// Scans make progress and leave no gap: the range is not empty, it starts
/// right above what was seen, and once nothing remains everything up to the
/// server's highest UID was scanned.
pub proof fn forward_scans_leave_no_gap(last_seen_uid: i64, selected: Selected, s: ForwardScan)
    requires
        is_scan(last_seen_uid, selected, Some(s)),
        scan_end(seen_uid(last_seen_uid), highest_uid(selected)) <= u32::MAX,
    ensures
        s.last_seen < s.range_end <= highest_uid(selected),
        s.range_end - s.last_seen <= HEADER_CHUNK,
        seen_uid(s.range_end as i64) == s.range_end,
        !s.remaining ==> s.range_end == highest_uid(selected),
        s.remaining ==> s.range_end - s.last_seen == HEADER_CHUNK,
{
}

impl ForwardScan {
    /// The header belongs to the range. Servers answer `n:*` style ranges with
    /// their last message even where it lies below.
    pub fn covers(&self, uid: u32) -> (r: bool)
        ensures
            r == (self.last_seen < uid <= self.range_end),
    {
        uid > self.last_seen && uid <= self.range_end
    }

    /// The range as an IMAP sequence set.
    pub fn uid_set(&self) -> (r: String)
        requires
            self.last_seen < u32::MAX,
        ensures
            r@ == decimal((self.last_seen + 1) as nat) + ":"@ + decimal(self.range_end as nat),
    {
        range_set(self.last_seen + 1, self.range_end)
    }
}

/// `lo:hi`.
pub fn range_set(lo: u32, hi: u32) -> (r: String)
    ensures
        r@ == decimal(lo as nat) + ":"@ + decimal(hi as nat),
{
    let mut out: String = u64_text(lo as u64);
    out.push_str(":");
    let top: String = u64_text(hi as u64);
    out.push_str(top.as_str());
    out
}

/// Only the inbox notifies, and only for what arrived after the baseline.
pub fn notify_from(is_inbox: bool, baseline: Option<InboxBaseline>) -> (r: Option<u32>)
    ensures
        r == (if is_inbox && baseline is Some {
            Some(baseline->0.first_live_uid)
        } else {
            None
        }),
        !is_inbox || baseline is None ==> r is None,
        is_inbox && baseline is Some ==> r == Some(baseline->0.first_live_uid),
{
    if is_inbox {
        match baseline {
            Some(b) => Some(b.first_live_uid),
            None => None,
        }
    } else {
        None
    }
}

// ---------------------------------------------------------------------------
// History
// ---------------------------------------------------------------------------

/// The folder still needs headers: it was never synced, or history remains.
pub open spec fn lacks_history(f: Folder, provider: Provider) -> bool {
    !is_duplicate_folder(f, provider) && !(f.backfill_cursor is Some && f.backfill_done)
}

pub fn needs_history(f: &Folder, provider: Provider) -> (r: bool)
    ensures
        r == lacks_history(*f, provider),
        f.backfill_cursor is Some && f.backfill_done ==> !r,
        f.has_role(ALL@) && !(provider is Gmail) ==> !r,
        !f.has_role(ALL@) && (f.backfill_cursor is None || !f.backfill_done) ==> r,
{
    !skips_folder(f, provider) && !(f.backfill_cursor.is_some() && f.backfill_done)
}

/// One step of the walk through history.
#[derive(Debug, Clone, Copy, PartialEq, Eq, Structural)]
pub enum HistoryStep {
    /// The folder was never synced: nothing to extend yet.
    NotStarted,
    /// Nothing is left below the cursor.
    Finished,
    /// The UIDs to fetch; the cursor then stands at `lo`.
    Window { lo: u32, hi: u32, done: bool },
}

/// The window below a cursor: the next `HISTORY_CHUNK` UIDs down to 1.
pub open spec fn history_window(cursor: int) -> (int, int) {
    let hi = cursor - 1;
    (
        if hi - HISTORY_CHUNK + 1 > 1 {
            hi - HISTORY_CHUNK + 1
        } else {
            1
        },
        hi,
    )
}

/// The step below a cursor. A UID has 32 bits.
pub fn history_step(cursor: Option<i64>) -> (r: HistoryStep)
    ensures
        match cursor {
            None => r is NotStarted,
            Some(c) => if c <= 1 {
                r is Finished
            } else {
                r matches HistoryStep::Window { lo, hi, done } && hi == (c - 1) as u32 && (
                    lo as int,
                    hi as int,
                ) == history_window(hi + 1) && done == (lo <= 1)
            },
        },
        cursor matches Some(c) ==> 1 < c <= u32::MAX ==> (r matches HistoryStep::Window {
            lo,
            hi,
            done,
        } && hi == c - 1 && 1 <= lo <= hi && hi - lo < HISTORY_CHUNK && (done <==> lo == 1)),
{
    let c: i64 = match cursor {
        Some(c) => c,
        None => return HistoryStep::NotStarted,
    };
    if c <= 1 {
        return HistoryStep::Finished;
    }
    let hi: u32 = #[verifier::truncate]
    ((c - 1) as u32);
    let lo: u32 = if hi > HISTORY_CHUNK {
        hi - (HISTORY_CHUNK - 1)
    } else {
        1
    };
    HistoryStep::Window { lo, hi, done: lo <= 1 }
}

/// The UID is in a window of the walk that starts at a cursor.
pub open spec fn walk_reaches(cursor: int, uid: int) -> bool
    decreases cursor,
{
    if cursor <= 1 {
        false
    } else {
        let (lo, hi) = history_window(cursor);
        lo <= uid <= hi || walk_reaches(lo, uid)
    }
}

/// The walk ends, and it covers exactly the UIDs below the cursor: each window
/// lies right below the last one, so no UID is left out and none is fetched
/// twice.
pub proof fn history_covers_everything_below(cursor: int, uid: int)
    ensures
        walk_reaches(cursor, uid) <==> 1 <= uid < cursor,
        cursor > 1 ==> 1 <= history_window(cursor).0 <= history_window(cursor).1 == cursor - 1,
        cursor > 1 ==> history_window(cursor).1 - history_window(cursor).0 < HISTORY_CHUNK,
        cursor > 1 && history_window(cursor).0 <= uid <= history_window(cursor).1
            ==> !walk_reaches(history_window(cursor).0, uid),
    decreases cursor,
{
    if cursor > 1 {
        history_covers_everything_below(history_window(cursor).0, uid);
    }
}

/// The UIDs of a search that are not stored yet, in order.
pub open spec fn not_stored(uids: Seq<u32>, existing: Seq<i64>) -> Seq<u32>
    decreases uids.len(),
{
    if uids.len() == 0 {
        Seq::empty()
    } else {
        let rest = not_stored(uids.drop_last(), existing);
        if existing.contains(uids.last() as i64) {
            rest
        } else {
            rest.push(uids.last())
        }
    }
}

/// Of the UIDs exactly those are fetched whose headers are not stored yet.
pub proof fn only_missing_headers_are_fetched(uids: Seq<u32>, existing: Seq<i64>)
    ensures
        forall|u: u32| #[trigger]
            not_stored(uids, existing).contains(u) <==> uids.contains(u) && forall|k: int|
                0 <= k < existing.len() ==> #[trigger] existing[k] != u,
        not_stored(uids, existing).len() <= uids.len(),
        existing.len() == 0 ==> not_stored(uids, existing) == uids,
    decreases uids.len(),
{
    if uids.len() > 0 {
        let front = uids.drop_last();
        only_missing_headers_are_fetched(front, existing);
        lemma_ends(uids);
        lemma_pushed(not_stored(front, existing), uids.last());
        if existing.len() == 0 {
            assert(not_stored(uids, existing) =~= uids);
        }
    }
}

/// Resume support: a previous run may have died partway (flaky server, app
/// quit) - skip UIDs whose headers already landed so a restart only fetches
/// what's missing instead of re-downloading the whole window every time.
pub fn missing_uids(uids: &Vec<u32>, existing: &Vec<i64>) -> (r: Vec<u32>)
    ensures
        r@ == not_stored(uids@, existing@),
{
    let mut out: Vec<u32> = Vec::new();
    let mut i: usize = 0;
    while i < uids.len()
        invariant
            i <= uids@.len(),
            out@ == not_stored(uids@.take(i as int), existing@),
        decreases uids@.len() - i,
    {
        proof {
            assert(uids@.take(i + 1).drop_last() =~= uids@.take(i as int));
        }
        if !crate::lists::contains_id(existing, uids[i] as i64) {
            out.push(uids[i]);
        }
        i = i + 1;
    }
    proof {
        assert(uids@.take(uids@.len() as int) =~= uids@);
    }
    out
}

/// A chunk of an initial backfill: the UIDs to fetch, and the cursor that is
/// recorded once they are stored.
#[derive(Debug, Clone)]
pub struct HeaderChunk {
    pub uids: Vec<u32>,
    pub checkpoint: i64,
    pub done: bool,
}

/// Newest chunks first: the top of the inbox fills in immediately instead
/// of after the whole window has downloaded. Chunks run newest-first, so
/// everything from a chunk's lowest UID upward is stored once it is in;
/// recording it as the backfill cursor means a dropped connection or app
/// restart resumes from there.
pub fn backfill_chunks(missing: &Vec<u32>) -> (r: Vec<HeaderChunk>)
    ensures
        is_chunked(
            missing@,
            HEADER_CHUNK as int,
            r@.map_values(|c: HeaderChunk| c.uids@).reverse(),
        ),
        forall|i: int|
            0 <= i < r@.len() ==> (#[trigger] r@[i]).uids@.len() > 0 && r@[i].checkpoint
                == r@[i].uids@[0] && r@[i].done == (r@[i].checkpoint <= 1),
{
    let mut chunks: Vec<Vec<u32>> = chunked(missing, HEADER_CHUNK);
    let ghost all = chunk_views(chunks@);
    let mut out: Vec<HeaderChunk> = Vec::new();
    proof {
        assert(all.skip(all.len() as int).reverse() =~= Seq::empty());
        assert(out@.map_values(|c: HeaderChunk| c.uids@) =~= Seq::empty());
        assert(chunk_views(chunks@) =~= all.take(all.len() as int));
    }
    while chunks.len() > 0
        invariant
            chunks@.len() <= all.len(),
            chunk_views(chunks@) == all.take(chunks@.len() as int),
            forall|i: int| 0 <= i < all.len() ==> (#[trigger] all[i]).len() > 0,
            out@.map_values(|c: HeaderChunk| c.uids@) == all.skip(chunks@.len() as int).reverse(),
            forall|i: int|
                0 <= i < out@.len() ==> (#[trigger] out@[i]).uids@.len() > 0 && out@[i].checkpoint
                    == out@[i].uids@[0] && out@[i].done == (out@[i].checkpoint <= 1),
        decreases chunks@.len(),
    {
        let ghost n = chunks@.len() as int;
        let ghost before = out@;
        if let Some(uids) = chunks.pop() {
            proof {
                assert(chunk_views(chunks@) =~= all.take(n - 1));
                assert(uids@ == all.take(n)[n - 1]);
                assert(all[n - 1].len() > 0);
            }
            let checkpoint: i64 = uids[0] as i64;
            let ghost held = uids@;
            out.push(HeaderChunk { uids, checkpoint, done: checkpoint <= 1 });
            proof {
                assert(out@.map_values(|c: HeaderChunk| c.uids@) =~= before.map_values(
                    |c: HeaderChunk| c.uids@,
                ).push(held));
                assert(all.skip(n - 1).reverse() =~= all.skip(n).reverse().push(all[n - 1]));
            }
        }
    }
    proof {
        assert(all.skip(0) =~= all);
        assert(all.reverse().reverse() =~= all);
    }
    out
}

/// Where the synced window of an initial backfill starts and ends, so history
/// can extend below it: the lowest UID (or 1), whether that leaves nothing
/// below, and the highest UID (or 0).
pub fn backfill_window(uids: &Vec<u32>) -> (r: (i64, bool, i64))
    ensures
        r.0 == (if uids@.len() > 0 {
            uids@[0] as i64
        } else {
            1
        }),
        r.1 == (r.0 <= 1),
        r.2 == (if uids@.len() > 0 {
            uids@.last() as i64
        } else {
            0
        }),
        uids@.len() == 0 ==> r == (1i64, true, 0i64),
        uids@.len() > 0 ==> r.0 == uids@.first() && r.2 == uids@.last() && (r.1 <==> uids@.first()
            <= 1),
{
    let n: usize = uids.len();
    if n == 0 {
        (1, true, 0)
    } else {
        let low: i64 = uids[0] as i64;
        (low, low <= 1, uids[n - 1] as i64)
    }
}

// ---------------------------------------------------------------------------
// Reconciliation
// ---------------------------------------------------------------------------

/// The window of UIDs whose flags are compared, where the folder has mail.
pub fn flag_window(max_uid: i64) -> (r: Option<(i64, i64)>)
    requires
        i64::MIN <= max_uid - FLAG_WINDOW,
    ensures
        r == (if max_uid == 0 {
            None
        } else {
            Some(
                (
                    if max_uid - FLAG_WINDOW > 1 {
                        (max_uid - FLAG_WINDOW) as i64
                    } else {
                        1
                    },
                    max_uid,
                ),
            )
        }),
        r is None <==> max_uid == 0,
        r matches Some((lo, hi)) ==> hi == max_uid && 1 <= lo && hi - lo <= FLAG_WINDOW && (lo == 1
            || hi - lo == FLAG_WINDOW),
{
    if max_uid == 0 {
        None
    } else if max_uid - FLAG_WINDOW > 1 {
        Some((max_uid - FLAG_WINDOW, max_uid))
    } else {
        Some((1, max_uid))
    }
}

/// The flags of a message, here or on the server.
#[derive(Debug, Clone, Copy, PartialEq, Eq, Structural)]
pub struct Flags {
    pub seen: bool,
    pub flagged: bool,
}

/// What the server's flags do to a row.
#[derive(Debug, Clone, Copy, PartialEq, Eq, Structural)]
pub enum FlagOutcome {
    /// A local action has not reached the server yet: local pending intent wins
    /// over remote state.
    Keep,
    /// The row takes the server's flags.
    Take(Flags),
    /// They agree.
    Same,
}

pub fn reconcile_flags(local: Flags, remote: Flags, has_pending: bool) -> (r: FlagOutcome)
    ensures
        r == (if has_pending {
            FlagOutcome::Keep
        } else if local != remote {
            FlagOutcome::Take(remote)
        } else {
            FlagOutcome::Same
        }),
        r is Keep <==> has_pending,
        r matches FlagOutcome::Take(f) ==> f.seen == remote.seen && f.flagged == remote.flagged
            && !has_pending,
        !has_pending && (local.seen != remote.seen || local.flagged != remote.flagged) ==> r
            is Take,
{
    if has_pending {
        FlagOutcome::Keep
    } else if local.seen != remote.seen || local.flagged != remote.flagged {
        FlagOutcome::Take(remote)
    } else {
        FlagOutcome::Same
    }
}

/// A thread changes with the flags or the labels of one of its messages.
pub fn note_changed_thread(
    changed: &mut Vec<i64>,
    flags_changed: bool,
    labels_changed: bool,
    thread_id: Option<i64>,
)
    ensures
        final(changed)@ == (if (flags_changed || labels_changed) && thread_id is Some {
            with_new(old(changed)@, thread_id->0)
        } else {
            old(changed)@
        }),
        (flags_changed || labels_changed) && thread_id is Some ==> final(changed)@.contains(
            thread_id->0,
        ),
        !flags_changed && !labels_changed ==> final(changed)@ == old(changed)@,
{
    proof {
        if let Some(t) = thread_id {
            lemma_pushed(changed@, t);
        }
    }
    if flags_changed || labels_changed {
        if let Some(t) = thread_id {
            push_new(changed, t);
        }
    }
}

/// A row that is mapped to a UID of the folder.
#[derive(Debug, Clone, Copy, PartialEq, Eq, Structural)]
pub struct MappedRow {
    pub id: i64,
    pub uid: i64,
    pub thread_id: Option<i64>,
    pub has_pending: bool,
}

/// The message is gone from the server: it lies in the synced window, the
/// server does not list it, and no local action explains that (a local move
/// produces exactly this state).
pub open spec fn is_expunged(row: MappedRow, remote: Seq<u32>, cursor: Option<i64>) -> bool {
    &&& cursor matches Some(c) ==> row.uid >= c
    &&& cursor is None ==> row.uid == i64::MAX
    &&& !lists_uid(remote, row.uid)
    &&& !row.has_pending
}

/// The server lists the UID.
pub open spec fn lists_uid(remote: Seq<u32>, uid: i64) -> bool {
    exists|i: int| 0 <= i < remote.len() && #[trigger] remote[i] == uid
}

/// The rows that are gone from the server, in order.
pub open spec fn expunged_ids(rows: Seq<MappedRow>, remote: Seq<u32>, cursor: Option<i64>) -> Seq<
    i64,
>
    decreases rows.len(),
{
    if rows.len() == 0 {
        Seq::empty()
    } else {
        let rest = expunged_ids(rows.drop_last(), remote, cursor);
        if is_expunged(rows.last(), remote, cursor) {
            rest.push(rows.last().id)
        } else {
            rest
        }
    }
}

/// The threads that lose a message, each once, in order.
pub open spec fn expunged_threads(
    rows: Seq<MappedRow>,
    remote: Seq<u32>,
    cursor: Option<i64>,
) -> Seq<i64>
    decreases rows.len(),
{
    if rows.len() == 0 {
        Seq::empty()
    } else {
        let rest = expunged_threads(rows.drop_last(), remote, cursor);
        match rows.last().thread_id {
            Some(t) if is_expunged(rows.last(), remote, cursor) => with_new(rest, t),
            _ => rest,
        }
    }
}

fn uid_listed(remote: &Vec<u32>, uid: i64) -> (r: bool)
    ensures
        r == lists_uid(remote@, uid),
{
    let mut i: usize = 0;
    while i < remote.len()
        invariant
            i <= remote@.len(),
            forall|j: int| 0 <= j < i ==> #[trigger] remote@[j] != uid,
        decreases remote@.len() - i,
    {
        if remote[i] as i64 == uid {
            return true;
        }
        i = i + 1;
    }
    false
}

/// What is deleted is what vanished, and all of it. A row's id is deleted only
/// where the server's list does not hold its UID, the UID is not below the
/// cursor, and no action of the row is pending; every such row is deleted, and
/// the thread of each one changes, once. Where the server lists every local
/// UID, or every row has a pending action, nothing happens.
pub proof fn only_vanished_mail_is_deleted(
    rows: Seq<MappedRow>,
    remote: Seq<u32>,
    cursor: Option<i64>,
    ids: Seq<i64>,
    threads: Seq<i64>,
)
    requires
        ids == expunged_ids(rows, remote, cursor),
        threads == expunged_threads(rows, remote, cursor),
    ensures
        forall|id: i64| #[trigger]
            ids.contains(id) ==> exists|i: int|
                0 <= i < rows.len() && (#[trigger] rows[i]).id == id && !rows[i].has_pending && (
                cursor matches Some(c) ==> c <= rows[i].uid) && (forall|j: int|
                    0 <= j < remote.len() ==> #[trigger] remote[j] != rows[i].uid),
        forall|i: int|
            0 <= i < rows.len() && cursor is Some && cursor->0 <= (#[trigger] rows[i]).uid
                && !rows[i].has_pending && (forall|j: int|
                0 <= j < remote.len() ==> #[trigger] remote[j] != rows[i].uid) ==> ids.contains(
                rows[i].id,
            ) && (rows[i].thread_id matches Some(t) ==> threads.contains(t)),
        forall|t: i64| #[trigger]
            threads.contains(t) ==> exists|i: int|
                0 <= i < rows.len() && (#[trigger] rows[i]).thread_id == Some(t) && ids.contains(
                    rows[i].id,
                ) && !rows[i].has_pending && (forall|j: int|
                    0 <= j < remote.len() ==> #[trigger] remote[j] != rows[i].uid),
        (forall|i: int|
            0 <= i < rows.len() ==> (#[trigger] rows[i]).has_pending || exists|j: int|
                0 <= j < remote.len() && #[trigger] remote[j] == rows[i].uid) ==> ids.len() == 0
            && threads.len() == 0,
        threads.no_duplicates(),
        (forall|i: int, k: int|
            0 <= i < k < rows.len() ==> (#[trigger] rows[i]).id != (#[trigger] rows[k]).id)
            ==> ids.no_duplicates(),
    decreases rows.len(),
{
    if rows.len() > 0 {
        let front = rows.drop_last();
        let last = rows.last();
        let ids0 = expunged_ids(front, remote, cursor);
        let threads0 = expunged_threads(front, remote, cursor);
        only_vanished_mail_is_deleted(front, remote, cursor, ids0, threads0);
        assert(forall|i: int| 0 <= i < front.len() ==> front[i] == #[trigger] rows[i]);
        assert(last == rows[rows.len() - 1]);
        assert forall|id: i64| ids0.contains(id) implies #[trigger] ids.contains(id) by {
            let k = ids0.index_of(id);
            assert(ids[k] == id);
        }
        assert forall|t: i64| threads0.contains(t) implies #[trigger] threads.contains(t) by {
            let k = threads0.index_of(t);
            assert(threads[k] == t);
        }
        if is_expunged(last, remote, cursor) {
            assert(ids[ids.len() - 1] == last.id);
            if let Some(t) = last.thread_id {
                if !threads0.contains(t) {
                    assert(threads[threads.len() - 1] == t);
                }
            }
        }
        assert forall|id: i64| #[trigger] ids.contains(id) implies exists|i: int|
            0 <= i < rows.len() && (#[trigger] rows[i]).id == id && !rows[i].has_pending && (
            cursor matches Some(c) ==> c <= rows[i].uid) && (forall|j: int|
                0 <= j < remote.len() ==> #[trigger] remote[j] != rows[i].uid) by {
            if ids0.contains(id) {
                let i = choose|i: int|
                    0 <= i < front.len() && (#[trigger] front[i]).id == id && !front[i].has_pending
                        && (cursor matches Some(c) ==> c <= front[i].uid) && (forall|j: int|
                        0 <= j < remote.len() ==> #[trigger] remote[j] != front[i].uid);
                assert(rows[i].id == id);
            } else {
                let k = ids.index_of(id);
                assert(k == ids.len() - 1) by {
                    if k < ids0.len() {
                        assert(ids0[k] == id);
                    }
                }
                assert(rows[rows.len() - 1].id == id);
            }
        }
        assert forall|t: i64| #[trigger] threads.contains(t) implies exists|i: int|
            0 <= i < rows.len() && (#[trigger] rows[i]).thread_id == Some(t) && ids.contains(
                rows[i].id,
            ) && !rows[i].has_pending && (forall|j: int|
                0 <= j < remote.len() ==> #[trigger] remote[j] != rows[i].uid) by {
            if threads0.contains(t) {
                let i = choose|i: int|
                    0 <= i < front.len() && (#[trigger] front[i]).thread_id == Some(t)
                        && ids0.contains(front[i].id) && !front[i].has_pending && (forall|j: int|
                        0 <= j < remote.len() ==> #[trigger] remote[j] != front[i].uid);
                assert(rows[i].thread_id == Some(t));
            } else {
                let k = threads.index_of(t);
                if k < threads0.len() {
                    assert(threads0[k] == t);
                }
                assert(rows[rows.len() - 1].thread_id == Some(t));
            }
        }
        if forall|i: int, k: int|
            0 <= i < k < rows.len() ==> (#[trigger] rows[i]).id != (#[trigger] rows[k]).id {
            assert(forall|i: int, k: int|
                0 <= i < k < front.len() ==> (#[trigger] front[i]).id != (#[trigger] front[k]).id);
            if ids0.contains(last.id) {
                let i = choose|i: int|
                    0 <= i < front.len() && (#[trigger] front[i]).id == last.id;
                assert(rows[i].id != rows[rows.len() - 1].id);
            }
        }
    }
}

/// Remove local messages whose UIDs vanished from the server (within the
/// synced window): the rows to delete, and the threads that change.
pub fn reconcile_expunges(rows: &Vec<MappedRow>, remote: &Vec<u32>, cursor: Option<i64>) -> (r: (
    Vec<i64>,
    Vec<i64>,
))
    ensures
        r.0@ == expunged_ids(rows@, remote@, cursor),
        r.1@ == expunged_threads(rows@, remote@, cursor),
        forall|i: int|
            0 <= i < rows@.len() && cursor is Some && cursor->0 <= (#[trigger] rows@[i]).uid
                && !rows@[i].has_pending && (forall|j: int|
                0 <= j < remote@.len() ==> #[trigger] remote@[j] != rows@[i].uid)
                ==> r.0@.contains(rows@[i].id),
        (forall|i: int|
            0 <= i < rows@.len() ==> (#[trigger] rows@[i]).has_pending || exists|j: int|
                0 <= j < remote@.len() && #[trigger] remote@[j] == rows@[i].uid) ==> r.0@.len()
            == 0 && r.1@.len() == 0,
{
    let mut ids: Vec<i64> = Vec::new();
    let mut threads: Vec<i64> = Vec::new();
    let mut i: usize = 0;
    let from: i64 = match cursor {
        Some(c) => c,
        None => i64::MAX,
    };
    while i < rows.len()
        invariant
            i <= rows@.len(),
            from == (match cursor {
                Some(c) => c,
                None => i64::MAX,
            }),
            ids@ == expunged_ids(rows@.take(i as int), remote@, cursor),
            threads@ == expunged_threads(rows@.take(i as int), remote@, cursor),
        decreases rows@.len() - i,
    {
        proof {
            assert(rows@.take(i + 1).drop_last() =~= rows@.take(i as int));
        }
        let row: MappedRow = rows[i];
        if row.uid >= from && !uid_listed(remote, row.uid) && !row.has_pending {
            ids.push(row.id);
            if let Some(t) = row.thread_id {
                push_new(&mut threads, t);
            }
        }
        i = i + 1;
    }
    proof {
        assert(rows@.take(rows@.len() as int) =~= rows@);
        only_vanished_mail_is_deleted(rows@, remote@, cursor, ids@, threads@);
    }
    (ids, threads)
}

} // verus!
