//! Fetching message bodies: which rows may still be written, what a failed
//! fetch leads to, and what the fetched sections make up.

use vstd::prelude::*;

use crate::error::{CoreError, ErrorView};
use crate::lists::{lemma_pushed, push_new, with_new};
use crate::mime::{MimePlan, PlannedTextSection, TextSectionKind, MIME_PLAN_VERSION};
use crate::queue::{connection_failure, doubled, is_connection_failure};
use crate::sync::batches::PlannedBodyFetch;
use crate::text::{
    concat2, contains_word, decimal, decimal_int, has_word, i64_text, join, join_texts, lower,
    lower_str, opt_text, owned, texts, u64_text,
};

verus! {

// ---------------------------------------------------------------------------
// Rows
// ---------------------------------------------------------------------------

/// Where a message is, and what is known of its body, right now.
#[derive(Debug, Clone)]
pub struct CurrentBodyRow {
    pub folder_id: Option<i64>,
    pub uid: Option<i64>,
    pub body_state: String,
}

/// The row is still at this place on the server.
pub open spec fn at_place(row: CurrentBodyRow, folder_id: i64, uid: i64) -> bool {
    row.folder_id == Some(folder_id) && row.uid == Some(uid)
}

pub fn is_at_place(row: &CurrentBodyRow, folder_id: i64, uid: i64) -> (r: bool)
    ensures
        r == at_place(*row, folder_id, uid),
{
    match (row.folder_id, row.uid) {
        (Some(f), Some(u)) => f == folder_id && u == uid,
        _ => false,
    }
}

/// A remote location that was read before is still the message's own; a row
/// that is gone has none.
pub fn remote_location_is_current(row: Option<&CurrentBodyRow>, folder_id: i64, uid: i64) -> (r:
    bool)
    ensures
        r == (row is Some && at_place(*row->0, folder_id, uid)),
{
    match row {
        Some(r) => is_at_place(r, folder_id, uid),
        None => false,
    }
}

/// The row is still in its place and nobody has claimed its body.
pub open spec fn is_background_row(row: CurrentBodyRow, folder_id: i64, uid: i64) -> bool {
    at_place(row, folder_id, uid) && row.body_state@ == "none"@
}

/// A priority reader, move, expunge, or UID reset may have changed a message
/// after the background queue was built: background work goes on only where
/// none of these has happened.
pub fn is_current_background_row(row: &CurrentBodyRow, folder_id: i64, uid: i64) -> (r: bool)
    ensures
        r == is_background_row(*row, folder_id, uid),
        r <==> row.folder_id == Some(folder_id) && row.uid == Some(uid) && row.body_state@
            == "none"@,
{
    is_at_place(row, folder_id, uid) && row.body_state.as_str().eq("none")
}

/// On whose behalf a body is written. A reader that opened the message claims
/// it as `fetching` before it fetches; background work leaves it `none`.
#[derive(Debug, Clone, Copy, PartialEq, Eq, Structural)]
pub enum SelectivePersistGuard {
    Background { folder_id: i64 },
    Priority { folder_id: i64 },
}

impl SelectivePersistGuard {
    pub open spec fn folder(self) -> i64 {
        match self {
            SelectivePersistGuard::Background { folder_id } => folder_id,
            SelectivePersistGuard::Priority { folder_id } => folder_id,
        }
    }

    /// The body state under which the row was claimed.
    pub open spec fn claim(self) -> Seq<char> {
        match self {
            SelectivePersistGuard::Background { .. } => "none"@,
            SelectivePersistGuard::Priority { .. } => "fetching"@,
        }
    }
}

/// The body may be written under this guard.
pub open spec fn may_persist(row: CurrentBodyRow, guard: SelectivePersistGuard, uid: u32) -> bool {
    at_place(row, guard.folder(), uid as i64) && row.body_state@ == guard.claim()
}

pub fn can_persist_selective_content(
    row: &CurrentBodyRow,
    guard: SelectivePersistGuard,
    uid: u32,
) -> (r: bool)
    ensures
        r == may_persist(*row, guard, uid),
{
    match guard {
        SelectivePersistGuard::Background { folder_id } => is_at_place(row, folder_id, uid as i64)
            && row.body_state.as_str().eq("none"),
        SelectivePersistGuard::Priority { folder_id } => is_at_place(row, folder_id, uid as i64)
            && row.body_state.as_str().eq("fetching"),
    }
}

/// A body is never written over one that is cached, nor into a place that the
/// message has left; and a row can be claimed by one side only.
pub proof fn claims_exclude_each_other(
    row: CurrentBodyRow,
    guard: SelectivePersistGuard,
    other: SelectivePersistGuard,
    uid: u32,
)
    requires
        may_persist(row, guard, uid),
    ensures
        row.body_state@ != "cached"@,
        row.folder_id == Some(guard.folder()),
        row.uid == Some(uid as i64),
        guard is Background && other is Priority ==> !may_persist(row, other, uid),
        guard is Priority && other is Background ==> !may_persist(row, other, uid),
{
    reveal_strlit("none");
    reveal_strlit("fetching");
    reveal_strlit("cached");
    assert("none"@.len() == 4 && "fetching"@.len() == 8 && "cached"@.len() == 6);
}

/// Release a row that a fetch had claimed. A batch may cache earlier messages
/// before a later one fails: successful siblings are not rolled back.
pub fn released_state(body_state: &str) -> (r: String)
    ensures
        r@ == (if body_state@ == "fetching"@ {
            "none"@
        } else {
            body_state@
        }),
        r@ != "fetching"@,
        body_state@ == "cached"@ ==> r@ == "cached"@,
{
    proof {
        reveal_strlit("none");
        reveal_strlit("fetching");
        reveal_strlit("cached");
        assert("none"@.len() == 4 && "fetching"@.len() == 8 && "cached"@.len() == 6);
    }
    if body_state.eq("fetching") {
        owned("none")
    } else {
        owned(body_state)
    }
}

/// The file that holds a message's raw MIME. The name holds the guarded remote
/// identity, so a stale in-flight read can never overwrite a newer location's
/// raw cache file for the same local row.
pub fn raw_file_name(message_id: i64, folder_id: i64, uid: u32) -> (r: String)
    ensures
        r@ == decimal_int(message_id as int) + "."@ + decimal_int(folder_id as int) + "."@
            + decimal(uid as nat) + ".eml"@,
{
    let mut out: String = i64_text(message_id);
    out.push_str(".");
    let folder: String = i64_text(folder_id);
    out.push_str(folder.as_str());
    out.push_str(".");
    let number: String = u64_text(uid as u64);
    out.push_str(number.as_str());
    out.push_str(".eml");
    out
}

/// What a run of persisted bodies comes to: how many were written, and the
/// threads to refresh, each once.
#[derive(Debug, Clone)]
pub struct PersistTally {
    pub count: u64,
    pub thread_ids: Vec<i64>,
}

impl PersistTally {
    pub fn new() -> (r: PersistTally)
        ensures
            r.count == 0,
            r.thread_ids@.len() == 0,
    {
        PersistTally { count: 0, thread_ids: Vec::new() }
    }

    /// Counts a body that was written.
    pub fn written(&mut self, thread_id: Option<i64>)
        requires
            old(self).count < u64::MAX,
        ensures
            final(self).count == old(self).count + 1,
            final(self).thread_ids@ == (match thread_id {
                Some(t) => with_new(old(self).thread_ids@, t),
                None => old(self).thread_ids@,
            }),
    {
        self.count = self.count + 1;
        if let Some(t) = thread_id {
            push_new(&mut self.thread_ids, t);
        }
    }
}

// ---------------------------------------------------------------------------
// Failures
// ---------------------------------------------------------------------------

#[derive(Debug, Clone)]
pub enum BodyChunkError {
    /// The selected IMAP protocol stream is no longer safe to reuse. Reconnect
    /// and reduce the request before retrying.
    Reconnect(CoreError),
    /// A local DB/task/persistence error cannot be repaired by reconnecting to
    /// IMAP or bisecting the same request.
    Fatal(CoreError),
}

/// The failure is one of the connection or of the protocol on it.
pub open spec fn is_transport(e: CoreError) -> bool {
    e is Imap || e is Network || e is Offline
}

pub fn classify_body_chunk_error(error: CoreError) -> (r: BodyChunkError)
    ensures
        r == (if is_transport(error) {
            BodyChunkError::Reconnect(error)
        } else {
            BodyChunkError::Fatal(error)
        }),
        error is Offline || error is Network || error is Imap ==> r == BodyChunkError::Reconnect(
            error,
        ),
        error is Other || error is NotFound || error is Mime || error is Io ==> r
            == BodyChunkError::Fatal(error),
{
    match error {
        CoreError::Imap(_) => BodyChunkError::Reconnect(error),
        CoreError::Network(_) => BodyChunkError::Reconnect(error),
        CoreError::Offline => BodyChunkError::Reconnect(error),
        _ => BodyChunkError::Fatal(error),
    }
}

/// Only what the connection or the protocol on it has failed at is worth a new
/// connection: a failure of the store, of a file or of the mail itself is not.
pub proof fn only_lost_connections_reconnect(e: CoreError)
    ensures
        e is Imap || e is Network || e is Offline ==> is_transport(e),
        e is Mime || e is NotFound || e is Other || e is NeedsReauth || e is Auth || e is Smtp
            ==> !is_transport(e),
{
}

/// The first retry of a message's content comes after a minute.
pub const CONTENT_RETRY_MS: i64 = 60_000;

/// No retry of a message's content waits longer than eight hours.
pub const MAX_CONTENT_RETRY_MS: i64 = 28_800_000;

/// The wait before the retry that follows attempt `attempts`: it doubles from
/// a minute up to the ceiling.
pub open spec fn content_delay(attempts: nat) -> int {
    let grown = if attempts <= 1 {
        CONTENT_RETRY_MS as int
    } else {
        CONTENT_RETRY_MS * doubled((attempts - 1) as nat)
    };
    if grown <= MAX_CONTENT_RETRY_MS {
        grown
    } else {
        MAX_CONTENT_RETRY_MS as int
    }
}

proof fn lemma_doubled_grows(a: nat, b: nat)
    requires
        a <= b,
    ensures
        1 <= doubled(a) <= doubled(b),
    decreases b,
{
    if a < b {
        lemma_doubled_grows(a, (b - 1) as nat);
    } else if a > 0 {
        lemma_doubled_grows((a - 1) as nat, (b - 1) as nat);
    }
}

/// A deterministic refusal must back off, not retry every minute forever.
pub fn content_retry_delay_ms(attempts: u32) -> (r: i64)
    ensures
        r == content_delay(attempts as nat),
        CONTENT_RETRY_MS <= r <= MAX_CONTENT_RETRY_MS,
{
    let mut delay: i64 = CONTENT_RETRY_MS;
    let mut n: u32 = 1;
    proof {
        assert(doubled(0) == 1);
    }
    while n < attempts && delay < MAX_CONTENT_RETRY_MS
        invariant
            1 <= n,
            n <= attempts || n == 1,
            CONTENT_RETRY_MS <= delay,
            delay == CONTENT_RETRY_MS * doubled((n - 1) as nat),
            delay < 2 * MAX_CONTENT_RETRY_MS,
        decreases attempts - n,
    {
        proof {
            assert(doubled(n as nat) == 2 * doubled((n - 1) as nat));
            assert(CONTENT_RETRY_MS * (2 * doubled((n - 1) as nat)) == 2 * (CONTENT_RETRY_MS
                * doubled((n - 1) as nat))) by (nonlinear_arith);
        }
        delay = delay * 2;
        n = n + 1;
    }
    proof {
        if n < attempts {
            lemma_doubled_grows((n - 1) as nat, (attempts - 1) as nat);
            assert(CONTENT_RETRY_MS * doubled((n - 1) as nat) <= CONTENT_RETRY_MS * doubled(
                (attempts - 1) as nat,
            )) by (nonlinear_arith)
                requires
                    doubled((n - 1) as nat) <= doubled((attempts - 1) as nat),
            ;
        }
    }
    if delay < MAX_CONTENT_RETRY_MS {
        delay
    } else {
        MAX_CONTENT_RETRY_MS
    }
}

/// Retries of a message's content come at growing intervals, never more often
/// than once a minute and never further apart than eight hours.
pub proof fn content_retries_back_off(earlier: nat, later: nat)
    requires
        earlier <= later,
    ensures
        content_delay(earlier) <= content_delay(later),
        CONTENT_RETRY_MS <= content_delay(earlier) <= MAX_CONTENT_RETRY_MS,
        content_delay(0) == 60_000,
        content_delay(1) == 60_000,
        content_delay(2) == 120_000,
        1 <= earlier && content_delay(earlier) < MAX_CONTENT_RETRY_MS ==> content_delay(earlier + 1)
            == 2 * content_delay(earlier) || content_delay(earlier + 1) == MAX_CONTENT_RETRY_MS,
{
    reveal_with_fuel(doubled, 3);
    if earlier >= 1 {
        let a = (earlier - 1) as nat;
        let b = (later - 1) as nat;
        lemma_doubled_grows(a, b);
        assert(CONTENT_RETRY_MS <= CONTENT_RETRY_MS * doubled(a) <= CONTENT_RETRY_MS * doubled(b))
            by (nonlinear_arith)
            requires
                1 <= doubled(a) <= doubled(b),
        ;
        assert(doubled(earlier) == 2 * doubled(a));
        assert(CONTENT_RETRY_MS * (2 * doubled(a)) == 2 * (CONTENT_RETRY_MS * doubled(a)))
            by (nonlinear_arith);
    } else if later >= 2 {
        let b = (later - 1) as nat;
        lemma_doubled_grows(0, b);
        assert(CONTENT_RETRY_MS <= CONTENT_RETRY_MS * doubled(b)) by (nonlinear_arith)
            requires
                1 <= doubled(b),
        ;
    }
}

// ---------------------------------------------------------------------------
// What is asked of the server
// ---------------------------------------------------------------------------

/// Whether the MIME header of a section is asked for along with its bytes. The
/// plan already holds what the header says, so leaving it out loses nothing.
#[derive(Debug, Clone, Copy, PartialEq, Eq, Structural)]
pub enum MimeHeaderMode {
    Include,
    Omit,
}

/// The server refused a section as such: its answer is `BAD`, a word of its own
/// in the failure's text, and the connection is not lost.
pub open spec fn section_refused(e: CoreError) -> bool {
    e matches CoreError::Imap(m) && has_word(lower(m@), "bad"@) && !connection_failure(m@)
}

/// Tells an unsupported-section `BAD` from transport errors, so a dropped
/// connection still triggers a reconnect rather than a silent capability
/// downgrade.
pub fn is_unsupported_section_error(error: &CoreError) -> (r: bool)
    ensures
        r == section_refused(*error),
{
    match error {
        CoreError::Imap(m) => {
            let low: String = lower_str(m.as_str());
            proof {
                reveal_strlit("bad");
            }
            contains_word(low.as_str(), "bad") && !is_connection_failure(m.as_str())
        },
        _ => false,
    }
}

/// How sections are asked for on a connection: a server that refuses section
/// headers is asked for them exactly once per session.
#[derive(Debug, Clone, Copy, PartialEq, Eq, Structural)]
pub struct SectionCapability {
    pub headers_unsupported: bool,
}

impl SectionCapability {
    pub fn new() -> (r: SectionCapability)
        ensures
            !r.headers_unsupported,
    {
        SectionCapability { headers_unsupported: false }
    }

    /// How the next batch is asked for.
    pub open spec fn next_mode(self) -> MimeHeaderMode {
        if self.headers_unsupported {
            MimeHeaderMode::Omit
        } else {
            MimeHeaderMode::Include
        }
    }

    pub fn mode(&self) -> (r: MimeHeaderMode)
        ensures
            r == self.next_mode(),
    {
        if self.headers_unsupported {
            MimeHeaderMode::Omit
        } else {
            MimeHeaderMode::Include
        }
    }

    /// Whether a batch that failed is asked for once more, without the section
    /// headers; this is then remembered.
    pub fn retry_without_headers(&mut self, tried: MimeHeaderMode, error: &CoreError) -> (r: bool)
        ensures
            r == (tried is Include && section_refused(*error)),
            final(self).headers_unsupported == (old(self).headers_unsupported || r),
    {
        if matches!(tried, MimeHeaderMode::Include) && is_unsupported_section_error(error) {
            self.headers_unsupported = true;
            true
        } else {
            false
        }
    }
}

/// A server that refuses the section headers is asked for them once: from then
/// on they are left out, and no refusal starts the question again.
pub proof fn refused_headers_are_asked_for_once(
    before: SectionCapability,
    after: SectionCapability,
    error: CoreError,
    later: CoreError,
)
    requires
        before.next_mode() is Include,
        section_refused(error),
        after.headers_unsupported == (before.headers_unsupported || (before.next_mode() is Include
            && section_refused(error))),
    ensures
        after.next_mode() is Omit,
        !(after.next_mode() is Include && section_refused(later)),
{
}

/// The largest message that background work fetches whole.
pub const MAX_BACKGROUND_FULL_FETCH_BYTES: i64 = 2_097_152;

/// When the selective path fails, a message is fetched whole in the background
/// only where its stored size is known and small enough. Anything larger is
/// left to the on-open path, where the user has asked for the bytes.
pub fn may_rescue(size: Option<i64>) -> (r: bool)
    ensures
        r == (size matches Some(n) && n <= MAX_BACKGROUND_FULL_FETCH_BYTES),
        size is None ==> !r,
        size is Some && size->0 > 2_097_152 ==> !r,
        size is Some && size->0 <= 2_097_152 ==> r,
{
    match size {
        Some(n) => n <= MAX_BACKGROUND_FULL_FETCH_BYTES,
        None => false,
    }
}

/// What a failed whole-message fetch means for the rest of a chunk.
#[derive(Debug, Clone)]
pub enum RescueFailure {
    /// The connection is gone: the chunk is given up instead of stamping the
    /// failure onto every remaining message.
    AbortChunk(CoreError),
    /// The failure is this message's own.
    Record(CoreError),
}

pub fn rescue_failure(error: CoreError) -> (r: RescueFailure)
    ensures
        r == (if is_transport(error) {
            RescueFailure::AbortChunk(error)
        } else {
            RescueFailure::Record(error)
        }),
        error is Offline || error is Network || error is Imap ==> r == RescueFailure::AbortChunk(
            error,
        ),
        error is Other || error is NotFound || error is Mime || error is Io ==> r
            == RescueFailure::Record(error),
{
    match error {
        CoreError::Imap(_) => RescueFailure::AbortChunk(error),
        CoreError::Network(_) => RescueFailure::AbortChunk(error),
        CoreError::Offline => RescueFailure::AbortChunk(error),
        _ => RescueFailure::Record(error),
    }
}

/// How far the whole-message fetch of one message has come.
#[derive(Debug, Clone)]
pub enum RescueAnswer {
    /// It is too large, or of unknown size, and was not asked for.
    NotAsked,
    /// The server has it no longer.
    Gone,
    FetchFailed(CoreError),
    StoreFailed(CoreError),
    /// It was handed to the store, which wrote a row or did not: the row may have
    /// moved on meanwhile.
    Stored { written: bool },
}

/// What a rescue means for the chunk.
#[derive(Debug, Clone)]
pub enum RescueOutcome {
    /// The message is settled; this many bodies were stored.
    Count(u64),
    /// The failure that made the rescue necessary is recorded.
    Record,
    /// The connection is gone: the chunk is given up.
    Abort(CoreError),
}

/// The message is counted only where its body was stored. A failure of its own is
/// recorded; one of the connection ends the chunk instead of being stamped onto
/// every remaining message.
pub fn rescue_outcome(answer: RescueAnswer) -> (r: RescueOutcome)
    ensures
        r == (match answer {
            RescueAnswer::NotAsked | RescueAnswer::Gone | RescueAnswer::StoreFailed(
                _,
            ) => RescueOutcome::Record,
            RescueAnswer::FetchFailed(e) => if is_transport(e) {
                RescueOutcome::Abort(e)
            } else {
                RescueOutcome::Record
            },
            RescueAnswer::Stored { written } => RescueOutcome::Count(
                if written {
                    1
                } else {
                    0
                },
            ),
        }),
        r is Count <==> answer is Stored,
        r is Abort ==> answer is FetchFailed,
        answer == (RescueAnswer::Stored { written: true }) ==> r == RescueOutcome::Count(1),
        answer matches RescueAnswer::FetchFailed(e) ==> (e is Offline || e is Network || e is Imap
            ==> r is Abort),
{
    match answer {
        RescueAnswer::NotAsked | RescueAnswer::Gone | RescueAnswer::StoreFailed(
            _,
        ) => RescueOutcome::Record,
        RescueAnswer::FetchFailed(e) => match rescue_failure(e) {
            RescueFailure::AbortChunk(e) => RescueOutcome::Abort(e),
            RescueFailure::Record(_) => RescueOutcome::Record,
        },
        RescueAnswer::Stored { written } => RescueOutcome::Count(
            if written {
                1
            } else {
                0
            },
        ),
    }
}

// ---------------------------------------------------------------------------
// Plans
// ---------------------------------------------------------------------------

/// A row of a chunk with the plan that is stored for it, where it is readable.
#[derive(Debug, Clone)]
pub struct LoadedRow {
    pub message_id: i64,
    pub uid: i64,
    pub plan: Option<MimePlan>,
}

/// The number is a UID.
pub open spec fn is_uid(n: i64) -> bool {
    0 <= n <= u32::MAX
}

/// The UIDs whose plan has to be asked for, in order.
pub open spec fn unplanned_uids(rows: Seq<LoadedRow>) -> Seq<u32>
    decreases rows.len(),
{
    if rows.len() == 0 {
        Seq::empty()
    } else {
        let rest = unplanned_uids(rows.drop_last());
        let row = rows.last();
        if row.plan is None && is_uid(row.uid) {
            rest.push(row.uid as u32)
        } else {
            rest
        }
    }
}

pub fn missing_plan_uids(rows: &Vec<LoadedRow>) -> (r: Vec<u32>)
    ensures
        r@ == unplanned_uids(rows@),
{
    let mut out: Vec<u32> = Vec::new();
    let mut i: usize = 0;
    while i < rows.len()
        invariant
            i <= rows@.len(),
            out@ == unplanned_uids(rows@.take(i as int)),
        decreases rows@.len() - i,
    {
        proof {
            assert(rows@.take(i + 1).drop_last() =~= rows@.take(i as int));
        }
        let uid: i64 = rows[i].uid;
        if rows[i].plan.is_none() && 0 <= uid && uid <= 4294967295 {
            out.push(uid as u32);
        }
        i = i + 1;
    }
    proof {
        assert(rows@.take(rows@.len() as int) =~= rows@);
    }
    out
}

/// A plan that the server described for a UID.
#[derive(Debug, Clone)]
pub struct DiscoveredPlan {
    pub uid: u32,
    pub plan: MimePlan,
}

/// The plan that was discovered for a UID: the last readable one.
pub open spec fn plan_for(found: Seq<DiscoveredPlan>, uid: u32) -> Option<MimePlan>
    decreases found.len(),
{
    if found.len() == 0 {
        None
    } else if found.last().uid == uid && found.last().plan.version == MIME_PLAN_VERSION {
        Some(found.last().plan)
    } else {
        plan_for(found.drop_last(), uid)
    }
}

pub fn discovered_plan(found: &Vec<DiscoveredPlan>, uid: i64) -> (r: Option<&MimePlan>)
    ensures
        crate::actions::owned_ref(r) == (if is_uid(uid) {
            plan_for(found@, uid as u32)
        } else {
            None
        }),
{
    if uid < 0 || uid > 4294967295 {
        return None;
    }
    let wanted: u32 = uid as u32;
    let mut k: usize = found.len();
    proof {
        assert(found@.take(k as int) =~= found@);
    }
    while k > 0
        invariant
            k <= found@.len(),
            is_uid(uid),
            wanted == uid as u32,
            plan_for(found@, wanted) == plan_for(found@.take(k as int), wanted),
        decreases k,
    {
        proof {
            assert(found@.take(k as int).drop_last() =~= found@.take(k - 1));
        }
        if found[k - 1].uid == wanted && found[k - 1].plan.version == MIME_PLAN_VERSION {
            return Some(&found[k - 1].plan);
        }
        k = k - 1;
    }
    None
}

/// A message whose content cannot be fetched, and why.
pub type ContentFailure = (i64, String);

pub open spec fn failure_views(v: Seq<ContentFailure>) -> Seq<(i64, Seq<char>)> {
    v.map_values(|f: ContentFailure| (f.0, f.1@))
}

/// What is fetched of the rows that have a plan.
pub open spec fn planned_of(rows: Seq<LoadedRow>) -> Seq<PlannedBodyFetch>
    decreases rows.len(),
{
    if rows.len() == 0 {
        Seq::empty()
    } else {
        let rest = planned_of(rows.drop_last());
        let row = rows.last();
        match row.plan {
            Some(plan) if is_uid(row.uid) => rest.push(
                PlannedBodyFetch { message_id: row.message_id, uid: row.uid as u32, plan },
            ),
            _ => rest,
        }
    }
}

/// What is wrong with the rows that cannot be fetched.
pub open spec fn unfetchable(rows: Seq<LoadedRow>) -> Seq<(i64, Seq<char>)>
    decreases rows.len(),
{
    if rows.len() == 0 {
        Seq::empty()
    } else {
        let rest = unfetchable(rows.drop_last());
        let row = rows.last();
        if !is_uid(row.uid) {
            rest.push((row.message_id, "invalid remote UID "@ + decimal_int(row.uid as int)))
        } else if row.plan is None {
            rest.push(
                (
                    row.message_id,
                    "server did not provide BODYSTRUCTURE for UID "@ + decimal_int(row.uid as int),
                ),
            )
        } else {
            rest
        }
    }
}

/// No row of a chunk is passed over: each is asked for under its own UID with its
/// own plan, or fails under its own id, and it is asked for exactly where it has a
/// plan and its UID is one.
pub proof fn every_row_is_asked_for_or_fails(rows: Seq<LoadedRow>)
    ensures
        planned_of(rows).len() + unfetchable(rows).len() == rows.len(),
        forall|p: PlannedBodyFetch| #[trigger]
            planned_of(rows).contains(p) <==> exists|i: int|
                0 <= i < rows.len() && (#[trigger] rows[i]).message_id == p.message_id
                    && rows[i].uid == p.uid && rows[i].plan == Some(p.plan),
        forall|k: int|
            0 <= k < unfetchable(rows).len() ==> exists|i: int|
                0 <= i < rows.len() && (#[trigger] unfetchable(rows)[k]).0 == (
                #[trigger] rows[i]).message_id && (rows[i].plan is None || rows[i].uid < 0
                    || rows[i].uid > u32::MAX),
    decreases rows.len(),
{
    if rows.len() > 0 {
        let n = rows.len() - 1;
        let front = rows.drop_last();
        let row = rows[n];
        every_row_is_asked_for_or_fails(front);
        assert(forall|i: int| 0 <= i < n ==> front[i] == #[trigger] rows[i]);
        let rest = planned_of(front);
        let all = planned_of(rows);
        if is_uid(row.uid) && row.plan is Some {
            lemma_pushed(
                rest,
                PlannedBodyFetch {
                    message_id: row.message_id,
                    uid: row.uid as u32,
                    plan: row.plan->0,
                },
            );
        }
        assert forall|p: PlannedBodyFetch| #[trigger] all.contains(p) <==> exists|i: int|
            0 <= i < rows.len() && (#[trigger] rows[i]).message_id == p.message_id && rows[i].uid
                == p.uid && rows[i].plan == Some(p.plan) by {
            if rest.contains(p) {
                let i = choose|i: int|
                    0 <= i < front.len() && (#[trigger] front[i]).message_id == p.message_id
                        && front[i].uid == p.uid && front[i].plan == Some(p.plan);
                assert(rows[i].message_id == p.message_id);
            }
            if exists|i: int|
                0 <= i < rows.len() && (#[trigger] rows[i]).message_id == p.message_id
                    && rows[i].uid == p.uid && rows[i].plan == Some(p.plan) {
                let i = choose|i: int|
                    0 <= i < rows.len() && (#[trigger] rows[i]).message_id == p.message_id
                        && rows[i].uid == p.uid && rows[i].plan == Some(p.plan);
                if i < n {
                    assert(front[i].message_id == p.message_id);
                }
            }
            if all.contains(p) && !rest.contains(p) {
                assert(rows[n].message_id == p.message_id);
            }
        }
        let failed = unfetchable(front);
        let now = unfetchable(rows);
        assert forall|k: int| 0 <= k < now.len() implies exists|i: int|
            0 <= i < rows.len() && (#[trigger] now[k]).0 == (#[trigger] rows[i]).message_id && (
            rows[i].plan is None || rows[i].uid < 0 || rows[i].uid > u32::MAX) by {
            if k < failed.len() {
                assert(now[k] == failed[k]);
                let i = choose|i: int|
                    0 <= i < front.len() && failed[k].0 == (#[trigger] front[i]).message_id && (
                    front[i].plan is None || front[i].uid < 0 || front[i].uid > u32::MAX);
                assert(rows[i] == front[i]);
            } else {
                assert(now[k].0 == rows[n].message_id);
            }
        }
    }
}

/// A plan is asked for exactly where none is stored that can be read.
pub proof fn plans_are_asked_for_where_missing(rows: Seq<LoadedRow>)
    ensures
        forall|u: u32| #[trigger]
            unplanned_uids(rows).contains(u) <==> exists|i: int|
                0 <= i < rows.len() && (#[trigger] rows[i]).uid == u && rows[i].plan is None,
    decreases rows.len(),
{
    if rows.len() > 0 {
        let n = rows.len() - 1;
        let front = rows.drop_last();
        plans_are_asked_for_where_missing(front);
        assert(forall|i: int| 0 <= i < n ==> front[i] == #[trigger] rows[i]);
        let rest = unplanned_uids(front);
        let all = unplanned_uids(rows);
        if is_uid(rows[n].uid) && rows[n].plan is None {
            lemma_pushed(rest, rows[n].uid as u32);
        }
        assert forall|u: u32| #[trigger] all.contains(u) <==> exists|i: int|
            0 <= i < rows.len() && (#[trigger] rows[i]).uid == u && rows[i].plan is None by {
            if rest.contains(u) {
                let i = choose|i: int|
                    0 <= i < front.len() && (#[trigger] front[i]).uid == u && front[i].plan is None;
                assert(rows[i].uid == u);
            }
            if exists|i: int|
                0 <= i < rows.len() && (#[trigger] rows[i]).uid == u && rows[i].plan is None {
                let i = choose|i: int|
                    0 <= i < rows.len() && (#[trigger] rows[i]).uid == u && rows[i].plan is None;
                if i < n {
                    assert(front[i].uid == u);
                }
            }
            if all.contains(u) && !rest.contains(u) {
                assert(rows[n].uid == u);
            }
        }
    }
}

/// A row gets the plan that the server described last under its own UID, of those
/// that this build can read.
pub proof fn plans_go_to_their_uids(found: Seq<DiscoveredPlan>, uid: u32)
    ensures
        plan_for(found, uid) matches Some(p) ==> p.version == MIME_PLAN_VERSION && exists|k: int|
            0 <= k < found.len() && (#[trigger] found[k]).uid == uid && found[k].plan == p
                && forall|l: int|
                k < l < found.len() ==> (#[trigger] found[l]).uid != uid || found[l].plan.version
                    != MIME_PLAN_VERSION,
        plan_for(found, uid) is None ==> forall|k: int|
            0 <= k < found.len() ==> (#[trigger] found[k]).uid != uid || found[k].plan.version
                != MIME_PLAN_VERSION,
    decreases found.len(),
{
    if found.len() > 0 {
        let n = found.len() - 1;
        let front = found.drop_last();
        plans_go_to_their_uids(front, uid);
        assert(forall|i: int| 0 <= i < n ==> front[i] == #[trigger] found[i]);
        if found[n].uid == uid && found[n].plan.version == MIME_PLAN_VERSION {
            assert(found[n].plan == plan_for(found, uid)->0);
        } else if let Some(p) = plan_for(front, uid) {
            let k = choose|k: int|
                0 <= k < front.len() && (#[trigger] front[k]).uid == uid && front[k].plan == p
                    && forall|l: int|
                    k < l < front.len() ==> (#[trigger] front[l]).uid != uid
                        || front[l].plan.version != MIME_PLAN_VERSION;
            assert(found[k].uid == uid);
        }
    }
}

/// The rows that can be fetched, and the others with what is wrong with them.
pub fn prepare_body_fetches(loaded: Vec<LoadedRow>) -> (r: (
    Vec<PlannedBodyFetch>,
    Vec<ContentFailure>,
))
    ensures
        r.0@ == planned_of(loaded@),
        failure_views(r.1@) == unfetchable(loaded@),
{
    let ghost all = loaded@;
    let mut rest: Vec<LoadedRow> = loaded;
    let mut stack: Vec<LoadedRow> = Vec::new();
    proof {
        assert(all.take(all.len() as int) =~= all);
        assert(all.skip(all.len() as int).reverse() =~= Seq::empty());
    }
    while rest.len() > 0
        invariant
            rest@.len() <= all.len(),
            rest@ == all.take(rest@.len() as int),
            stack@ == all.skip(rest@.len() as int).reverse(),
        decreases rest@.len(),
    {
        let ghost n = rest@.len() as int;
        if let Some(row) = rest.pop() {
            stack.push(row);
            proof {
                assert(rest@ =~= all.take(n - 1));
                assert(all.skip(n - 1).reverse() =~= all.skip(n).reverse().push(all[n - 1]));
            }
        }
    }
    let mut planned: Vec<PlannedBodyFetch> = Vec::new();
    let mut failures: Vec<ContentFailure> = Vec::new();
    proof {
        assert(all.skip(0) =~= all);
        assert(failure_views(failures@) =~= Seq::empty());
    }
    while stack.len() > 0
        invariant
            stack@.len() <= all.len(),
            stack@ == all.skip(all.len() - stack@.len()).reverse(),
            planned@ == planned_of(all.take(all.len() - stack@.len())),
            failure_views(failures@) == unfetchable(all.take(all.len() - stack@.len())),
        decreases stack@.len(),
    {
        let ghost k = all.len() - stack@.len();
        let ghost failed = failures@;
        proof {
            assert(all.take(k + 1).drop_last() =~= all.take(k));
            assert(all.take(k + 1).last() == all[k]);
        }
        if let Some(row) = stack.pop() {
            proof {
                assert(row == all[k]);
                assert(stack@ =~= all.skip(k + 1).reverse());
            }
            if row.uid < 0 || row.uid > 4294967295 {
                let number: String = i64_text(row.uid);
                failures.push((row.message_id, concat2("invalid remote UID ", number.as_str())));
                proof {
                    assert(failure_views(failures@) =~= failure_views(failed).push(
                        (row.message_id, "invalid remote UID "@ + decimal_int(row.uid as int)),
                    ));
                }
            } else {
                match row.plan {
                    Some(plan) => {
                        planned.push(
                            PlannedBodyFetch {
                                message_id: row.message_id,
                                uid: row.uid as u32,
                                plan,
                            },
                        );
                    },
                    None => {
                        let number: String = i64_text(row.uid);
                        failures.push(
                            (
                                row.message_id,
                                concat2(
                                    "server did not provide BODYSTRUCTURE for UID ",
                                    number.as_str(),
                                ),
                            ),
                        );
                        proof {
                            assert(failure_views(failures@) =~= failure_views(failed).push(
                                (
                                    row.message_id,
                                    "server did not provide BODYSTRUCTURE for UID "@ + decimal_int(
                                        row.uid as int,
                                    ),
                                ),
                            ));
                        }
                    },
                }
            }
        }
    }
    proof {
        assert(all.take(all.len() as int) =~= all);
    }
    (planned, failures)
}

// ---------------------------------------------------------------------------
// Decoding
// ---------------------------------------------------------------------------

/// A decoded section.
#[derive(Debug, Clone)]
pub struct DecodedText {
    pub kind: TextSectionKind,
    pub content: String,
}

/// A section that the server sent, decoded as its plan says.
#[derive(Debug)]
pub struct FetchedText {
    pub section: String,
    pub decoded: Result<DecodedText, CoreError>,
}

/// What a message's fetched sections make up.
#[derive(Debug, Clone)]
pub struct DecodedSelectiveContent {
    pub message_id: i64,
    pub uid: u32,
    pub plan: MimePlan,
    pub text_body: Option<String>,
    pub html_body: Option<String>,
    pub calendar_parts: Vec<String>,
}

/// The contents of sections by kind, each in the order of the plan.
pub struct PartsView {
    pub plain: Seq<Seq<char>>,
    pub html: Seq<Seq<char>>,
    pub calendar: Seq<Seq<char>>,
}

pub open spec fn with_part(p: PartsView, d: DecodedText) -> PartsView {
    match d.kind {
        TextSectionKind::Plain => PartsView { plain: p.plain.push(d.content@), ..p },
        TextSectionKind::Html => PartsView { html: p.html.push(d.content@), ..p },
        TextSectionKind::Calendar => PartsView { calendar: p.calendar.push(d.content@), ..p },
    }
}

/// What the server sent for a section; where it sent it twice, the last.
pub open spec fn sent_section(
    fetched: Seq<FetchedText>,
    section: Seq<char>,
) -> Option<Result<DecodedText, CoreError>>
    decreases fetched.len(),
{
    if fetched.len() == 0 {
        None
    } else if fetched.last().section@ == section {
        Some(fetched.last().decoded)
    } else {
        sent_section(fetched.drop_last(), section)
    }
}

/// The contents of the first planned sections, or the first thing that is
/// wrong with one of them.
pub open spec fn planned_parts(
    planned: Seq<PlannedTextSection>,
    fetched: Seq<FetchedText>,
) -> Result<PartsView, ErrorView>
    decreases planned.len(),
{
    if planned.len() == 0 {
        Ok(PartsView { plain: Seq::empty(), html: Seq::empty(), calendar: Seq::empty() })
    } else {
        match planned_parts(planned.drop_last(), fetched) {
            Err(e) => Err(e),
            Ok(p) => match sent_section(fetched, planned.last().section@) {
                None => Err(
                    ErrorView::Imap(
                        "server omitted planned MIME section "@ + planned.last().section@,
                    ),
                ),
                Some(Err(e)) => Err(e@),
                Some(Ok(d)) => Ok(with_part(p, d)),
            },
        }
    }
}

/// The parts put together, where there are any.
pub open spec fn put_together(parts: Seq<Seq<char>>, sep: Seq<char>) -> Option<Seq<char>> {
    if parts.len() == 0 {
        None
    } else {
        Some(join(parts, sep))
    }
}

/// What is wrong with a message's fetched sections, if anything: every planned
/// section has to be there and readable.
pub open spec fn content_fault(item: PlannedBodyFetch, fetched: Seq<FetchedText>) -> Option<
    ErrorView,
> {
    if item.plan.text_sections@.len() == 0 {
        Some(ErrorView::Mime("BODYSTRUCTURE contains no readable text sections"@))
    } else {
        match planned_parts(item.plan.text_sections@, fetched) {
            Err(e) => Some(e),
            Ok(_) => None,
        }
    }
}

/// The content is what the fetched sections make up.
pub open spec fn is_content_of(
    item: PlannedBodyFetch,
    fetched: Seq<FetchedText>,
    c: DecodedSelectiveContent,
) -> bool {
    &&& c.message_id == item.message_id
    &&& c.uid == item.uid
    &&& c.plan == item.plan
    &&& planned_parts(item.plan.text_sections@, fetched) matches Ok(p) && opt_text(c.text_body)
        == put_together(p.plain, "\n\n"@) && opt_text(c.html_body) == put_together(p.html, "\n"@)
        && texts(c.calendar_parts@) == p.calendar
}

fn find_sent<'a>(fetched: &'a Vec<FetchedText>, section: &str) -> (r: Option<
    &'a Result<DecodedText, CoreError>,
>)
    ensures
        crate::actions::owned_ref(r) == sent_section(fetched@, section@),
{
    let mut k: usize = fetched.len();
    proof {
        assert(fetched@.take(k as int) =~= fetched@);
    }
    while k > 0
        invariant
            k <= fetched@.len(),
            sent_section(fetched@, section@) == sent_section(
                fetched@.take(k as int),
                section@,
            ),
        decreases k,
    {
        proof {
            assert(fetched@.take(k as int).drop_last() =~= fetched@.take(k - 1));
        }
        if fetched[k - 1].section.as_str().eq(section) {
            return Some(&fetched[k - 1].decoded);
        }
        k = k - 1;
    }
    None
}

fn put(parts: &Vec<String>, sep: &str) -> (r: Option<String>)
    ensures
        opt_text(r) == put_together(texts(parts@), sep@),
{
    if parts.len() == 0 {
        None
    } else {
        Some(join_texts(parts, sep))
    }
}

/// Put a message's fetched sections together in the order of its plan.
pub fn decode_selective_content(item: PlannedBodyFetch, fetched: &Vec<FetchedText>) -> (r: Result<
    DecodedSelectiveContent,
    CoreError,
>)
    ensures
        match content_fault(item, fetched@) {
            Some(e) => r is Err && r->Err_0@ == e,
            None => r is Ok && is_content_of(item, fetched@, r->Ok_0),
        },
{
    if item.plan.text_sections.len() == 0 {
        return Err(CoreError::Mime(owned("BODYSTRUCTURE contains no readable text sections")));
    }
    let mut plain: Vec<String> = Vec::new();
    let mut html: Vec<String> = Vec::new();
    let mut calendar: Vec<String> = Vec::new();
    let ghost all = item.plan.text_sections@;
    let mut i: usize = 0;
    proof {
        assert(texts(plain@) =~= Seq::empty());
        assert(texts(html@) =~= Seq::empty());
        assert(texts(calendar@) =~= Seq::empty());
    }
    while i < item.plan.text_sections.len()
        invariant
            all == item.plan.text_sections@,
            all.len() > 0,
            i <= all.len(),
            planned_parts(all.take(i as int), fetched@) == Ok::<PartsView, ErrorView>(
                PartsView {
                    plain: texts(plain@),
                    html: texts(html@),
                    calendar: texts(calendar@),
                },
            ),
        decreases all.len() - i,
    {
        let planned: &PlannedTextSection = &item.plan.text_sections[i];
        let ghost before = (plain@, html@, calendar@);
        proof {
            assert(all.take(i + 1).drop_last() =~= all.take(i as int));
            assert(all.take(i + 1).last() == all[i as int]);
        }
        match find_sent(fetched, planned.section.as_str()) {
            None => {
                proof {
                    lemma_first_error(all, fetched@, i + 1);
                }
                return Err(
                    CoreError::Imap(
                        concat2(
                            "server omitted planned MIME section ",
                            planned.section.as_str(),
                        ),
                    ),
                );
            },
            Some(Err(e)) => {
                proof {
                    lemma_first_error(all, fetched@, i + 1);
                }
                return Err(e.copy());
            },
            Some(Ok(d)) => match d.kind {
                TextSectionKind::Plain => {
                    plain.push(d.content.clone());
                    proof {
                        assert(texts(plain@) =~= texts(before.0).push(d.content@));
                    }
                },
                TextSectionKind::Html => {
                    html.push(d.content.clone());
                    proof {
                        assert(texts(html@) =~= texts(before.1).push(d.content@));
                    }
                },
                TextSectionKind::Calendar => {
                    calendar.push(d.content.clone());
                    proof {
                        assert(texts(calendar@) =~= texts(before.2).push(d.content@));
                    }
                },
            },
        }
        i = i + 1;
    }
    proof {
        assert(all.take(all.len() as int) =~= all);
        assert(texts(plain@).len() == plain@.len());
    }
    let text_body: Option<String> = put(&plain, "\n\n");
    let html_body: Option<String> = put(&html, "\n");
    Ok(
        DecodedSelectiveContent {
            message_id: item.message_id,
            uid: item.uid,
            plan: item.plan,
            text_body,
            html_body,
            calendar_parts: calendar,
        },
    )
}

/// The last that the server sent for a section is this text.
pub open spec fn last_sent(fetched: Seq<FetchedText>, section: Seq<char>, d: DecodedText) -> bool {
    exists|k: int|
        0 <= k < fetched.len() && (#[trigger] fetched[k]).section@ == section && fetched[k].decoded
            == Ok::<DecodedText, CoreError>(d) && forall|l: int|
            k < l < fetched.len() ==> (#[trigger] fetched[l]).section@ != section
}

proof fn lemma_last_sent(fetched: Seq<FetchedText>, section: Seq<char>, d: DecodedText)
    ensures
        last_sent(fetched, section, d) <==> sent_section(fetched, section) == Some(
            Ok::<DecodedText, CoreError>(d),
        ),
    decreases fetched.len(),
{
    if fetched.len() > 0 {
        let front = fetched.drop_last();
        let n = fetched.len() - 1;
        lemma_last_sent(front, section, d);
        assert(forall|k: int| 0 <= k < n ==> front[k] == #[trigger] fetched[k]);
        if fetched[n].section@ == section {
            if last_sent(fetched, section, d) {
                let k = choose|k: int|
                    0 <= k < fetched.len() && (#[trigger] fetched[k]).section@ == section
                        && fetched[k].decoded == Ok::<DecodedText, CoreError>(d) && forall|l: int|
                        k < l < fetched.len() ==> (#[trigger] fetched[l]).section@ != section;
                assert(k == n);
            }
        } else {
            if last_sent(fetched, section, d) {
                let k = choose|k: int|
                    0 <= k < fetched.len() && (#[trigger] fetched[k]).section@ == section
                        && fetched[k].decoded == Ok::<DecodedText, CoreError>(d) && forall|l: int|
                        k < l < fetched.len() ==> (#[trigger] fetched[l]).section@ != section;
                assert(front[k].section@ == section);
            }
            if last_sent(front, section, d) {
                let k = choose|k: int|
                    0 <= k < front.len() && (#[trigger] front[k]).section@ == section
                        && front[k].decoded == Ok::<DecodedText, CoreError>(d) && forall|l: int|
                        k < l < front.len() ==> (#[trigger] front[l]).section@ != section;
                assert(fetched[k].section@ == section);
            }
        }
    }
}

/// The contents of one kind, in order.
pub open spec fn of_kind(contents: Seq<DecodedText>, kind: TextSectionKind) -> Seq<Seq<char>> {
    contents.filter(|d: DecodedText| d.kind == kind).map_values(|d: DecodedText| d.content@)
}

proof fn lemma_parts_by_kind(
    planned: Seq<PlannedTextSection>,
    fetched: Seq<FetchedText>,
    contents: Seq<DecodedText>,
)
    requires
        contents.len() == planned.len(),
        forall|i: int|
            0 <= i < planned.len() ==> last_sent(
                fetched,
                (#[trigger] planned[i]).section@,
                contents[i],
            ),
    ensures
        planned_parts(planned, fetched) matches Ok(p) && p.plain == of_kind(
            contents,
            TextSectionKind::Plain,
        ) && p.html == of_kind(contents, TextSectionKind::Html) && p.calendar == of_kind(
            contents,
            TextSectionKind::Calendar,
        ) && p.plain.len() + p.html.len() + p.calendar.len() == contents.len(),
    decreases planned.len(),
{
    reveal(Seq::filter);
    if planned.len() > 0 {
        let n = planned.len() - 1;
        let front = planned.drop_last();
        assert(forall|i: int| 0 <= i < n ==> front[i] == #[trigger] planned[i]);
        lemma_parts_by_kind(front, fetched, contents.drop_last());
        assert(last_sent(fetched, planned[n].section@, contents[n]));
        lemma_last_sent(fetched, planned[n].section@, contents[n]);
        let p0 = planned_parts(front, fetched)->Ok_0;
        let p = with_part(p0, contents[n]);
        assert(p.plain =~= of_kind(contents, TextSectionKind::Plain));
        assert(p.html =~= of_kind(contents, TextSectionKind::Html));
        assert(p.calendar =~= of_kind(contents, TextSectionKind::Calendar));
    } else {
        assert(of_kind(contents, TextSectionKind::Plain) =~= Seq::empty());
        assert(of_kind(contents, TextSectionKind::Html) =~= Seq::empty());
        assert(of_kind(contents, TextSectionKind::Calendar) =~= Seq::empty());
    }
}

/// No section is lost, and none is put where it does not belong. Where the
/// server sent every planned section, `contents` being their texts in the order
/// of the plan, the content is there and holds each text once: the plain ones
/// with a blank line between them, the HTML ones a line each, the calendar ones
/// on their own, and every kind in the order of the plan.
pub proof fn every_planned_section_is_kept(
    item: PlannedBodyFetch,
    fetched: Seq<FetchedText>,
    contents: Seq<DecodedText>,
    c: DecodedSelectiveContent,
)
    requires
        contents.len() > 0,
        contents.len() == item.plan.text_sections@.len(),
        forall|i: int|
            0 <= i < contents.len() ==> last_sent(
                fetched,
                (#[trigger] item.plan.text_sections@[i]).section@,
                contents[i],
            ),
        content_fault(item, fetched) is None ==> is_content_of(item, fetched, c),
    ensures
        content_fault(item, fetched) is None,
        c.message_id == item.message_id && c.uid == item.uid,
        of_kind(contents, TextSectionKind::Plain).len() + of_kind(
            contents,
            TextSectionKind::Html,
        ).len() + c.calendar_parts@.len() == contents.len(),
        opt_text(c.text_body) == (if of_kind(contents, TextSectionKind::Plain).len() == 0 {
            None::<Seq<char>>
        } else {
            Some(join(of_kind(contents, TextSectionKind::Plain), "\n\n"@))
        }),
        opt_text(c.html_body) == (if of_kind(contents, TextSectionKind::Html).len() == 0 {
            None::<Seq<char>>
        } else {
            Some(join(of_kind(contents, TextSectionKind::Html), "\n"@))
        }),
        texts(c.calendar_parts@) == of_kind(contents, TextSectionKind::Calendar),
        (forall|i: int| 0 <= i < contents.len() ==> (#[trigger] contents[i]).kind is Plain)
            ==> opt_text(c.text_body) == Some(
            join(contents.map_values(|d: DecodedText| d.content@), "\n\n"@),
        ) && c.html_body is None && c.calendar_parts@.len() == 0,
        (forall|i: int| 0 <= i < contents.len() ==> (#[trigger] contents[i]).kind is Html)
            ==> opt_text(c.html_body) == Some(
            join(contents.map_values(|d: DecodedText| d.content@), "\n"@),
        ) && c.text_body is None && c.calendar_parts@.len() == 0,
{
    let planned = item.plan.text_sections@;
    lemma_parts_by_kind(planned, fetched, contents);
    assert(c.calendar_parts@.len() == texts(c.calendar_parts@).len());
    lemma_one_kind(contents, TextSectionKind::Plain);
    lemma_one_kind(contents, TextSectionKind::Html);
}

proof fn lemma_one_kind(contents: Seq<DecodedText>, kind: TextSectionKind)
    ensures
        (forall|i: int| 0 <= i < contents.len() ==> (#[trigger] contents[i]).kind == kind)
            ==> of_kind(contents, kind) == contents.map_values(|d: DecodedText| d.content@),
        forall|other: TextSectionKind|
            other != kind && (forall|i: int|
                0 <= i < contents.len() ==> (#[trigger] contents[i]).kind == kind) ==> (
            #[trigger] of_kind(contents, other)).len() == 0,
    decreases contents.len(),
{
    reveal(Seq::filter);
    if contents.len() > 0 {
        let front = contents.drop_last();
        assert(forall|i: int| 0 <= i < front.len() ==> front[i] == #[trigger] contents[i]);
        lemma_one_kind(front, kind);
        if forall|i: int| 0 <= i < contents.len() ==> (#[trigger] contents[i]).kind == kind {
            assert(contents[contents.len() - 1].kind == kind);
            assert forall|i: int| 0 <= i < front.len() implies (#[trigger] front[i]).kind == kind by {
                assert(contents[i].kind == kind);
            }
            assert(of_kind(contents, kind) =~= of_kind(front, kind).push(contents.last().content@));
            assert(of_kind(contents, kind) =~= contents.map_values(|d: DecodedText| d.content@));
            assert forall|other: TextSectionKind| other != kind implies (#[trigger] of_kind(
                contents,
                other,
            )).len() == 0 by {
                assert(of_kind(front, other).len() == 0);
            }
        }
    } else {
        assert(of_kind(contents, kind) =~= contents.map_values(|d: DecodedText| d.content@));
    }
}

/// Content is made of complete answers only: where one is made, the plan has a
/// section, and for each section of the plan the last that the server sent is
/// readable.
pub proof fn content_has_every_planned_section(item: PlannedBodyFetch, fetched: Seq<FetchedText>)
    requires
        content_fault(item, fetched) is None,
    ensures
        item.plan.text_sections@.len() > 0,
        forall|i: int|
            0 <= i < item.plan.text_sections@.len() ==> exists|d: DecodedText|
                last_sent(fetched, (#[trigger] item.plan.text_sections@[i]).section@, d),
{
    lemma_all_sent(item.plan.text_sections@, fetched);
}

proof fn lemma_all_sent(planned: Seq<PlannedTextSection>, fetched: Seq<FetchedText>)
    requires
        planned_parts(planned, fetched) is Ok,
    ensures
        forall|i: int|
            0 <= i < planned.len() ==> exists|d: DecodedText|
                last_sent(fetched, (#[trigger] planned[i]).section@, d),
    decreases planned.len(),
{
    if planned.len() > 0 {
        let n = planned.len() - 1;
        let front = planned.drop_last();
        lemma_all_sent(front, fetched);
        let d = sent_section(fetched, planned[n].section@)->0->Ok_0;
        lemma_last_sent(fetched, planned[n].section@, d);
        assert forall|i: int| 0 <= i < planned.len() implies exists|d: DecodedText|
            last_sent(fetched, (#[trigger] planned[i]).section@, d) by {
            if i < n {
                assert(front[i] == planned[i]);
            } else {
                assert(last_sent(fetched, planned[i].section@, d));
            }
        }
    }
}

/// The first thing that is wrong stays the first.
proof fn lemma_first_error(planned: Seq<PlannedTextSection>, fetched: Seq<FetchedText>, n: int)
    requires
        0 <= n <= planned.len(),
        planned_parts(planned.take(n), fetched) is Err,
    ensures
        planned_parts(planned, fetched) == planned_parts(planned.take(n), fetched),
    decreases planned.len(),
{
    if n == planned.len() {
        assert(planned.take(n) =~= planned);
    } else {
        assert(planned.drop_last().take(n) =~= planned.take(n));
        lemma_first_error(planned.drop_last(), fetched, n);
    }
}

} // verus!
