//! What happens once: bringing the store up to date, picking up what a crash
//! left behind, and waiting notifications.

use vstd::prelude::*;

use crate::lists::lemma_pushed;
use crate::text::{contains_str, has_text, owned};

verus! {

// ---------------------------------------------------------------------------
// The store
// ---------------------------------------------------------------------------

/// The versions that a store of the given version is taken through, one after
/// the other, to reach the version `latest`.
pub open spec fn versions_after(version: i64, latest: nat) -> Seq<i64>
    decreases latest,
{
    if latest == 0 {
        Seq::empty()
    } else {
        let before = versions_after(version, (latest - 1) as nat);
        if version < latest {
            before.push(latest as i64)
        } else {
            before
        }
    }
}

/// The version of a store that was taken through these.
pub open spec fn version_reached(version: i64, through: Seq<i64>) -> i64 {
    if through.len() == 0 {
        version
    } else {
        through.last()
    }
}

/// The migrations that are still to be applied, by the version that each one
/// leads to. There are `latest` in all, and each is applied and recorded in a
/// step of its own.
pub fn pending_migrations(version: i64, latest: u32) -> (r: Vec<i64>)
    ensures
        r@ == versions_after(version, latest as nat),
{
    let mut out: Vec<i64> = Vec::new();
    let mut target: u32 = 0;
    while target < latest
        invariant
            target <= latest,
            out@ == versions_after(version, target as nat),
        decreases latest - target,
    {
        target = target + 1;
        if version < target as i64 {
            out.push(target as i64);
        }
    }
    out
}

proof fn lemma_versions_after(version: i64, latest: nat)
    requires
        latest <= i64::MAX,
    ensures
        forall|i: int|
            0 <= i < versions_after(version, latest).len() ==> version < #[trigger] versions_after(
                version,
                latest,
            )[i] <= latest,
        versions_after(version, latest).len() > 0 <==> version < latest && latest > 0,
        versions_after(version, latest).len() > 0 ==> versions_after(version, latest).last()
            == latest,
    decreases latest,
{
    if latest > 0 {
        lemma_versions_after(version, (latest - 1) as nat);
    }
}

/// A store that was brought up to date is at the latest version, is never taken
/// back, and has nothing left to apply.
pub proof fn migrating_reaches_the_latest(version: i64, latest: nat)
    requires
        latest <= i64::MAX,
    ensures
        ({
            let reached = version_reached(version, versions_after(version, latest));
            &&& 0 < latest ==> reached == (if version < latest {
                latest as i64
            } else {
                version
            })
            &&& reached >= version
            &&& versions_after(reached, latest).len() == 0
        }),
{
    lemma_versions_after(version, latest);
    lemma_versions_after(version_reached(version, versions_after(version, latest)), latest);
}

/// A store is taken through every version above its own, one after the other and
/// none twice, and through no other.
pub proof fn no_migration_is_left_out(version: i64, latest: nat, v: i64)
    requires
        latest <= i64::MAX,
    ensures
        versions_after(version, latest).contains(v) <==> version < v && 0 < v <= latest,
        forall|i: int, j: int|
            #![trigger versions_after(version, latest)[i], versions_after(version, latest)[j]]
            0 <= i < j < versions_after(version, latest).len() ==> versions_after(
                version,
                latest,
            )[i] < versions_after(version, latest)[j],
    decreases latest,
{
    if latest > 0 {
        let before = (latest - 1) as nat;
        no_migration_is_left_out(version, before, v);
        lemma_versions_after(version, before);
        lemma_pushed(versions_after(version, before), latest as i64);
    }
}

/// The text of a failure that the selective fetch no longer has.
pub const OMITTED_CONTENT: &'static str = "server omitted selective content for UID";

/// The text of another one.
pub const INVALID_BASE64: &'static str = "invalid Base64 selective MIME section";

/// Whether a recorded failure is forgotten when the selective fetch is
/// replaced: only failures to fetch content that the new one does not have.
/// Every other one keeps its count, since nothing makes it likelier to succeed.
pub fn forgets_failure(stage: &str, last_error: &str) -> (r: bool)
    ensures
        r == (stage@ == "content"@ && (has_text(last_error@, OMITTED_CONTENT@) || has_text(
            last_error@,
            INVALID_BASE64@,
        ))),
        stage@ != "content"@ ==> !r,
        stage@ == "content"@ && has_text(last_error@, OMITTED_CONTENT@) ==> r,
{
    stage.eq("content") && (contains_str(last_error, OMITTED_CONTENT) || contains_str(
        last_error,
        INVALID_BASE64,
    ))
}

// ---------------------------------------------------------------------------
// After a crash
// ---------------------------------------------------------------------------

/// The state of a body once the client has started: one that was being fetched
/// is fetched anew.
pub open spec fn recovered_state(state: Seq<char>) -> Seq<char> {
    if state == "fetching"@ {
        "none"@
    } else {
        state
    }
}

/// After a start no body is being fetched, and what is cached or missing stays so.
pub proof fn starts_fetch_anew(state: Seq<char>)
    ensures
        recovered_state(state) != "fetching"@,
        state == "fetching"@ ==> recovered_state(state) == "none"@,
        state != "fetching"@ ==> recovered_state(state) == state,
{
    reveal_strlit("none");
    reveal_strlit("fetching");
    assert("none"@.len() != "fetching"@.len());
}

pub fn recovered_body_state(state: &str) -> (r: String)
    ensures
        r@ == recovered_state(state@),
{
    if state.eq("fetching") {
        owned("none")
    } else {
        owned(state)
    }
}

/// What the routing of older mail needs at the start.
#[derive(Debug, Clone, Copy, PartialEq, Eq, Structural)]
pub struct Backfill {
    /// Every thread is routed now.
    pub routes: bool,
    /// It is recorded that this was done.
    pub marks: bool,
}

/// The routing of older mail is done once. It is recorded also where there was
/// nothing to route.
pub fn routing_backfill(marked: bool, auto_labels: bool, threads: i64) -> (r: Backfill)
    ensures
        r == (Backfill {
            routes: !marked && auto_labels && threads > 0,
            marks: !marked,
        }),
        marked ==> !r.routes && !r.marks,
        !auto_labels || threads <= 0 ==> !r.routes,
        !marked ==> r.marks,
        !marked && auto_labels && threads > 0 ==> r.routes,
{
    Backfill { routes: !marked && auto_labels && threads > 0, marks: !marked }
}

/// How many waiting threads one pass of the router takes in.
pub const ROUTER_BATCH: i64 = 50;

/// Whether the router makes another pass: as long as passes bring something.
/// `passed` is how many threads the pass decided, none where it failed.
pub fn routes_on(passed: Option<i64>) -> (r: bool)
    ensures
        r == (passed is Some && passed->0 != 0),
        passed is None || passed == Some(0i64) ==> !r,
        passed is Some && passed->0 > 0 ==> r,
{
    match passed {
        Some(n) => n != 0,
        None => false,
    }
}

// ---------------------------------------------------------------------------
// Notifications
// ---------------------------------------------------------------------------

pub const MAX_DUE_NOTIFICATIONS: i64 = 100;

/// A notification waits no longer than this for its next try.
pub const MAX_DELAY_MS: i64 = 86_400_000;

/// When a notification that could not be shown is tried again. The wait is
/// bounded, so that none disappears for long.
pub fn notification_retry_at(now: i64, delay_ms: i64) -> (r: i64)
    ensures
        ({
            let delay: int = if delay_ms < 0 {
                0
            } else if delay_ms > MAX_DELAY_MS {
                MAX_DELAY_MS as int
            } else {
                delay_ms as int
            };
            r == (if now + delay > i64::MAX {
                i64::MAX as int
            } else {
                now + delay
            })
        }),
        now <= r,
        r - now <= 86_400_000,
        0 <= delay_ms <= 86_400_000 && now + delay_ms <= i64::MAX ==> r == now + delay_ms,
{
    let delay: i64 = if delay_ms < 0 {
        0
    } else if delay_ms > MAX_DELAY_MS {
        MAX_DELAY_MS
    } else {
        delay_ms
    };
    if now > i64::MAX - delay {
        i64::MAX
    } else {
        now + delay
    }
}

} // verus!
