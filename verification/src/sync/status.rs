//! What the user is shown of an account's synchronisation.

use vstd::prelude::*;

use crate::error::{CoreError, ErrorView};
use crate::messages::ContentProgress;
use crate::models::roles::ALL;
use crate::models::{Provider, SyncBackgroundProgress, SyncStatus};
use crate::sync::folders::{is_duplicate_folder, skips_folder, Folder};
use crate::text::{concat2, decimal_int, i64_text, owned};

verus! {

/// How far the work on an account has come.
#[derive(Debug, Clone, Copy, PartialEq, Eq, Structural)]
pub struct SyncCounts {
    pub header_done: i64,
    pub header_total: i64,
    pub header_failed: i64,
    pub content: ContentProgress,
    pub indexed: i64,
    pub index_total: i64,
}

/// A count as a number that cannot be negative.
pub open spec fn count(n: i64) -> u64 {
    if n > 0 {
        n as u64
    } else {
        0
    }
}

fn count_of(n: i64) -> (r: u64)
    ensures
        r == count(n),
        n >= 0 ==> r == n,
        n < 0 ==> r == 0,
{
    if n > 0 {
        n as u64
    } else {
        0
    }
}

/// The background work that is shown: headers before content, content before
/// indexing, and nothing once all is done. Work that failed is shown as being
/// retried.
pub open spec fn shows_background(c: SyncCounts, b: Option<SyncBackgroundProgress>) -> bool {
    if c.header_done < c.header_total || c.header_failed > 0 {
        b matches Some(p) && p.phase@ == (if c.header_failed > 0 {
            "retrying"@
        } else {
            "headers"@
        }) && p.done == count(c.header_done) && p.total == count(c.header_total) && p.failed
            == count(c.header_failed)
    } else if c.content.done < c.content.total {
        b matches Some(p) && p.phase@ == (if c.content.failed > 0 {
            "retrying"@
        } else {
            "content"@
        }) && p.done == c.content.done && p.total == c.content.total && p.failed
            == c.content.failed
    } else if c.indexed < c.index_total {
        b matches Some(p) && p.phase@ == "indexing"@ && p.done == count(c.indexed) && p.total
            == count(c.index_total) && p.failed == 0
    } else {
        b is None
    }
}

/// Nothing is shown exactly when nothing is left and nothing failed; headers come
/// before content, and content before indexing; a failure shows as a retry.
pub proof fn what_is_left_is_shown(c: SyncCounts, b: Option<SyncBackgroundProgress>)
    requires
        shows_background(c, b),
    ensures
        b is None <==> c.header_done >= c.header_total && c.header_failed <= 0 && c.content.done
            >= c.content.total && c.indexed >= c.index_total,
        c.header_failed > 0 ==> b is Some && b->0.phase@ == "retrying"@,
        c.header_done < c.header_total && c.header_failed <= 0 ==> b is Some && b->0.phase@
            == "headers"@,
        c.header_done >= c.header_total && c.header_failed <= 0 && c.content.done < c.content.total
            ==> b is Some && b->0.done == c.content.done && b->0.total == c.content.total && (
        b->0.phase@ == "retrying"@ || b->0.phase@ == "content"@),
        b is Some ==> (b->0.phase@ == "indexing"@ ==> c.header_done >= c.header_total
            && c.content.done >= c.content.total),
{
    reveal_strlit("retrying");
    reveal_strlit("headers");
    reveal_strlit("content");
    reveal_strlit("indexing");
    assert("retrying"@.len() == 8 && "headers"@.len() == 7 && "content"@.len() == 7
        && "indexing"@.len() == 8 && "retrying"@[0] == 'r' && "indexing"@[0] == 'i');
}

fn background_of(c: SyncCounts) -> (r: Option<SyncBackgroundProgress>)
    ensures
        shows_background(c, r),
{
    if c.header_done < c.header_total || c.header_failed > 0 {
        Some(
            SyncBackgroundProgress {
                phase: if c.header_failed > 0 {
                    owned("retrying")
                } else {
                    owned("headers")
                },
                done: count_of(c.header_done),
                total: count_of(c.header_total),
                failed: count_of(c.header_failed),
            },
        )
    } else if c.content.done < c.content.total {
        Some(
            SyncBackgroundProgress {
                phase: if c.content.failed > 0 {
                    owned("retrying")
                } else {
                    owned("content")
                },
                done: c.content.done,
                total: c.content.total,
                failed: c.content.failed,
            },
        )
    } else if c.indexed < c.index_total {
        Some(
            SyncBackgroundProgress {
                phase: owned("indexing"),
                done: count_of(c.indexed),
                total: count_of(c.index_total),
                failed: 0,
            },
        )
    } else {
        None
    }
}

/// Build the authoritative per-account foreground/background snapshot used by
/// both the event stream and the status query. Historical work is deliberately
/// separate from the account's foreground readiness state. `sync_state` is the
/// state of the account, where there is such an account.
pub fn status_for_account(account_id: i64, sync_state: Option<&str>, counts: SyncCounts) -> (r:
    Result<SyncStatus, CoreError>)
    ensures
        match sync_state {
            None => r is Err && r->Err_0@ == ErrorView::NotFound(
                "account "@ + decimal_int(account_id as int),
            ),
            Some(state) => r matches Ok(s) && s.account_id == account_id && s.state@ == state@
                && s.foreground_phase@ == (if state@ == "syncing"@ {
                "inbox"@
            } else {
                "idle"@
            }) && shows_background(counts, s.background),
        },
{
    match sync_state {
        None => {
            let number: String = i64_text(account_id);
            Err(CoreError::NotFound(concat2("account ", number.as_str())))
        },
        Some(state) => Ok(
            SyncStatus {
                account_id,
                state: owned(state),
                foreground_phase: if state.eq("syncing") {
                    owned("inbox")
                } else {
                    owned("idle")
                },
                background: background_of(counts),
            },
        ),
    }
}

/// Folders whose headers are all here, and all folders, without those that
/// duplicate others.
pub open spec fn header_counts_of(folders: Seq<Folder>, provider: Provider) -> (int, int)
    decreases folders.len(),
{
    if folders.len() == 0 {
        (0, 0)
    } else {
        let (done, total) = header_counts_of(folders.drop_last(), provider);
        let f = folders.last();
        if is_duplicate_folder(f, provider) {
            (done, total)
        } else if f.backfill_done {
            (done + 1, total + 1)
        } else {
            (done, total + 1)
        }
    }
}

/// The headers are complete exactly when every folder that counts has all of them;
/// an All folder that only repeats the others does not count.
pub proof fn headers_are_complete_with_every_folder(folders: Seq<Folder>, provider: Provider)
    ensures
        ({
            let (done, total) = header_counts_of(folders, provider);
            &&& 0 <= done <= total <= folders.len()
            &&& done == total <==> forall|i: int|
                0 <= i < folders.len() && ((#[trigger] folders[i]).has_role(ALL@) ==> provider
                    is Gmail) ==> folders[i].backfill_done
            &&& (forall|i: int|
                0 <= i < folders.len() ==> ((#[trigger] folders[i]).has_role(ALL@) ==> provider
                    is Gmail)) ==> total == folders.len()
        }),
    decreases folders.len(),
{
    if folders.len() > 0 {
        let front = folders.drop_last();
        headers_are_complete_with_every_folder(front, provider);
        assert(forall|i: int| 0 <= i < front.len() ==> front[i] == #[trigger] folders[i]);
        assert(folders[folders.len() - 1] == folders.last());
    }
}

/// How many folders have all their headers, of how many.
pub fn header_counts(folders: &Vec<Folder>, provider: Provider) -> (r: (i64, i64))
    requires
        folders@.len() <= i64::MAX,
    ensures
        (r.0 as int, r.1 as int) == header_counts_of(folders@, provider),
        0 <= r.0 <= r.1,
{
    let mut done: i64 = 0;
    let mut total: i64 = 0;
    let mut i: usize = 0;
    while i < folders.len()
        invariant
            i <= folders@.len() <= i64::MAX,
            (done as int, total as int) == header_counts_of(folders@.take(i as int), provider),
            0 <= done <= total <= i,
        decreases folders@.len() - i,
    {
        proof {
            assert(folders@.take(i + 1).drop_last() =~= folders@.take(i as int));
        }
        if !skips_folder(&folders[i], provider) {
            total = total + 1;
            if folders[i].backfill_done {
                done = done + 1;
            }
        }
        i = i + 1;
    }
    proof {
        assert(folders@.take(folders@.len() as int) =~= folders@);
    }
    (done, total)
}

} // verus!
