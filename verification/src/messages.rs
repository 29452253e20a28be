//! Rules over message rows: what is fetched, counted, repaired and shown.

use vstd::prelude::*;

use crate::lists::{lemma_ends, lemma_pushed};
use crate::mime::{MimePlan, TextSectionKind, MIME_PLAN_VERSION};
use crate::models::roles::{ALL, SENT};
use crate::models::{now_ms, Address, AttachmentMeta, Provider};
use crate::sort::{comes_before, is_newest_order, newest_key, newest_order};
use crate::text::{
    blank, concat2, contains_str, has_text, is_blank, lower, lower_str, matches_at, opt_text, owned,
};

verus! {

/// Parsed header data ready for insertion (produced by the sync engine).
#[derive(Debug, Clone)]
pub struct NewMessage {
    pub account_id: i64,
    pub folder_id: i64,
    pub uid: Option<i64>,
    pub message_id: Option<String>,
    pub gm_msgid: Option<String>,
    pub gm_thrid: Option<String>,
    pub subject: String,
    pub from: Option<Address>,
    pub to: Vec<Address>,
    pub cc: Vec<Address>,
    pub bcc: Vec<Address>,
    pub date: i64,
    pub internal_date: Option<i64>,
    pub is_read: bool,
    pub is_starred: bool,
    pub is_draft: bool,
    pub is_outgoing: bool,
    pub is_automated: bool,
    pub has_attachments: bool,
    pub size: Option<i64>,
    pub snippet: String,
    pub references: Vec<String>,
    pub list_unsubscribe: Option<String>,
    /// RFC 8058 List-Unsubscribe-Post raw value, when present.
    pub list_unsubscribe_post: Option<String>,
    /// Transmitting party misaligned with From: - email or bare DKIM domain,
    /// shown as "via" in the UI. None when the transmitting domain aligns with
    /// From:.
    pub sender_addr: Option<String>,
}

#[derive(Debug, Clone)]
pub struct MessageRow {
    pub id: i64,
    pub account_id: i64,
    pub thread_id: Option<i64>,
    pub folder_id: Option<i64>,
    pub uid: Option<i64>,
    pub message_id: Option<String>,
    pub subject: String,
    pub is_read: bool,
    pub is_starred: bool,
    pub body_state: String,
    pub raw_path: Option<String>,
}

#[derive(Debug, Clone, Copy, PartialEq, Eq, Structural)]
pub struct ContentProgress {
    pub done: u64,
    pub total: u64,
    pub failed: u64,
}

// ---------------------------------------------------------------------------
// Content
// ---------------------------------------------------------------------------

/// A message as far as fetching its content goes: its folder where that still
/// exists, and the failure that is on record for it.
#[derive(Debug, Clone)]
pub struct ContentRow {
    pub id: i64,
    pub account_id: i64,
    pub provider: Provider,
    pub folder: Option<ContentFolder>,
    pub uid: Option<i64>,
    pub body_state: String,
    pub date: i64,
    pub failure: Option<ContentRetry>,
}

#[derive(Debug, Clone)]
pub struct ContentFolder {
    pub id: i64,
    pub role: Option<String>,
}

/// When a failed fetch may be tried again; without a deadline, any time.
#[derive(Debug, Clone, Copy, PartialEq, Eq, Structural)]
pub struct ContentRetry {
    pub next_retry_at: Option<i64>,
}

/// The content can be fetched from the server: the message is in a folder
/// there, and not in a duplicating All folder.
pub open spec fn is_fetchable(row: ContentRow) -> bool {
    row.uid is Some && (row.folder matches Some(f) && (row.provider == Provider::Gmail || opt_text(
        f.role,
    ) != Some(ALL@)))
}

fn fetchable(row: &ContentRow) -> (r: bool)
    ensures
        r == is_fetchable(*row),
{
    if row.uid.is_none() {
        return false;
    }
    match &row.folder {
        Some(f) => {
            let is_all: bool = match &f.role {
                Some(role) => role.as_str().eq(ALL),
                None => false,
            };
            matches!(row.provider, Provider::Gmail) || !is_all
        },
        None => false,
    }
}

/// The progress over the rows of an account.
pub open spec fn progress_of(rows: Seq<ContentRow>, account_id: i64) -> (int, int, int)
    decreases rows.len(),
{
    if rows.len() == 0 {
        (0, 0, 0)
    } else {
        let (done, total, failed) = progress_of(rows.drop_last(), account_id);
        let row = rows.last();
        if row.account_id == account_id && is_fetchable(row) {
            let cached = row.body_state@ == "cached"@;
            (
                if cached {
                    done + 1
                } else {
                    done
                },
                total + 1,
                if !cached && row.failure is Some {
                    failed + 1
                } else {
                    failed
                },
            )
        } else {
            (done, total, failed)
        }
    }
}

/// Progress never exceeds its total: what is done and what failed are disjoint
/// parts of it.
pub proof fn progress_is_bounded(rows: Seq<ContentRow>, account_id: i64)
    ensures
        ({
            let (done, total, failed) = progress_of(rows, account_id);
            0 <= done && 0 <= failed && done + failed <= total <= rows.len()
        }),
    decreases rows.len(),
{
    if rows.len() > 0 {
        progress_is_bounded(rows.drop_last(), account_id);
    }
}

/// Progress is complete exactly when every message of the account that can be
/// fetched is cached; a failure shows exactly where one of them is not cached and
/// has failed; and there is something to do exactly where there is such a
/// message. Mail that is not on the server, or that only a duplicating All folder
/// holds, does not count.
pub proof fn progress_ends_with_the_last_body(rows: Seq<ContentRow>, account_id: i64)
    ensures
        ({
            let (done, total, failed) = progress_of(rows, account_id);
            &&& done == total <==> forall|i: int|
                0 <= i < rows.len() && counts_for(#[trigger] rows[i], account_id)
                    ==> rows[i].body_state@ == "cached"@
            &&& failed > 0 <==> exists|i: int|
                0 <= i < rows.len() && counts_for(#[trigger] rows[i], account_id)
                    && rows[i].body_state@ != "cached"@ && rows[i].failure is Some
            &&& total > 0 <==> exists|i: int|
                0 <= i < rows.len() && counts_for(#[trigger] rows[i], account_id)
            &&& done > 0 <==> exists|i: int|
                0 <= i < rows.len() && counts_for(#[trigger] rows[i], account_id)
                    && rows[i].body_state@ == "cached"@
        }),
    decreases rows.len(),
{
    progress_is_bounded(rows, account_id);
    if rows.len() > 0 {
        let front = rows.drop_last();
        let n = rows.len() - 1;
        progress_ends_with_the_last_body(front, account_id);
        progress_is_bounded(front, account_id);
        assert(forall|i: int| 0 <= i < n ==> front[i] == #[trigger] rows[i]);
        let (done, total, failed) = progress_of(front, account_id);
        if exists|i: int|
            0 <= i < front.len() && counts_for(#[trigger] front[i], account_id)
                && front[i].body_state@ != "cached"@ && front[i].failure is Some {
            let i = choose|i: int|
                0 <= i < front.len() && counts_for(#[trigger] front[i], account_id)
                    && front[i].body_state@ != "cached"@ && front[i].failure is Some;
            assert(counts_for(rows[i], account_id));
        }
        if exists|i: int| 0 <= i < front.len() && counts_for(#[trigger] front[i], account_id) {
            let i = choose|i: int|
                0 <= i < front.len() && counts_for(#[trigger] front[i], account_id);
            assert(counts_for(rows[i], account_id));
        }
        if exists|i: int|
            0 <= i < front.len() && counts_for(#[trigger] front[i], account_id)
                && front[i].body_state@ == "cached"@ {
            let i = choose|i: int|
                0 <= i < front.len() && counts_for(#[trigger] front[i], account_id)
                    && front[i].body_state@ == "cached"@;
            assert(counts_for(rows[i], account_id));
        }
        assert(counts_for(rows[n], account_id) || !counts_for(rows[n], account_id));
    }
}

/// The message is the account's and its content can be had from the server.
pub open spec fn counts_for(row: ContentRow, account_id: i64) -> bool {
    row.account_id == account_id && row.uid is Some && row.folder is Some && (row.provider is Gmail
        || opt_text(row.folder->0.role) != Some(ALL@))
}

/// Text-content cache progress. Local-only/orphaned rows cannot be fetched from
/// IMAP and therefore must not hold completion open forever.
pub fn content_progress(rows: &Vec<ContentRow>, account_id: i64) -> (r: ContentProgress)
    ensures
        (r.done as int, r.total as int, r.failed as int) == progress_of(rows@, account_id),
{
    let mut done: u64 = 0;
    let mut total: u64 = 0;
    let mut failed: u64 = 0;
    let mut i: usize = 0;
    while i < rows.len()
        invariant
            i <= rows@.len(),
            (done as int, total as int, failed as int) == progress_of(
                rows@.take(i as int),
                account_id,
            ),
        decreases rows@.len() - i,
    {
        proof {
            assert(rows@.take(i + 1).drop_last() =~= rows@.take(i as int));
            progress_is_bounded(rows@.take(i as int), account_id);
        }
        let row: &ContentRow = &rows[i];
        if row.account_id == account_id && fetchable(row) {
            total = total + 1;
            if row.body_state.as_str().eq("cached") {
                done = done + 1;
            } else if row.failure.is_some() {
                failed = failed + 1;
            }
        }
        i = i + 1;
    }
    proof {
        assert(rows@.take(rows@.len() as int) =~= rows@);
    }
    ContentProgress { done, total, failed }
}

/// The progress as done and total.
pub fn body_progress(rows: &Vec<ContentRow>, account_id: i64) -> (r: (u64, u64))
    ensures
        r.0 == progress_of(rows@, account_id).0,
        r.1 == progress_of(rows@, account_id).1,
{
    let p: ContentProgress = content_progress(rows, account_id);
    (p.done, p.total)
}

/// The body is to be fetched now: it is missing, it can be fetched, and no
/// failure asks to wait longer.
pub open spec fn is_due(row: ContentRow, folder_id: i64, now: i64) -> bool {
    &&& is_fetchable(row)
    &&& row.folder->0.id == folder_id
    &&& row.body_state@ == "none"@
    &&& row.failure matches Some(f) ==> (f.next_retry_at matches Some(at) ==> at <= now)
}

/// The rows whose body is to be fetched now.
pub open spec fn due_rows(rows: Seq<ContentRow>, folder_id: i64, now: i64) -> Seq<ContentRow>
    decreases rows.len(),
{
    if rows.len() == 0 {
        Seq::empty()
    } else {
        let rest = due_rows(rows.drop_last(), folder_id, now);
        if is_due(rows.last(), folder_id, now) {
            rest.push(rows.last())
        } else {
            rest
        }
    }
}

/// A body is fetched exactly where it is missing and can be had now: nobody has
/// fetched or claimed it, the message is on the server in that folder, which is
/// no duplicating All folder (on Gmail that one counts), and no failure asks to
/// wait longer.
pub proof fn only_missing_bodies_are_fetched(rows: Seq<ContentRow>, folder_id: i64, now: i64)
    ensures
        forall|r: ContentRow| #[trigger]
            due_rows(rows, folder_id, now).contains(r) <==> rows.contains(r) && r.body_state@
                == "none"@ && r.uid is Some && r.folder is Some && r.folder->0.id == folder_id && (
            r.provider is Gmail || opt_text(r.folder->0.role) != Some(ALL@)) && (r.failure is None
                || r.failure->0.next_retry_at is None || r.failure->0.next_retry_at->0 <= now),
        due_rows(rows, folder_id, now).len() <= rows.len(),
    decreases rows.len(),
{
    if rows.len() > 0 {
        only_missing_bodies_are_fetched(rows.drop_last(), folder_id, now);
        lemma_ends(rows);
        lemma_pushed(due_rows(rows.drop_last(), folder_id, now), rows.last());
    }
}

/// How many rows a limit leaves; a negative one leaves all.
pub open spec fn limited(n: int, limit: i64) -> int {
    if limit < 0 || n <= limit {
        n
    } else {
        limit as int
    }
}

/// The first rows, newest first, as (id, UID).
pub open spec fn is_newest_first(
    rows: Seq<ContentRow>,
    limit: i64,
    out: Seq<(i64, i64)>,
) -> bool {
    exists|order: Seq<usize>|
        is_newest_order(rows.map_values(|r: ContentRow| r.date), order) && order.len() == rows.len()
            && out == order.take(limited(order.len() as int, limit)).map_values(
            |i: usize| (rows[i as int].id, rows[i as int].uid->0),
        )
}

/// The newest bodies come first, and a limit takes away the oldest: nothing that
/// is left out is newer than anything that is given. Without a limit nothing is
/// left out.
pub proof fn newest_bodies_come_first(rows: Seq<ContentRow>, limit: i64, out: Seq<(i64, i64)>)
    requires
        is_newest_first(rows, limit, out),
    ensures
        limit < 0 || rows.len() <= limit ==> out.len() == rows.len(),
        0 <= limit < rows.len() ==> out.len() == limit,
        exists|at: Seq<usize>|
            at.len() == out.len() && (forall|k: int|
                0 <= k < out.len() ==> (#[trigger] at[k]) < rows.len() && out[k] == (
                    rows[at[k] as int].id,
                    rows[at[k] as int].uid->0,
                )) && (forall|k: int, l: int|
                #![trigger at[k], at[l]]
                0 <= k < l < out.len() ==> at[k] != at[l] && rows[at[k] as int].date
                    >= rows[at[l] as int].date) && (forall|k: int, i: usize|
                #![trigger at[k], rows[i as int]]
                0 <= k < out.len() && i < rows.len() && !at.contains(i) ==> rows[at[k] as int].date
                    >= rows[i as int].date),
{
    let dates = rows.map_values(|r: ContentRow| r.date);
    let order = choose|order: Seq<usize>|
        is_newest_order(dates, order) && order.len() == rows.len() && out == order.take(
            limited(order.len() as int, limit),
        ).map_values(|i: usize| (rows[i as int].id, rows[i as int].uid->0));
    let n = limited(order.len() as int, limit);
    let at = order.take(n);
    let keys = dates.map_values(|d: i64| newest_key(d));
    assert forall|k: int| 0 <= k < out.len() implies (#[trigger] at[k]) < rows.len() && out[k] == (
        rows[at[k] as int].id,
        rows[at[k] as int].uid->0,
    ) by {
        assert(order.contains(order[k]));
    }
    assert forall|k: int, l: int|
        #![trigger at[k], at[l]]
        0 <= k < l < out.len() implies at[k] != at[l] && rows[at[k] as int].date
        >= rows[at[l] as int].date by {
        assert(comes_before(keys, order[k], order[l]));
        assert(order.contains(order[k]) && order.contains(order[l]));
    }
    assert forall|k: int, i: usize|
        #![trigger at[k], rows[i as int]]
        0 <= k < out.len() && i < rows.len() && !at.contains(i) implies rows[at[k] as int].date
        >= rows[i as int].date by {
        assert(order.contains(i));
        let l = order.index_of(i);
        if l < n {
            assert(at[l] == i);
        }
        assert(comes_before(keys, order[k], order[l]));
        assert(order.contains(order[k]));
    }
}

fn due(row: &ContentRow, folder_id: i64, now: i64) -> (r: bool)
    ensures
        r == is_due(*row, folder_id, now),
{
    if !fetchable(row) || !row.body_state.as_str().eq("none") {
        return false;
    }
    let here: bool = match &row.folder {
        Some(f) => f.id == folder_id,
        None => false,
    };
    let waits: bool = match row.failure {
        Some(ContentRetry { next_retry_at: Some(at) }) => at > now,
        _ => false,
    };
    here && !waits
}

/// Messages in a folder still lacking bodies, newest first.
pub fn missing_bodies(rows: &Vec<ContentRow>, folder_id: i64, limit: i64) -> (r: Vec<(i64, i64)>)
    ensures
        exists|now: i64| is_newest_first(#[trigger] due_rows(rows@, folder_id, now), limit, r@),
{
    let now: i64 = now_ms();
    let out: Vec<(i64, i64)> = missing_bodies_at(rows, folder_id, limit, now);
    proof {
        assert(is_newest_first(due_rows(rows@, folder_id, now), limit, out@));
    }
    out
}

/// Messages in a folder still lacking bodies at a point in time, newest first.
pub fn missing_bodies_at(rows: &Vec<ContentRow>, folder_id: i64, limit: i64, now: i64) -> (r: Vec<
    (i64, i64),
>)
    ensures
        is_newest_first(due_rows(rows@, folder_id, now), limit, r@),
{
    let mut found: Vec<(i64, i64)> = Vec::new();
    let mut dates: Vec<i64> = Vec::new();
    let mut i: usize = 0;
    while i < rows.len()
        invariant
            i <= rows@.len(),
            found@ == due_rows(rows@.take(i as int), folder_id, now).map_values(
                |r: ContentRow| (r.id, r.uid->0),
            ),
            dates@ == due_rows(rows@.take(i as int), folder_id, now).map_values(
                |r: ContentRow| r.date,
            ),
        decreases rows@.len() - i,
    {
        let ghost before = due_rows(rows@.take(i as int), folder_id, now);
        let row: &ContentRow = &rows[i];
        proof {
            assert(rows@.take(i + 1).drop_last() =~= rows@.take(i as int));
        }
        if due(row, folder_id, now) {
            if let Some(uid) = row.uid {
                found.push((row.id, uid));
                dates.push(row.date);
                proof {
                    assert(found@ =~= before.push(*row).map_values(
                        |r: ContentRow| (r.id, r.uid->0),
                    ));
                    assert(dates@ =~= before.push(*row).map_values(|r: ContentRow| r.date));
                }
            }
        }
        i = i + 1;
    }
    let ghost all = due_rows(rows@, folder_id, now);
    proof {
        assert(rows@.take(rows@.len() as int) =~= rows@);
        assert(found@.len() == all.len());
    }
    let order: Vec<usize> = newest_order(&dates);
    let n: usize = order.len();
    let keep: usize = if limit < 0 || limit as u64 >= n as u64 {
        n
    } else {
        limit as usize
    };
    let mut out: Vec<(i64, i64)> = Vec::new();
    let mut k: usize = 0;
    while k < keep
        invariant
            k <= keep <= order@.len(),
            order@.len() == found@.len(),
            found@ == all.map_values(|r: ContentRow| (r.id, r.uid->0)),
            is_newest_order(dates@, order@),
            dates@.len() == found@.len(),
            out@ == order@.take(k as int).map_values(
                |i: usize| (all[i as int].id, all[i as int].uid->0),
            ),
        decreases keep - k,
    {
        proof {
            assert(order@.contains(order@[k as int]));
            assert(order@.take(k + 1) =~= order@.take(k as int).push(order@[k as int]));
        }
        out.push(found[order[k]]);
        k = k + 1;
        proof {
            assert(out@ =~= order@.take(k as int).map_values(
                |i: usize| (all[i as int].id, all[i as int].uid->0),
            ));
        }
    }
    proof {
        assert(is_newest_order(all.map_values(|r: ContentRow| r.date), order@));
        assert(keep == limited(order@.len() as int, limit));
    }
    out
}

// ---------------------------------------------------------------------------
// Repairs
// ---------------------------------------------------------------------------

/// A cached body that may have been stored before its MIME transfer encoding
/// was undone. `plan` is `None` where none is stored or it cannot be read; the
/// last three fields say what the stored texts look like.
#[derive(Debug, Clone)]
pub struct CachedBodyRow {
    pub content: ContentRow,
    pub has_raw_file: bool,
    pub has_body: bool,
    pub snippet: String,
    pub embedding_state: String,
    pub has_embeddings: bool,
    pub plan: Option<MimePlan>,
    pub text_looks_quoted_printable: bool,
    pub html_looks_quoted_printable: bool,
    pub html_looks_base64: bool,
}

/// The body has to be fetched again. The recovery is deliberately
/// conservative: it only considers remotely refetchable rows with no
/// full-message raw cache, and requires either a Base64 plan from before
/// Base64 was decoded authoritatively, a Base64 payload that decodes to HTML, or
/// many quoted-printable artifacts.
pub open spec fn is_misdecoded(row: CachedBodyRow) -> bool {
    &&& row.content.body_state@ == "cached"@
    &&& is_fetchable(row.content)
    &&& row.has_body
    &&& !row.has_raw_file
    &&& row.plan matches Some(plan) && {
        ||| plan.encodes(None, "base64"@) && plan.version < MIME_PLAN_VERSION
        ||| plan.encodes(Some(TextSectionKind::Html), "base64"@) && row.html_looks_base64
        ||| plan.encodes(Some(TextSectionKind::Plain), "quoted-printable"@)
            && row.text_looks_quoted_printable
        ||| plan.encodes(Some(TextSectionKind::Html), "quoted-printable"@)
            && row.html_looks_quoted_printable
    }
}

fn misdecoded(row: &CachedBodyRow) -> (r: bool)
    ensures
        r == is_misdecoded(*row),
{
    if !row.content.body_state.as_str().eq("cached") || !fetchable(&row.content)
        || !row.has_body || row.has_raw_file {
        return false;
    }
    match &row.plan {
        None => false,
        Some(plan) => (plan.version < MIME_PLAN_VERSION && plan.has_encoding(None, "base64")) || (
        row.html_looks_base64 && plan.has_encoding(Some(TextSectionKind::Html), "base64")) || (
        row.text_looks_quoted_printable && plan.has_encoding(
            Some(TextSectionKind::Plain),
            "quoted-printable",
        )) || (row.html_looks_quoted_printable && plan.has_encoding(
            Some(TextSectionKind::Html),
            "quoted-printable",
        )),
    }
}

/// The messages whose body has to be fetched again, in order.
pub open spec fn misdecoded_ids(rows: Seq<CachedBodyRow>) -> Seq<i64>
    decreases rows.len(),
{
    if rows.len() == 0 {
        Seq::empty()
    } else {
        let rest = misdecoded_ids(rows.drop_last());
        if is_misdecoded(rows.last()) {
            rest.push(rows.last().content.id)
        } else {
            rest
        }
    }
}

/// A body is given up only where it can be fetched again and there is a reason:
/// it is cached, the message is on the server, no raw mail is kept, and its plan
/// says that a section was Base64 under an older plan, or that one was encoded
/// whose text still looks it. Where all of that holds, it is given up.
pub proof fn only_refetchable_bodies_are_given_up(rows: Seq<CachedBodyRow>, id: i64)
    ensures
        misdecoded_ids(rows).contains(id) <==> exists|i: int|
            0 <= i < rows.len() && (#[trigger] rows[i]).content.id == id && looks_encoded(rows[i]),
    decreases rows.len(),
{
    if rows.len() > 0 {
        let front = rows.drop_last();
        let n = rows.len() - 1;
        only_refetchable_bodies_are_given_up(front, id);
        lemma_pushed(misdecoded_ids(front), rows.last().content.id);
        assert(forall|i: int| 0 <= i < n ==> front[i] == #[trigger] rows[i]);
        if exists|i: int|
            0 <= i < front.len() && (#[trigger] front[i]).content.id == id && looks_encoded(
                front[i],
            ) {
            let i = choose|i: int|
                0 <= i < front.len() && (#[trigger] front[i]).content.id == id && looks_encoded(
                    front[i],
                );
            assert(rows[i].content.id == id);
        }
        assert(rows[n] == rows.last());
    }
}

/// What speaks for a body that was stored without undoing its encoding, where it
/// can be fetched again.
pub open spec fn looks_encoded(row: CachedBodyRow) -> bool {
    let c = row.content;
    &&& c.body_state@ == "cached"@ && row.has_body && !row.has_raw_file
    &&& c.uid is Some && c.folder is Some
    &&& c.provider is Gmail || opt_text(c.folder->0.role) != Some(ALL@)
    &&& row.plan is Some
    &&& exists|k: int|
        0 <= k < row.plan->0.text_sections@.len() && {
            let section = #[trigger] row.plan->0.text_sections@[k];
            let encoding = lower(section.transfer_encoding@);
            ||| encoding == lower("base64"@) && row.plan->0.version < MIME_PLAN_VERSION
            ||| encoding == lower("base64"@) && section.kind is Html && row.html_looks_base64
            ||| encoding == lower("quoted-printable"@) && section.kind is Plain
                && row.text_looks_quoted_printable
            ||| encoding == lower("quoted-printable"@) && section.kind is Html
                && row.html_looks_quoted_printable
        }
}

/// The row after its body was given up to be fetched again: nothing is left of
/// the body, of what was made from it, or of an earlier failure to fetch it.
pub open spec fn is_requeued(before: CachedBodyRow, after: CachedBodyRow) -> bool {
    &&& after.content.body_state@ == "none"@
    &&& after.content.failure is None
    &&& after.content.id == before.content.id
    &&& after.content.account_id == before.content.account_id
    &&& after.content.provider == before.content.provider
    &&& after.content.folder == before.content.folder
    &&& after.content.uid == before.content.uid
    &&& after.content.date == before.content.date
    &&& after.has_raw_file == before.has_raw_file
    &&& after.plan == before.plan
    &&& !after.has_body
    &&& after.snippet@ == Seq::<char>::empty()
    &&& after.embedding_state@ == "none"@
    &&& !after.has_embeddings
    &&& !after.text_looks_quoted_printable
    &&& !after.html_looks_quoted_printable
    &&& !after.html_looks_base64
}

/// What requeueing makes of the store: every misdecoded body is given up, and
/// every other row is left alone.
pub open spec fn are_requeued(before: Seq<CachedBodyRow>, after: Seq<CachedBodyRow>) -> bool {
    &&& after.len() == before.len()
    &&& forall|i: int|
        0 <= i < before.len() ==> if is_misdecoded(before[i]) {
            is_requeued(before[i], #[trigger] after[i])
        } else {
            after[i] == before[i]
        }
}

/// A body that was given up is fetched again: it is due at once in its folder, and
/// nothing that was made from it is left.
pub proof fn given_up_bodies_are_due_again(
    before: Seq<CachedBodyRow>,
    after: Seq<CachedBodyRow>,
    i: int,
    now: i64,
)
    requires
        are_requeued(before, after),
        0 <= i < before.len(),
    ensures
        after.len() == before.len(),
        is_misdecoded(before[i]) ==> is_due(
            after[i].content,
            before[i].content.folder->0.id,
            now,
        ) && after[i].content.id == before[i].content.id && after[i].content.uid
            == before[i].content.uid && !after[i].has_body && !after[i].has_embeddings
            && after[i].snippet@ == Seq::<char>::empty() && after[i].content.failure is None,
        !is_misdecoded(before[i]) ==> after[i] == before[i],
{
    assert(if is_misdecoded(before[i]) {
        is_requeued(before[i], after[i])
    } else {
        after[i] == before[i]
    });
}

/// Requeue selective bodies that an older decoder persisted before undoing
/// their MIME transfer encoding. These rows are otherwise permanently stuck
/// at `cached`, so merely fixing the decoder would never revisit them.
pub fn requeue_misdecoded_bodies(rows: &mut Vec<CachedBodyRow>) -> (r: Vec<i64>)
    ensures
        r@ == misdecoded_ids(old(rows)@),
        are_requeued(old(rows)@, final(rows)@),
{
    let ghost before = rows@;
    let mut out: Vec<i64> = Vec::new();
    let mut i: usize = 0;
    proof {
        reveal_strlit("");
    }
    while i < rows.len()
        invariant
            i <= rows@.len() == before.len(),
            ""@.len() == 0,
            out@ == misdecoded_ids(before.take(i as int)),
            are_requeued(before.take(i as int), rows@.take(i as int)),
            forall|k: int| i <= k < before.len() ==> #[trigger] rows@[k] == before[k],
        decreases before.len() - i,
    {
        let ghost had = rows@;
        proof {
            assert(before.take(i + 1).drop_last() =~= before.take(i as int));
            assert(before.take(i + 1).last() == before[i as int]);
        }
        if misdecoded(&rows[i]) {
            out.push(rows[i].content.id);
            let row: &mut CachedBodyRow = &mut rows[i];
            row.content.body_state = owned("none");
            row.content.failure = None;
            row.has_body = false;
            row.snippet = owned("");
            row.embedding_state = owned("none");
            row.has_embeddings = false;
            row.text_looks_quoted_printable = false;
            row.html_looks_quoted_printable = false;
            row.html_looks_base64 = false;
            proof {
                assert(row.snippet@ =~= Seq::<char>::empty());
            }
        }
        proof {
            let b = before.take(i + 1);
            let a = rows@.take(i + 1);
            assert forall|k: int| 0 <= k < b.len() implies if is_misdecoded(b[k]) {
                is_requeued(b[k], #[trigger] a[k])
            } else {
                a[k] == b[k]
            } by {
                if k < i {
                    assert(rows@[k] == had[k]);
                    assert(had.take(i as int)[k] == had[k]);
                    assert(before.take(i as int)[k] == before[k]);
                }
            }
        }
        i = i + 1;
    }
    proof {
        assert(before.take(before.len() as int) =~= before);
        assert(rows@.take(rows@.len() as int) =~= rows@);
    }
    out
}

proof fn lemma_none_misdecoded(rows: Seq<CachedBodyRow>)
    requires
        forall|i: int| 0 <= i < rows.len() ==> !is_misdecoded(#[trigger] rows[i]),
    ensures
        misdecoded_ids(rows) == Seq::<i64>::empty(),
    decreases rows.len(),
{
    if rows.len() > 0 {
        let init = rows.drop_last();
        assert forall|i: int| 0 <= i < init.len() implies !is_misdecoded(#[trigger] init[i]) by {
            assert(init[i] == rows[i]);
        }
        lemma_none_misdecoded(init);
        assert(!is_misdecoded(rows[rows.len() - 1]));
    }
}

proof fn lemma_requeued_is_settled(row: CachedBodyRow)
    ensures
        row.content.body_state@ == "none"@ ==> !is_misdecoded(row),
{
    reveal_strlit("none");
    reveal_strlit("cached");
    assert("none"@.len() != "cached"@.len());
}

/// Requeueing is done once: a second run over the store finds nothing, and
/// changes nothing. A body that is cached again under the current plan without
/// artifacts stays.
pub proof fn requeued_bodies_stay_settled(
    before: Seq<CachedBodyRow>,
    after: Seq<CachedBodyRow>,
    again: Seq<CachedBodyRow>,
    row: CachedBodyRow,
)
    requires
        are_requeued(before, after),
        are_requeued(after, again),
    ensures
        misdecoded_ids(after) == Seq::<i64>::empty(),
        again == after,
        row.plan matches Some(p) && p.version == MIME_PLAN_VERSION && !row.html_looks_base64
            && !row.html_looks_quoted_printable && !row.text_looks_quoted_printable
            ==> !is_misdecoded(row),
{
    assert forall|i: int| 0 <= i < after.len() implies !is_misdecoded(#[trigger] after[i]) by {
        lemma_requeued_is_settled(after[i]);
        assert(is_misdecoded(before[i]) ==> is_requeued(before[i], after[i]));
    }
    lemma_none_misdecoded(after);
    assert(again =~= after) by {
        assert forall|i: int| 0 <= i < after.len() implies #[trigger] again[i] == after[i] by {
            assert(!is_misdecoded(after[i]));
        }
    }
}

/// A cached message with its preview, and the preview that its body gives now.
#[derive(Debug, Clone)]
pub struct PreviewRow {
    pub id: i64,
    pub thread_id: Option<i64>,
    pub body_state: String,
    pub snippet: String,
    pub text_body: Option<String>,
    pub has_html: bool,
    pub fresh_snippet: String,
    pub embedding_state: String,
    pub has_embeddings: bool,
}

/// The preview holds what escaped HTML leaves behind.
pub open spec fn has_entities(s: Seq<char>) -> bool {
    let l = lower(s);
    has_text(l, "&#"@) || has_text(l, "&lt;"@) || has_text(l, "&gt;"@) || has_text(l, "&quot;"@)
        || has_text(l, "&apos;"@) || has_text(l, "&grave;"@) || has_text(l, "&amp;"@)
}

/// The preview is replaced: it was made of HTML by escaping it, no plain text
/// takes precedence, and a new preview says something else.
pub open spec fn needs_repair(row: PreviewRow) -> bool {
    &&& row.body_state@ == "cached"@
    &&& row.has_html
    &&& has_entities(row.snippet@)
    &&& opt_text(row.text_body) matches Some(t) ==> is_blank(t)
    &&& row.fresh_snippet@ != row.snippet@
}

/// Replace previews that escaped HTML instead of extracting its text. A real
/// plaintext alternative remains authoritative even if its stored preview
/// happens to contain an entity-like token.
pub fn repairs_escaped_snippet(row: &PreviewRow) -> (r: bool)
    ensures
        r == needs_repair(*row),
{
    if !row.body_state.as_str().eq("cached") || !row.has_html {
        return false;
    }
    let low: String = lower_str(row.snippet.as_str());
    let s: &str = low.as_str();
    let entities: bool = contains_str(s, "&#") || contains_str(s, "&lt;") || contains_str(s, "&gt;")
        || contains_str(s, "&quot;") || contains_str(s, "&apos;") || contains_str(s, "&grave;")
        || contains_str(s, "&amp;");
    let plain: bool = match &row.text_body {
        Some(t) => !blank(t.as_str()),
        None => false,
    };
    entities && !plain && !row.fresh_snippet.as_str().eq(row.snippet.as_str())
}

/// The messages whose preview is replaced, in order.
pub open spec fn repaired_ids(rows: Seq<PreviewRow>) -> Seq<i64>
    decreases rows.len(),
{
    if rows.len() == 0 {
        Seq::empty()
    } else if needs_repair(rows.last()) {
        repaired_ids(rows.drop_last()).push(rows.last().id)
    } else {
        repaired_ids(rows.drop_last())
    }
}

/// A preview is made anew only where escaped HTML shows in it: the body is cached
/// and has HTML, no plain text says otherwise, the stored preview holds an
/// entity, and the new one is another. Where all of that holds, it is made anew.
pub proof fn only_escaped_previews_are_repaired(rows: Seq<PreviewRow>, id: i64)
    ensures
        repaired_ids(rows).contains(id) <==> exists|i: int|
            0 <= i < rows.len() && (#[trigger] rows[i]).id == id && rows[i].body_state@
                == "cached"@ && rows[i].has_html && (rows[i].text_body is None || is_blank(
                rows[i].text_body->0@,
            )) && rows[i].fresh_snippet@ != rows[i].snippet@ && has_entities(rows[i].snippet@),
        repaired_ids(rows).len() <= rows.len(),
    decreases rows.len(),
{
    if rows.len() > 0 {
        let front = rows.drop_last();
        let n = rows.len() - 1;
        only_escaped_previews_are_repaired(front, id);
        lemma_pushed(repaired_ids(front), rows.last().id);
        assert(forall|i: int| 0 <= i < n ==> front[i] == #[trigger] rows[i]);
        if exists|i: int|
            0 <= i < front.len() && (#[trigger] front[i]).id == id && needs_repair(front[i]) {
            let i = choose|i: int|
                0 <= i < front.len() && (#[trigger] front[i]).id == id && needs_repair(front[i]);
            assert(rows[i].id == id);
        }
        assert(rows[n] == rows.last());
    }
}

/// An entity anywhere in a preview shows, in any spelling of case.
pub proof fn entities_show_anywhere(before: Seq<char>, entity: Seq<char>, after: Seq<char>)
    requires
        lower(entity) == "&lt;"@ || lower(entity) == "&gt;"@ || lower(entity) == "&amp;"@ || lower(
            entity,
        ) == "&quot;"@ || lower(entity) == "&apos;"@ || lower(entity) == "&grave;"@ || lower(entity)
            == "&#"@,
    ensures
        has_entities(before + entity + after),
{
    let s = before + entity + after;
    let e = lower(entity);
    assert(lower(s).subrange(before.len() as int, (before.len() + e.len()) as int) =~= e);
    assert(matches_at(lower(s), e, before.len() as int));
}

/// The row after its preview was made anew: what was learned from the old one is
/// dropped and learned again, and the body is left alone.
pub open spec fn is_repaired(before: PreviewRow, after: PreviewRow) -> bool {
    &&& after.snippet@ == before.fresh_snippet@
    &&& after.embedding_state@ == "pending"@
    &&& !after.has_embeddings
    &&& after.id == before.id
    &&& after.thread_id == before.thread_id
    &&& after.body_state == before.body_state
    &&& after.text_body == before.text_body
    &&& after.has_html == before.has_html
    &&& after.fresh_snippet == before.fresh_snippet
}

/// What the repair makes of the store: previews that need it are made anew, and
/// every other row is left alone.
pub open spec fn are_repaired(before: Seq<PreviewRow>, after: Seq<PreviewRow>) -> bool {
    &&& after.len() == before.len()
    &&& forall|i: int|
        0 <= i < before.len() ==> if needs_repair(before[i]) {
            is_repaired(before[i], #[trigger] after[i])
        } else {
            after[i] == before[i]
        }
}

/// A preview that is made anew says what the body gives now, and is learned from
/// again; the body is left alone, and so is every other row.
pub proof fn repaired_previews_say_what_is_fresh(
    before: Seq<PreviewRow>,
    after: Seq<PreviewRow>,
    i: int,
)
    requires
        are_repaired(before, after),
        0 <= i < before.len(),
    ensures
        after.len() == before.len(),
        repaired_ids(seq![before[i]]).len() > 0 ==> after[i].snippet@ == before[i].fresh_snippet@
            && after[i].embedding_state@ == "pending"@ && !after[i].has_embeddings && after[i].id
            == before[i].id && after[i].text_body == before[i].text_body && after[i].body_state
            == before[i].body_state,
        repaired_ids(seq![before[i]]).len() == 0 ==> after[i] == before[i],
{
    let one = seq![before[i]];
    assert(one.drop_last() =~= Seq::<PreviewRow>::empty());
    reveal_with_fuel(repaired_ids, 2);
    assert(if needs_repair(before[i]) {
        is_repaired(before[i], after[i])
    } else {
        after[i] == before[i]
    });
}

/// Replaces the previews that escaped HTML by what the bodies give now, and says
/// of which messages.
pub fn repair_escaped_html_snippets(rows: &mut Vec<PreviewRow>) -> (r: Vec<i64>)
    ensures
        r@ == repaired_ids(old(rows)@),
        are_repaired(old(rows)@, final(rows)@),
{
    let ghost before = rows@;
    let mut out: Vec<i64> = Vec::new();
    let mut i: usize = 0;
    while i < rows.len()
        invariant
            i <= rows@.len() == before.len(),
            out@ == repaired_ids(before.take(i as int)),
            are_repaired(before.take(i as int), rows@.take(i as int)),
            forall|k: int| i <= k < before.len() ==> #[trigger] rows@[k] == before[k],
        decreases before.len() - i,
    {
        let ghost had = rows@;
        proof {
            assert(before.take(i + 1).drop_last() =~= before.take(i as int));
            assert(before.take(i + 1).last() == before[i as int]);
        }
        if repairs_escaped_snippet(&rows[i]) {
            out.push(rows[i].id);
            let fresh: String = rows[i].fresh_snippet.clone();
            let row: &mut PreviewRow = &mut rows[i];
            row.snippet = fresh;
            row.embedding_state = owned("pending");
            row.has_embeddings = false;
        }
        proof {
            let b = before.take(i + 1);
            let a = rows@.take(i + 1);
            assert forall|k: int| 0 <= k < b.len() implies if needs_repair(b[k]) {
                is_repaired(b[k], #[trigger] a[k])
            } else {
                a[k] == b[k]
            } by {
                if k < i {
                    assert(rows@[k] == had[k]);
                    assert(had.take(i as int)[k] == had[k]);
                    assert(before.take(i as int)[k] == before[k]);
                }
            }
        }
        i = i + 1;
    }
    proof {
        assert(before.take(before.len() as int) =~= before);
        assert(rows@.take(rows@.len() as int) =~= rows@);
    }
    out
}

proof fn lemma_none_repaired(rows: Seq<PreviewRow>)
    requires
        forall|i: int| 0 <= i < rows.len() ==> !needs_repair(#[trigger] rows[i]),
    ensures
        repaired_ids(rows) == Seq::<i64>::empty(),
    decreases rows.len(),
{
    if rows.len() > 0 {
        let init = rows.drop_last();
        assert forall|i: int| 0 <= i < init.len() implies !needs_repair(#[trigger] init[i]) by {
            assert(init[i] == rows[i]);
        }
        lemma_none_repaired(init);
        assert(!needs_repair(rows[rows.len() - 1]));
    }
}

/// Previews are repaired once: a second run over the store finds nothing, and
/// changes nothing. A message with plain text of its own keeps its preview.
pub proof fn repair_happens_once(
    before: Seq<PreviewRow>,
    after: Seq<PreviewRow>,
    again: Seq<PreviewRow>,
)
    requires
        are_repaired(before, after),
        are_repaired(after, again),
    ensures
        repaired_ids(after) == Seq::<i64>::empty(),
        again == after,
        forall|i: int|
            0 <= i < before.len() && opt_text((#[trigger] before[i]).text_body) is Some
                && !is_blank(opt_text(before[i].text_body)->0) ==> after[i] == before[i],
{
    assert forall|i: int| 0 <= i < after.len() implies !needs_repair(#[trigger] after[i]) by {
        assert(needs_repair(before[i]) ==> is_repaired(before[i], after[i]));
    }
    lemma_none_repaired(after);
    assert(again =~= after) by {
        assert forall|i: int| 0 <= i < after.len() implies #[trigger] again[i] == after[i] by {
            assert(!needs_repair(after[i]));
        }
    }
}

// ---------------------------------------------------------------------------
// Display
// ---------------------------------------------------------------------------

/// The subject that is shown: a local prefix stands before it, and the stored
/// subject itself is never rewritten.
pub fn shown_subject(prefix: &str, subject: &str) -> (r: String)
    ensures
        r@ == prefix@ + subject@,
{
    concat2(prefix, subject)
}

/// The attachments of one message among those of a thread, in their order.
pub open spec fn attachments_with(all: Seq<(i64, AttachmentMeta)>, message_id: i64) -> Seq<
    AttachmentMeta,
>
    decreases all.len(),
{
    if all.len() == 0 {
        Seq::empty()
    } else if all.last().0 == message_id {
        attachments_with(all.drop_last(), message_id).push(all.last().1)
    } else {
        attachments_with(all.drop_last(), message_id)
    }
}

/// A message is shown with its own attachments, all of them and no other's.
pub proof fn messages_have_their_own_attachments(
    all: Seq<(i64, AttachmentMeta)>,
    message_id: i64,
    a: AttachmentMeta,
)
    ensures
        attachments_with(all, message_id).contains(a) <==> all.contains((message_id, a)),
        attachments_with(all, message_id).len() <= all.len(),
    decreases all.len(),
{
    if all.len() > 0 {
        messages_have_their_own_attachments(all.drop_last(), message_id, a);
        lemma_ends(all);
        lemma_pushed(attachments_with(all.drop_last(), message_id), all.last().1);
    }
}

/// Picks the attachments of one message out of those of its thread, so that a
/// thread needs one read for all of them.
pub fn attachments_of(all: &Vec<(i64, AttachmentMeta)>, message_id: i64) -> (r: Vec<AttachmentMeta>)
    ensures
        r@ == attachments_with(all@, message_id),
{
    let mut out: Vec<AttachmentMeta> = Vec::new();
    let mut i: usize = 0;
    while i < all.len()
        invariant
            i <= all@.len(),
            out@ == attachments_with(all@.take(i as int), message_id),
        decreases all@.len() - i,
    {
        proof {
            assert(all@.take(i + 1).drop_last() =~= all@.take(i as int));
            assert(all@.take(i + 1).last() == all@[i as int]);
        }
        if all[i].0 == message_id {
            let a: &AttachmentMeta = &all[i].1;
            out.push(
                AttachmentMeta {
                    id: a.id,
                    filename: match &a.filename {
                        Some(n) => Some(n.clone()),
                        None => None,
                    },
                    mime_type: match &a.mime_type {
                        Some(m) => Some(m.clone()),
                        None => None,
                    },
                    size: a.size,
                    is_inline: a.is_inline,
                },
            );
        }
        i = i + 1;
    }
    proof {
        assert(all@.take(all@.len() as int) =~= all@);
    }
    out
}

/// The note of an automation, where it says anything.
pub fn shown_note(note: &str) -> (r: Option<String>)
    ensures
        opt_text(r) == (if is_blank(note@) {
            None
        } else {
            Some(note@)
        }),
{
    if blank(note) {
        None
    } else {
        Some(owned(note))
    }
}

/// A send action of a draft.
#[derive(Debug, Clone)]
pub struct SendAttempt {
    pub id: i64,
    pub state: String,
    pub last_error: Option<String>,
}

/// The action says something about the draft: it has neither run nor been
/// cancelled.
pub open spec fn is_live_send(a: SendAttempt) -> bool {
    a.state@ == "pending"@ || a.state@ == "inflight"@ || a.state@ == "failed"@
}

/// The latest action that says something: the one with the highest id.
pub open spec fn latest_send(actions: Seq<SendAttempt>) -> Option<SendAttempt>
    decreases actions.len(),
{
    if actions.len() == 0 {
        None
    } else {
        match latest_send(actions.drop_last()) {
            Some(best) if !is_live_send(actions.last()) || actions.last().id <= best.id => Some(
                best,
            ),
            None if !is_live_send(actions.last()) => None,
            _ => Some(actions.last()),
        }
    }
}

/// The delivery state that is shown of a draft, and the error that goes with
/// it: `failed` once an attempt errored, `queued` while its send is still in
/// flight.
pub open spec fn shown_send(actions: Seq<SendAttempt>) -> (Option<Seq<char>>, Option<Seq<char>>) {
    match latest_send(actions) {
        None => (None, None),
        Some(a) => (
            Some(
                if a.state@ == "failed"@ || a.last_error is Some {
                    "failed"@
                } else {
                    "queued"@
                },
            ),
            opt_text(a.last_error),
        ),
    }
}

/// A draft shows the state of its newest send that has neither run nor been
/// cancelled: failed where that one failed or has an error on record, queued
/// where it waits or runs without one; without such a send it shows nothing.
pub proof fn drafts_show_their_newest_send(actions: Seq<SendAttempt>, i: int)
    requires
        0 <= i < actions.len(),
        actions[i].state@ == "pending"@ || actions[i].state@ == "inflight"@ || actions[i].state@
            == "failed"@,
        forall|j: int|
            0 <= j < actions.len() && j != i && ((#[trigger] actions[j]).state@ == "pending"@
                || actions[j].state@ == "inflight"@ || actions[j].state@ == "failed"@)
                ==> actions[j].id < actions[i].id,
    ensures
        shown_send(actions).0 == Some(
            if actions[i].state@ == "failed"@ || actions[i].last_error is Some {
                "failed"@
            } else {
                "queued"@
            },
        ),
        shown_send(actions).1 == opt_text(actions[i].last_error),
{
    lemma_latest_is(actions, i);
}

/// A draft without such a send shows nothing.
pub proof fn drafts_without_a_send_show_nothing(actions: Seq<SendAttempt>)
    requires
        forall|j: int|
            0 <= j < actions.len() ==> (#[trigger] actions[j]).state@ != "pending"@
                && actions[j].state@ != "inflight"@ && actions[j].state@ != "failed"@,
    ensures
        shown_send(actions) == (None::<Seq<char>>, None::<Seq<char>>),
    decreases actions.len(),
{
    if actions.len() > 0 {
        let front = actions.drop_last();
        assert forall|j: int| 0 <= j < front.len() implies (#[trigger] front[j]).state@
            != "pending"@ && front[j].state@ != "inflight"@ && front[j].state@ != "failed"@ by {
            assert(front[j] == actions[j]);
        }
        drafts_without_a_send_show_nothing(front);
        assert(latest_send(front) is None);
        assert(actions[actions.len() - 1] == actions.last());
    }
}

proof fn lemma_latest_is(actions: Seq<SendAttempt>, i: int)
    requires
        0 <= i < actions.len(),
        is_live_send(actions[i]),
        forall|j: int|
            0 <= j < actions.len() && j != i && is_live_send(#[trigger] actions[j])
                ==> actions[j].id < actions[i].id,
    ensures
        latest_send(actions) == Some(actions[i]),
    decreases actions.len(),
{
    let front = actions.drop_last();
    let n = actions.len() - 1;
    assert(forall|j: int| 0 <= j < n ==> front[j] == #[trigger] actions[j]);
    if i < n {
        lemma_latest_is(front, i);
        assert(actions[n] == actions.last());
    } else {
        lemma_latest_bound(front, actions[i].id);
    }
}

proof fn lemma_latest_bound(actions: Seq<SendAttempt>, bound: i64)
    requires
        forall|j: int|
            0 <= j < actions.len() && is_live_send(#[trigger] actions[j]) ==> actions[j].id < bound,
    ensures
        latest_send(actions) matches Some(a) ==> a.id < bound,
    decreases actions.len(),
{
    if actions.len() > 0 {
        let front = actions.drop_last();
        assert(forall|j: int| 0 <= j < front.len() ==> front[j] == #[trigger] actions[j]);
        lemma_latest_bound(front, bound);
        assert(actions[actions.len() - 1] == actions.last());
    }
}

/// Annotates a draft with the state of its queued send action, so a
/// stuck/failed send stays visible with its error instead of looking like an
/// ordinary draft.
pub fn send_state(actions: &Vec<SendAttempt>) -> (r: (Option<String>, Option<String>))
    ensures
        (opt_text(r.0), opt_text(r.1)) == shown_send(actions@),
{
    let mut best: Option<usize> = None;
    let mut i: usize = 0;
    while i < actions.len()
        invariant
            i <= actions@.len(),
            match best {
                Some(b) => b < i && latest_send(actions@.take(i as int)) == Some(
                    actions@[b as int],
                ),
                None => latest_send(actions@.take(i as int)) is None,
            },
        decreases actions@.len() - i,
    {
        proof {
            assert(actions@.take(i + 1).drop_last() =~= actions@.take(i as int));
        }
        let state: &str = actions[i].state.as_str();
        let live: bool = state.eq("pending") || state.eq("inflight") || state.eq("failed");
        if live {
            best = match best {
                Some(b) => if actions[i].id <= actions[b].id {
                    Some(b)
                } else {
                    Some(i)
                },
                None => Some(i),
            };
        }
        i = i + 1;
    }
    proof {
        assert(actions@.take(actions@.len() as int) =~= actions@);
    }
    match best {
        None => (None, None),
        Some(b) => {
            let a: &SendAttempt = &actions[b];
            let shown: String = if a.state.as_str().eq("failed") || a.last_error.is_some() {
                owned("failed")
            } else {
                owned("queued")
            };
            (Some(shown), crate::text::clone_opt(&a.last_error))
        },
    }
}

/// A new header value where there is one, else the stored one.
pub fn set_unsubscribe_header(stored: &Option<String>, found: &Option<String>) -> (r: Option<String>)
    ensures
        opt_text(r) == (if found is Some {
            opt_text(*found)
        } else {
            opt_text(*stored)
        }),
{
    match found {
        Some(v) => Some(v.clone()),
        None => crate::text::clone_opt(stored),
    }
}

// ---------------------------------------------------------------------------
// Lists
// ---------------------------------------------------------------------------

/// Some UID is known.
pub open spec fn any_uid(uids: Seq<Option<i64>>) -> bool {
    exists|i: int| 0 <= i < uids.len() && (#[trigger] uids[i]) is Some
}

/// The highest UID that is mapped in a folder, 0 where none is.
pub fn max_uid_in_folder(uids: &Vec<Option<i64>>) -> (r: i64)
    ensures
        any_uid(uids@) ==> uids@.contains(Some(r)) && forall|i: int|
            0 <= i < uids@.len() && (#[trigger] uids@[i]) is Some ==> uids@[i]->0 <= r,
        !any_uid(uids@) ==> r == 0,
{
    let mut best: Option<i64> = None;
    let mut i: usize = 0;
    while i < uids.len()
        invariant
            i <= uids@.len(),
            match best {
                Some(b) => uids@.contains(Some(b)) && forall|j: int|
                    0 <= j < i && (#[trigger] uids@[j]) is Some ==> uids@[j]->0 <= b,
                None => forall|j: int| 0 <= j < i ==> (#[trigger] uids@[j]) is None,
            },
        decreases uids@.len() - i,
    {
        if let Some(u) = uids[i] {
            proof {
                assert(uids@[i as int] == Some(u));
                assert(uids@.contains(Some(u)));
            }
            best = match best {
                Some(b) => if u > b {
                    Some(u)
                } else {
                    Some(b)
                },
                None => Some(u),
            };
        }
        i = i + 1;
    }
    match best {
        Some(b) => {
            proof {
                let j = choose|j: int| 0 <= j < uids@.len() && uids@[j] == Some(b);
                assert(uids@[j] is Some);
            }
            b
        },
        None => 0,
    }
}

/// The ids that are also in the other list, in their order.
pub open spec fn kept(ids: Seq<i64>, sent: Seq<i64>) -> Seq<i64>
    decreases ids.len(),
{
    if ids.len() == 0 {
        Seq::empty()
    } else {
        let rest = kept(ids.drop_last(), sent);
        if sent.contains(ids.last()) {
            rest.push(ids.last())
        } else {
            rest
        }
    }
}

/// Of `ids`, return those that are the user's own sent (non-draft) messages,
/// preserving the input order. Used to keep only self-authored few-shot hits.
/// `sent` holds the ids of such messages.
pub fn filter_sent(ids: &Vec<i64>, sent: &Vec<i64>) -> (r: Vec<i64>)
    ensures
        r@ == kept(ids@, sent@),
{
    let mut out: Vec<i64> = Vec::new();
    let mut i: usize = 0;
    while i < ids.len()
        invariant
            i <= ids@.len(),
            out@ == kept(ids@.take(i as int), sent@),
        decreases ids@.len() - i,
    {
        proof {
            assert(ids@.take(i + 1).drop_last() =~= ids@.take(i as int));
        }
        if crate::lists::contains_id(sent, ids[i]) {
            out.push(ids[i]);
        }
        i = i + 1;
    }
    proof {
        assert(ids@.take(ids@.len() as int) =~= ids@);
    }
    out
}

/// Of the ids exactly those stay that the other list holds.
pub proof fn only_sent_ids_stay(ids: Seq<i64>, sent: Seq<i64>, id: i64)
    ensures
        kept(ids, sent).contains(id) <==> ids.contains(id) && sent.contains(id),
        kept(ids, sent).len() <= ids.len(),
        (forall|i: int| 0 <= i < ids.len() ==> sent.contains(#[trigger] ids[i])) ==> kept(ids, sent)
            == ids,
    decreases ids.len(),
{
    if ids.len() > 0 {
        let front = ids.drop_last();
        only_sent_ids_stay(front, sent, id);
        lemma_ends(ids);
        lemma_pushed(kept(front, sent), ids.last());
        if forall|i: int| 0 <= i < ids.len() ==> sent.contains(#[trigger] ids[i]) {
            assert forall|i: int| 0 <= i < front.len() implies sent.contains(
                #[trigger] front[i],
            ) by {
                assert(front[i] == ids[i]);
            }
            assert(sent.contains(ids[ids.len() - 1]));
            assert(kept(ids, sent) =~= ids);
        }
    }
}

/// A message as far as learning from the user's sent mail goes.
#[derive(Debug, Clone)]
pub struct SentRow {
    pub id: i64,
    pub account_id: i64,
    pub folder_role: Option<String>,
    pub is_draft: bool,
    pub text_body: Option<String>,
    pub date: i64,
}

/// The message was written and sent by the user.
pub open spec fn is_own_sent(row: SentRow) -> bool {
    opt_text(row.folder_role) == Some(SENT@) && !row.is_draft
}

pub fn own_sent(row: &SentRow) -> (r: bool)
    ensures
        r == is_own_sent(*row),
{
    let in_sent: bool = match &row.folder_role {
        Some(role) => role.as_str().eq(SENT),
        None => false,
    };
    in_sent && !row.is_draft
}

/// The message is part of the corpus for learning the user's writing voice.
pub open spec fn in_voice_corpus(row: SentRow, account_id: Option<i64>) -> bool {
    &&& is_own_sent(row)
    &&& row.text_body matches Some(t) && t@.len() > 0
    &&& account_id matches Some(a) ==> row.account_id == a
}

pub open spec fn voice_rows(rows: Seq<SentRow>, account_id: Option<i64>) -> Seq<SentRow>
    decreases rows.len(),
{
    if rows.len() == 0 {
        Seq::empty()
    } else {
        let rest = voice_rows(rows.drop_last(), account_id);
        if in_voice_corpus(rows.last(), account_id) {
            rest.push(rows.last())
        } else {
            rest
        }
    }
}

/// A voice is learned only from what the user wrote themselves: sent mail that is
/// no draft and has text, of the account that was named where one was; and from
/// all of that.
pub proof fn voices_are_learned_from_own_mail(rows: Seq<SentRow>, account_id: Option<i64>)
    ensures
        forall|r: SentRow| #[trigger]
            voice_rows(rows, account_id).contains(r) <==> rows.contains(r) && opt_text(
                r.folder_role,
            ) == Some(SENT@) && !r.is_draft && r.text_body is Some && r.text_body->0@.len() > 0 && (
            account_id is None || account_id == Some(r.account_id)),
    decreases rows.len(),
{
    if rows.len() > 0 {
        voices_are_learned_from_own_mail(rows.drop_last(), account_id);
        lemma_ends(rows);
        lemma_pushed(voice_rows(rows.drop_last(), account_id), rows.last());
    }
}

/// The user's own sent messages with bodies, newest first - the corpus for
/// learning their writing voice: their positions among `rows`.
pub fn list_sent_bodies(rows: &Vec<SentRow>, account_id: Option<i64>, limit: i64) -> (r: Vec<i64>)
    ensures
        ({
            let corpus = voice_rows(rows@, account_id);
            exists|order: Seq<usize>|
                is_newest_order(corpus.map_values(|s: SentRow| s.date), order) && order.len()
                    == corpus.len() && r@ == order.take(
                    limited(order.len() as int, limit),
                ).map_values(|i: usize| corpus[i as int].id)
        }),
{
    let mut ids: Vec<i64> = Vec::new();
    let mut dates: Vec<i64> = Vec::new();
    let mut i: usize = 0;
    while i < rows.len()
        invariant
            i <= rows@.len(),
            ids@ == voice_rows(rows@.take(i as int), account_id).map_values(|s: SentRow| s.id),
            dates@ == voice_rows(rows@.take(i as int), account_id).map_values(|s: SentRow| s.date),
        decreases rows@.len() - i,
    {
        let ghost before = voice_rows(rows@.take(i as int), account_id);
        let row: &SentRow = &rows[i];
        proof {
            assert(rows@.take(i + 1).drop_last() =~= rows@.take(i as int));
        }
        let has_text_body: bool = match &row.text_body {
            Some(t) => t.as_str().unicode_len() > 0,
            None => false,
        };
        let of_account: bool = match account_id {
            Some(a) => row.account_id == a,
            None => true,
        };
        if own_sent(row) && has_text_body && of_account {
            ids.push(row.id);
            dates.push(row.date);
            proof {
                assert(ids@ =~= before.push(*row).map_values(|s: SentRow| s.id));
                assert(dates@ =~= before.push(*row).map_values(|s: SentRow| s.date));
            }
        }
        i = i + 1;
    }
    let ghost all = voice_rows(rows@, account_id);
    proof {
        assert(rows@.take(rows@.len() as int) =~= rows@);
        assert(ids@.len() == all.len());
    }
    let order: Vec<usize> = newest_order(&dates);
    let n: usize = order.len();
    let keep: usize = if limit < 0 || limit as u64 >= n as u64 {
        n
    } else {
        limit as usize
    };
    let mut out: Vec<i64> = Vec::new();
    let mut k: usize = 0;
    while k < keep
        invariant
            k <= keep <= order@.len(),
            order@.len() == ids@.len(),
            ids@ == all.map_values(|s: SentRow| s.id),
            is_newest_order(dates@, order@),
            dates@.len() == ids@.len(),
            out@ == order@.take(k as int).map_values(|i: usize| all[i as int].id),
        decreases keep - k,
    {
        proof {
            assert(order@.contains(order@[k as int]));
            assert(order@.take(k + 1) =~= order@.take(k as int).push(order@[k as int]));
        }
        out.push(ids[order[k]]);
        k = k + 1;
        proof {
            assert(out@ =~= order@.take(k as int).map_values(|i: usize| all[i as int].id));
        }
    }
    proof {
        assert(is_newest_order(all.map_values(|s: SentRow| s.date), order@));
        assert(keep == limited(order@.len() as int, limit));
    }
    out
}

} // verus!
