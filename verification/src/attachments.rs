//! The attachment rows of a message: how descriptors from BODYSTRUCTURE and
//! from a full parse are matched with the rows that are there, so that row ids
//! and downloaded files survive.

use vstd::prelude::*;

use crate::lists::{lemma_picked, picked};
use crate::mime::PlannedAttachment;
use crate::text::{clone_opt, opt_eq, opt_text, owned};

verus! {

/// An attachment that a full parse of a message found.
#[derive(Debug)]
pub struct NewAttachment<'a> {
    pub message_id: i64,
    pub part_id: Option<&'a str>,
    pub filename: Option<&'a str>,
    pub mime_type: Option<&'a str>,
    pub size: Option<i64>,
    pub content_id: Option<&'a str>,
    pub is_inline: bool,
}

/// An attachment row of a message.
#[derive(Debug, Clone)]
pub struct AttachmentRow {
    pub id: i64,
    pub part_id: Option<String>,
    pub filename: Option<String>,
    pub mime_type: Option<String>,
    pub size: Option<i64>,
    pub content_id: Option<String>,
    pub is_inline: bool,
    pub imap_section: Option<String>,
    pub file_path: Option<String>,
}

// ---------------------------------------------------------------------------
// Replacing after a full parse
// ---------------------------------------------------------------------------

fn same_text(a: &Option<String>, b: Option<&str>) -> (r: bool)
    ensures
        r == (opt_text(*a) == crate::text::opt_str(b)),
{
    match (a, b) {
        (Some(x), Some(y)) => x.as_str().eq(y),
        (None, None) => true,
        _ => false,
    }
}

/// How well a row fits an attachment; lower is better, `None` is not at all.
/// Full-message parsing uses attachment indexes while BODYSTRUCTURE uses IMAP
/// section ids, so the strongest immutable metadata decides.
pub open spec fn fit(row: AttachmentRow, a: NewAttachment) -> Option<int> {
    let part = crate::text::opt_str(a.part_id);
    let cid = crate::text::opt_str(a.content_id);
    let name = crate::text::opt_str(a.filename);
    let mime = crate::text::opt_str(a.mime_type);
    if part is Some && opt_text(row.part_id) == part {
        Some(0)
    } else if cid is Some && opt_text(row.content_id) == cid {
        Some(1)
    } else if name is Some && opt_text(row.filename) == name && (mime is None || opt_text(
        row.mime_type,
    ) == mime) {
        Some(2)
    } else if name is None && cid is None && row.filename is None && row.content_id is None
        && opt_text(row.mime_type) == mime && row.size == a.size {
        Some(3)
    } else {
        None
    }
}

fn fit_of(row: &AttachmentRow, a: &NewAttachment) -> (r: Option<u8>)
    ensures
        match r {
            Some(s) => fit(*row, *a) == Some(s as int),
            None => fit(*row, *a) is None,
        },
{
    if a.part_id.is_some() && same_text(&row.part_id, a.part_id) {
        Some(0)
    } else if a.content_id.is_some() && same_text(&row.content_id, a.content_id) {
        Some(1)
    } else if a.filename.is_some() && same_text(&row.filename, a.filename) && (
    a.mime_type.is_none() || same_text(&row.mime_type, a.mime_type)) {
        Some(2)
    } else {
        let same_size: bool = match (row.size, a.size) {
            (Some(x), Some(y)) => x == y,
            (None, None) => true,
            _ => false,
        };
        if a.filename.is_none() && a.content_id.is_none() && row.filename.is_none()
            && row.content_id.is_none() && same_text(&row.mime_type, a.mime_type) && same_size {
            Some(3)
        } else {
            None
        }
    }
}

/// What makes a row fit an attachment: the same part, else the same content id,
/// else the same name with no other type, else that neither has a name or a content
/// id and type and size are the same. What comes first in this list fits better.
pub proof fn rows_fit_by_what_does_not_change(row: AttachmentRow, other: AttachmentRow, a: NewAttachment)
    ensures
        fit(row, a) is Some <==> ((a.part_id is Some && opt_text(row.part_id)
            == crate::text::opt_str(a.part_id)) || (a.content_id is Some && opt_text(row.content_id)
            == crate::text::opt_str(a.content_id)) || (a.filename is Some && opt_text(row.filename)
            == crate::text::opt_str(a.filename) && (a.mime_type is None || opt_text(row.mime_type)
            == crate::text::opt_str(a.mime_type))) || (a.filename is None && a.content_id is None
            && row.filename is None && row.content_id is None && opt_text(row.mime_type)
            == crate::text::opt_str(a.mime_type) && row.size == a.size)),
        a.part_id is Some && opt_text(row.part_id) == crate::text::opt_str(a.part_id) && opt_text(
            other.part_id,
        ) != crate::text::opt_str(a.part_id) && fit(other, a) is Some ==> fit(row, a)->0 < fit(
            other,
            a,
        )->0,
        a.content_id is Some && opt_text(row.content_id) == crate::text::opt_str(a.content_id)
            && opt_text(other.content_id) != crate::text::opt_str(a.content_id) && fit(other, a)
            is Some && (a.part_id is Some ==> opt_text(other.part_id) != crate::text::opt_str(
            a.part_id,
        )) ==> fit(row, a)->0 < fit(other, a)->0,
        a.filename is Some && opt_text(row.filename) == crate::text::opt_str(a.filename) && (
        a.mime_type is None || opt_text(row.mime_type) == crate::text::opt_str(a.mime_type)) && fit(
            other,
            a,
        ) == Some(3int) ==> fit(row, a)->0 < 3,
{
}

/// A row is taken by one of the earlier attachments.
pub open spec fn taken(matched: Seq<Option<usize>>, i: int) -> bool {
    exists|k: int| 0 <= k < matched.len() && #[trigger] matched[k] == Some(i as usize)
}

/// The row at `i` is the best one for the attachment: it is free, it fits, and
/// no free row fits better; of equally good rows it is the first.
pub open spec fn is_best(
    rows: Seq<AttachmentRow>,
    matched: Seq<Option<usize>>,
    a: NewAttachment,
    i: int,
) -> bool {
    &&& 0 <= i < rows.len()
    &&& !taken(matched, i)
    &&& fit(rows[i], a) is Some
    &&& forall|j: int|
        0 <= j < rows.len() && !taken(matched, j) && fit(#[trigger] rows[j], a) is Some ==> fit(
            rows[i],
            a,
        )->0 < fit(rows[j], a)->0 || (fit(rows[i], a)->0 == fit(rows[j], a)->0 && i <= j)
}

/// No free row fits the attachment.
pub open spec fn none_fits(
    rows: Seq<AttachmentRow>,
    matched: Seq<Option<usize>>,
    a: NewAttachment,
) -> bool {
    forall|j: int|
        0 <= j < rows.len() && !taken(matched, j) ==> fit(#[trigger] rows[j], a) is None
}

/// Each attachment is matched with the best row that earlier ones have left,
/// or with none where none fits.
pub open spec fn is_matching(
    rows: Seq<AttachmentRow>,
    atts: Seq<NewAttachment>,
    matched: Seq<Option<usize>>,
) -> bool {
    &&& matched.len() <= atts.len()
    &&& forall|k: int|
        0 <= k < matched.len() ==> match #[trigger] matched[k] {
            Some(i) => is_best(rows, matched.take(k), atts[k], i as int),
            None => none_fits(rows, matched.take(k), atts[k]),
        }
}

/// An attachment takes a row that no earlier one has taken and that fits it; no
/// other such row fits better, and of those that fit as well it takes the first. It
/// takes none only where no such row fits.
pub proof fn the_best_free_row_is_taken(
    rows: Seq<AttachmentRow>,
    atts: Seq<NewAttachment>,
    matched: Seq<Option<usize>>,
    k: int,
    j: int,
)
    requires
        is_matching(rows, atts, matched),
        0 <= k < matched.len(),
        0 <= j < rows.len(),
        rows.len() <= usize::MAX,
        forall|l: int| 0 <= l < k ==> #[trigger] matched[l] != Some(j as usize),
        fit(rows[j], atts[k]) is Some,
    ensures
        matched[k] is Some,
        matched[k]->0 < rows.len(),
        fit(rows[matched[k]->0 as int], atts[k]) is Some,
        fit(rows[matched[k]->0 as int], atts[k])->0 <= fit(rows[j], atts[k])->0,
        fit(rows[matched[k]->0 as int], atts[k])->0 == fit(rows[j], atts[k])->0 ==> matched[k]->0
            <= j,
        forall|l: int| 0 <= l < k ==> #[trigger] matched[l] != matched[k],
{
    let earlier = matched.take(k);
    assert(!taken(earlier, j)) by {
        assert(forall|l: int| 0 <= l < k ==> #[trigger] earlier[l] == matched[l]);
    }
    match matched[k] {
        Some(i) => {
            assert(is_best(rows, earlier, atts[k], i as int));
            assert forall|l: int| 0 <= l < k implies #[trigger] matched[l] != matched[k] by {
                if matched[l] == matched[k] {
                    assert(earlier[l] == Some(i as int as usize));
                }
            }
        },
        None => {
            assert(none_fits(rows, earlier, atts[k]));
        },
    }
}

/// The row goes: nothing matched it, and nothing would be lost with it.
pub open spec fn is_stale(row: AttachmentRow) -> bool {
    row.file_path is None && row.imap_section is None
}

/// How a full parse changes the attachment rows: for each attachment the row
/// that it updates (or that it becomes a new one), and the rows to delete.
#[derive(Debug)]
pub struct Replacement {
    pub matched: Vec<Option<usize>>,
    pub deleted: Vec<i64>,
}

/// The ids of the rows among the first `n` that go.
pub open spec fn stale_ids(
    rows: Seq<AttachmentRow>,
    matched: Seq<Option<usize>>,
    n: int,
) -> Seq<i64>
    decreases n,
{
    if n <= 0 {
        Seq::empty()
    } else {
        let rest = stale_ids(rows, matched, n - 1);
        if !taken(matched, n - 1) && is_stale(rows[n - 1]) {
            rest.push(rows[n - 1].id)
        } else {
            rest
        }
    }
}

/// The attachment that took a row.
fn taker_of(matched: &Vec<Option<usize>>, i: usize) -> (r: Option<usize>)
    ensures
        r is Some == taken(matched@, i as int),
        r matches Some(k) ==> k < matched@.len() && matched@[k as int] == Some(i),
{
    let mut k: usize = 0;
    while k < matched.len()
        invariant
            k <= matched@.len(),
            forall|j: int| 0 <= j < k ==> #[trigger] matched@[j] != Some(i),
        decreases matched@.len() - k,
    {
        if let Some(m) = matched[k] {
            if m == i {
                proof {
                    assert(matched@[k as int] == Some(i));
                }
                return Some(k);
            }
        }
        k = k + 1;
    }
    None
}

fn best_row(rows: &Vec<AttachmentRow>, matched: &Vec<Option<usize>>, a: &NewAttachment) -> (r:
    Option<usize>)
    ensures
        match r {
            Some(i) => is_best(rows@, matched@, *a, i as int),
            None => none_fits(rows@, matched@, *a),
        },
{
    let mut best: Option<(usize, u8)> = None;
    let mut i: usize = 0;
    while i < rows.len()
        invariant
            i <= rows@.len(),
            match best {
                Some((b, s)) => b < i && !taken(matched@, b as int) && fit(rows@[b as int], *a)
                    == Some(s as int) && forall|j: int|
                    0 <= j < i && !taken(matched@, j) && fit(#[trigger] rows@[j], *a) is Some
                        ==> s < fit(rows@[j], *a)->0 || (s == fit(rows@[j], *a)->0 && b <= j),
                None => forall|j: int|
                    0 <= j < i && !taken(matched@, j) ==> fit(#[trigger] rows@[j], *a) is None,
            },
        decreases rows@.len() - i,
    {
        if taker_of(matched, i).is_none() {
            if let Some(s) = fit_of(&rows[i], a) {
                best = match best {
                    Some((b, t)) => if s < t {
                        Some((i, s))
                    } else {
                        Some((b, t))
                    },
                    None => Some((i, s)),
                };
            }
        }
        i = i + 1;
    }
    match best {
        Some((b, _)) => Some(b),
        None => None,
    }
}

/// Match the attachments of a full parse with the rows that are there, ordered
/// by id: which row each of them updates, and which rows go.
pub fn plan_replacement(rows: &Vec<AttachmentRow>, atts: &[NewAttachment]) -> (r: Replacement)
    ensures
        r.matched@.len() == atts@.len(),
        is_matching(rows@, atts@, r.matched@),
        r.deleted@ == stale_ids(rows@, r.matched@, rows@.len() as int),
{
    let mut matched: Vec<Option<usize>> = Vec::new();
    let mut k: usize = 0;
    while k < atts.len()
        invariant
            k <= atts@.len(),
            matched@.len() == k,
            is_matching(rows@, atts@, matched@),
        decreases atts@.len() - k,
    {
        let ghost before = matched@;
        let best: Option<usize> = best_row(rows, &matched, &atts[k]);
        matched.push(best);
        proof {
            assert forall|j: int| 0 <= j < matched@.len() implies match #[trigger] matched@[j] {
                Some(i) => is_best(rows@, matched@.take(j), atts@[j], i as int),
                None => none_fits(rows@, matched@.take(j), atts@[j]),
            } by {
                if j < before.len() {
                    assert(matched@[j] == before[j]);
                    assert(matched@.take(j) =~= before.take(j));
                } else {
                    assert(matched@.take(j) =~= before);
                }
            }
        }
        k = k + 1;
    }
    let mut deleted: Vec<i64> = Vec::new();
    let mut i: usize = 0;
    while i < rows.len()
        invariant
            i <= rows@.len(),
            deleted@ == stale_ids(rows@, matched@, i as int),
        decreases rows@.len() - i,
    {
        if taker_of(&matched, i).is_none() && rows[i].file_path.is_none() && rows[i].imap_section.is_none() {
            deleted.push(rows[i].id);
        }
        i = i + 1;
    }
    Replacement { matched, deleted }
}

/// The row says of the attachment what the full parse found.
pub open spec fn says(row: AttachmentRow, a: NewAttachment) -> bool {
    &&& opt_text(row.part_id) == crate::text::opt_str(a.part_id)
    &&& opt_text(row.filename) == crate::text::opt_str(a.filename)
    &&& opt_text(row.mime_type) == crate::text::opt_str(a.mime_type)
    &&& row.size == a.size
    &&& opt_text(row.content_id) == crate::text::opt_str(a.content_id)
    &&& row.is_inline == a.is_inline
}

/// The row is still the one that it was: its id, its downloaded file and its
/// section stay.
pub open spec fn keeps(before: AttachmentRow, after: AttachmentRow) -> bool {
    &&& after.id == before.id
    &&& after.file_path == before.file_path
    &&& after.imap_section == before.imap_section
}

/// The row at `i` stays: an attachment matched it, or something would be lost
/// with it.
pub open spec fn stays(rows: Seq<AttachmentRow>, matched: Seq<Option<usize>>) -> spec_fn(
    int,
) -> bool {
    |i: int| taken(matched, i) || !is_stale(rows[i])
}

/// The attachment at `k` has no row yet.
pub open spec fn is_newcomer(matched: Seq<Option<usize>>) -> spec_fn(int) -> bool {
    |k: int| matched[k] is None
}

/// What becomes of a row that stays: one that an attachment matched says what
/// the attachment says; any other is left alone.
pub open spec fn is_kept(
    before: AttachmentRow,
    i: int,
    atts: Seq<NewAttachment>,
    matched: Seq<Option<usize>>,
    after: AttachmentRow,
) -> bool {
    if taken(matched, i) {
        keeps(before, after) && exists|k: int|
            0 <= k < matched.len() && #[trigger] matched[k] == Some(i as usize) && says(
                after,
                atts[k],
            )
    } else {
        after == before
    }
}

/// A new row for an attachment: neither downloaded nor in a section.
pub open spec fn is_new_row(id: int, a: NewAttachment, row: AttachmentRow) -> bool {
    row.id == id && says(row, a) && row.file_path is None && row.imap_section is None
}

/// The rows after the attachments were taken in: those that stay, in their
/// order, then one for each attachment that matched none, in theirs.
pub open spec fn is_replaced(
    before: Seq<AttachmentRow>,
    atts: Seq<NewAttachment>,
    matched: Seq<Option<usize>>,
    first_new_id: int,
    after: Seq<AttachmentRow>,
) -> bool {
    let kept = picked(stays(before, matched), before.len() as int);
    let new = picked(is_newcomer(matched), matched.len() as int);
    &&& after.len() == kept.len() + new.len()
    &&& forall|j: int|
        0 <= j < kept.len() ==> is_kept(
            before[kept[j]],
            kept[j],
            atts,
            matched,
            #[trigger] after[j],
        )
    &&& forall|j: int|
        0 <= j < new.len() ==> is_new_row(
            first_new_id + #[trigger] new[j],
            atts[new[j]],
            after[kept.len() + j],
        )
}

fn copy_row(row: &AttachmentRow) -> (r: AttachmentRow)
    ensures
        r == *row,
{
    AttachmentRow {
        id: row.id,
        part_id: clone_opt(&row.part_id),
        filename: clone_opt(&row.filename),
        mime_type: clone_opt(&row.mime_type),
        size: row.size,
        content_id: clone_opt(&row.content_id),
        is_inline: row.is_inline,
        imap_section: clone_opt(&row.imap_section),
        file_path: clone_opt(&row.file_path),
    }
}

fn owned_opt(o: Option<&str>) -> (r: Option<String>)
    ensures
        opt_text(r) == crate::text::opt_str(o),
{
    match o {
        Some(s) => Some(owned(s)),
        None => None,
    }
}

/// The row of an attachment, under an id and with what the row had on disk and
/// on the server.
fn row_of(
    a: &NewAttachment,
    id: i64,
    imap_section: Option<String>,
    file_path: Option<String>,
) -> (r: AttachmentRow)
    ensures
        says(r, *a),
        r.id == id,
        r.imap_section == imap_section,
        r.file_path == file_path,
{
    AttachmentRow {
        id,
        part_id: owned_opt(a.part_id),
        filename: owned_opt(a.filename),
        mime_type: owned_opt(a.mime_type),
        size: a.size,
        content_id: owned_opt(a.content_id),
        is_inline: a.is_inline,
        imap_section,
        file_path,
    }
}

/// Replaces the attachments of a message by those of a full parse, so an
/// explicit-open fallback does not destroy planned row IDs or an attachment
/// file already cached on disk. An attachment that matches a row updates it;
/// any other gets a new row, the attachment `k` with the id `first_new_id + k`.
/// Stale, uncached descriptors that nothing matches are removed; planned IMAP
/// rows and downloaded files are retained if a quirky full parser cannot match
/// them, since losing either would break stable UI IDs/offline use. `rows` are
/// ordered by id.
pub fn replace_attachments(
    rows: &mut Vec<AttachmentRow>,
    atts: &[NewAttachment],
    first_new_id: i64,
) -> (r: Replacement)
    requires
        0 <= first_new_id,
        first_new_id + atts@.len() <= i64::MAX,
    ensures
        r.matched@.len() == atts@.len(),
        is_matching(old(rows)@, atts@, r.matched@),
        r.deleted@ == stale_ids(old(rows)@, r.matched@, old(rows)@.len() as int),
        is_replaced(old(rows)@, atts@, r.matched@, first_new_id as int, final(rows)@),
{
    let plan: Replacement = plan_replacement(rows, atts);
    let mut out: Vec<AttachmentRow> = Vec::new();
    let ghost stay = stays(rows@, plan.matched@);
    let ghost fresh = is_newcomer(plan.matched@);
    let mut i: usize = 0;
    while i < rows.len()
        invariant
            i <= rows@.len(),
            plan.matched@.len() == atts@.len(),
            stay == stays(rows@, plan.matched@),
            out@.len() == picked(stay, i as int).len(),
            forall|j: int|
                0 <= j < out@.len() ==> is_kept(
                    rows@[picked(stay, i as int)[j]],
                    picked(stay, i as int)[j],
                    atts@,
                    plan.matched@,
                    #[trigger] out@[j],
                ),
        decreases rows@.len() - i,
    {
        let ghost had = out@;
        let row: &AttachmentRow = &rows[i];
        match taker_of(&plan.matched, i) {
            Some(k) => {
                out.push(
                    row_of(&atts[k], row.id, clone_opt(&row.imap_section), clone_opt(&row.file_path)),
                );
            },
            None => {
                if row.file_path.is_some() || row.imap_section.is_some() {
                    out.push(copy_row(row));
                }
            },
        }
        proof {
            let was = picked(stay, i as int);
            let now = picked(stay, i + 1);
            assert(stay(i as int) == (taken(plan.matched@, i as int) || !is_stale(*row)));
            assert forall|j: int| 0 <= j < out@.len() implies is_kept(
                rows@[now[j]],
                now[j],
                atts@,
                plan.matched@,
                #[trigger] out@[j],
            ) by {
                if j < had.len() {
                    assert(out@[j] == had[j]);
                    assert(now[j] == was[j]);
                }
            }
        }
        i = i + 1;
    }
    let ghost kept = picked(stay, rows@.len() as int);
    let mut k: usize = 0;
    while k < atts.len()
        invariant
            k <= atts@.len(),
            0 <= first_new_id,
            first_new_id + atts@.len() <= i64::MAX,
            plan.matched@.len() == atts@.len(),
            fresh == is_newcomer(plan.matched@),
            out@.len() == kept.len() + picked(fresh, k as int).len(),
            forall|j: int|
                0 <= j < kept.len() ==> is_kept(
                    rows@[kept[j]],
                    kept[j],
                    atts@,
                    plan.matched@,
                    #[trigger] out@[j],
                ),
            forall|j: int|
                0 <= j < picked(fresh, k as int).len() ==> is_new_row(
                    first_new_id + #[trigger] picked(fresh, k as int)[j],
                    atts@[picked(fresh, k as int)[j]],
                    out@[kept.len() + j],
                ),
        decreases atts@.len() - k,
    {
        let ghost had = out@;
        if plan.matched[k].is_none() {
            out.push(row_of(&atts[k], first_new_id + k as i64, None, None));
        }
        proof {
            let was = picked(fresh, k as int);
            let now = picked(fresh, k + 1);
            assert(fresh(k as int) == (plan.matched@[k as int] is None));
            assert forall|j: int| 0 <= j < kept.len() implies is_kept(
                rows@[kept[j]],
                kept[j],
                atts@,
                plan.matched@,
                #[trigger] out@[j],
            ) by {
                assert(out@[j] == had[j]);
            }
            assert forall|j: int| 0 <= j < now.len() implies is_new_row(
                first_new_id + #[trigger] now[j],
                atts@[now[j]],
                out@[kept.len() + j],
            ) by {
                if j < was.len() {
                    assert(now[j] == was[j]);
                    assert(out@[kept.len() + j] == had[kept.len() + j]);
                }
            }
        }
        k = k + 1;
    }
    *rows = out;
    plan
}

/// Where the row of an attachment stands after a replacement.
pub open spec fn place_of(rows: Seq<AttachmentRow>, matched: Seq<Option<usize>>, k: int) -> int {
    let kept = picked(stays(rows, matched), rows.len() as int);
    match matched[k] {
        Some(i) => kept.index_of(i as int),
        None => kept.len() + picked(is_newcomer(matched), matched.len() as int).index_of(k),
    }
}

proof fn lemma_place(
    before: Seq<AttachmentRow>,
    atts: Seq<NewAttachment>,
    matched: Seq<Option<usize>>,
    first_new_id: int,
    after: Seq<AttachmentRow>,
    k: int,
)
    requires
        matched.len() == atts.len(),
        is_matching(before, atts, matched),
        is_replaced(before, atts, matched, first_new_id, after),
        0 <= k < atts.len(),
    ensures
        0 <= place_of(before, matched, k) < after.len(),
        says(after[place_of(before, matched, k)], atts[k]),
        matched[k] is Some ==> place_of(before, matched, k) < picked(
            stays(before, matched),
            before.len() as int,
        ).len() && picked(stays(before, matched), before.len() as int)[place_of(
            before,
            matched,
            k,
        )] == matched[k]->0,
        matched[k] is None ==> place_of(before, matched, k) >= picked(
            stays(before, matched),
            before.len() as int,
        ).len() && picked(is_newcomer(matched), matched.len() as int)[place_of(before, matched, k)
            - picked(stays(before, matched), before.len() as int).len()] == k,
{
    let stay = stays(before, matched);
    let fresh = is_newcomer(matched);
    let kept = picked(stay, before.len() as int);
    let new = picked(fresh, matched.len() as int);
    lemma_picked(stay, before.len() as int);
    lemma_picked(fresh, matched.len() as int);
    match matched[k] {
        Some(i) => {
            assert(is_best(before, matched.take(k), atts[k], i as int));
            assert(taken(matched, i as int));
            assert(stay(i as int));
            assert(kept.contains(i as int));
            let j = kept.index_of(i as int);
            assert(kept[j] == i);
            assert(is_kept(before[kept[j]], kept[j], atts, matched, after[j]));
            let k2 = choose|x: int|
                0 <= x < matched.len() && #[trigger] matched[x] == Some(i) && says(
                    after[j],
                    atts[x],
                );
            if k2 < k {
                lemma_taken_once(before, atts, matched, k2, k);
            } else if k < k2 {
                lemma_taken_once(before, atts, matched, k, k2);
            }
        },
        None => {
            assert(fresh(k));
            assert(new.contains(k));
            let j = new.index_of(k);
            assert(new[j] == k);
        },
    }
}

proof fn lemma_taken_once(
    rows: Seq<AttachmentRow>,
    atts: Seq<NewAttachment>,
    matched: Seq<Option<usize>>,
    x: int,
    y: int,
)
    requires
        is_matching(rows, atts, matched),
        0 <= x < y < matched.len(),
        matched[x] is Some,
    ensures
        matched[x] != matched[y],
{
    if matched[x] == matched[y] {
        let row = matched[x]->0;
        assert(matched.take(y)[x] == Some(row));
        assert(taken(matched.take(y), row as int));
        assert(is_best(rows, matched.take(y), atts[y], row as int));
    }
}

/// After a replacement each attachment has a row of its own that says what the
/// full parse found.
pub proof fn every_attachment_has_its_row(
    before: Seq<AttachmentRow>,
    atts: Seq<NewAttachment>,
    matched: Seq<Option<usize>>,
    first_new_id: int,
    after: Seq<AttachmentRow>,
)
    requires
        matched.len() == atts.len(),
        is_matching(before, atts, matched),
        is_replaced(before, atts, matched, first_new_id, after),
    ensures
        forall|k: int|
            0 <= k < atts.len() ==> 0 <= #[trigger] place_of(before, matched, k) < after.len()
                && says(after[place_of(before, matched, k)], atts[k]),
        forall|x: int, y: int|
            0 <= x < y < atts.len() ==> #[trigger] place_of(before, matched, x)
                != #[trigger] place_of(before, matched, y),
{
    assert forall|k: int| 0 <= k < atts.len() implies 0 <= #[trigger] place_of(before, matched, k)
        < after.len() && says(after[place_of(before, matched, k)], atts[k]) by {
        lemma_place(before, atts, matched, first_new_id, after, k);
    }
    assert forall|x: int, y: int| 0 <= x < y < atts.len() implies #[trigger] place_of(
        before,
        matched,
        x,
    ) != #[trigger] place_of(before, matched, y) by {
        lemma_place(before, atts, matched, first_new_id, after, x);
        lemma_place(before, atts, matched, first_new_id, after, y);
        if matched[x] is Some {
            lemma_taken_once(before, atts, matched, x, y);
        }
    }
}

/// A replacement keeps what cannot be had again: a row with a downloaded file
/// or an IMAP section is still there under its id, with both. A row with
/// neither is there only where an attachment matched it.
pub proof fn replacing_keeps_ids_and_files(
    before: Seq<AttachmentRow>,
    atts: Seq<NewAttachment>,
    matched: Seq<Option<usize>>,
    first_new_id: int,
    after: Seq<AttachmentRow>,
    i: int,
)
    requires
        matched.len() == atts.len(),
        is_matching(before, atts, matched),
        is_replaced(before, atts, matched, first_new_id, after),
        0 <= i < before.len(),
        forall|p: int, q: int|
            #![trigger before[p], before[q]]
            0 <= p < q < before.len() ==> before[p].id != before[q].id,
        forall|p: int| 0 <= p < before.len() ==> (#[trigger] before[p]).id < first_new_id,
    ensures
        before[i].file_path is Some || before[i].imap_section is Some ==> exists|j: int|
            0 <= j < after.len() && keeps(before[i], #[trigger] after[j]),
        (exists|j: int| 0 <= j < after.len() && (#[trigger] after[j]).id == before[i].id) <==> !(
        is_stale(before[i]) && !taken(matched, i)),
        stale_ids(before, matched, before.len() as int).contains(before[i].id) <==> is_stale(
            before[i],
        ) && !taken(matched, i),
{
    let stay = stays(before, matched);
    let fresh = is_newcomer(matched);
    let kept = picked(stay, before.len() as int);
    let new = picked(fresh, matched.len() as int);
    lemma_picked(stay, before.len() as int);
    lemma_picked(fresh, matched.len() as int);
    assert(stay(i) == (taken(matched, i) || !is_stale(before[i])));
    if stay(i) {
        let j = kept.index_of(i);
        assert(kept[j] == i);
        assert(is_kept(before[kept[j]], kept[j], atts, matched, after[j]));
        assert(keeps(before[i], after[j]));
    }
    if exists|j: int| 0 <= j < after.len() && (#[trigger] after[j]).id == before[i].id {
        let j = choose|j: int| 0 <= j < after.len() && (#[trigger] after[j]).id == before[i].id;
        if j < kept.len() {
            assert(is_kept(before[kept[j]], kept[j], atts, matched, after[j]));
            assert(after[j].id == before[kept[j]].id);
            if kept[j] < i {
                assert(before[kept[j]].id != before[i].id);
            } else if i < kept[j] {
                assert(before[i].id != before[kept[j]].id);
            }
            assert(stay(kept[j]));
        } else {
            let x = j - kept.len();
            assert(is_new_row(first_new_id + new[x], atts[new[x]], after[kept.len() + x]));
        }
    }
    if stay(i) {
        lemma_stale(before, matched, i, before.len() as int);
    } else {
        lemma_deleted(before, matched, i, before.len() as int);
    }
}

proof fn lemma_deleted(rows: Seq<AttachmentRow>, matched: Seq<Option<usize>>, i: int, n: int)
    requires
        0 <= i < n <= rows.len(),
        is_stale(rows[i]),
        !taken(matched, i),
    ensures
        stale_ids(rows, matched, n).contains(rows[i].id),
    decreases n,
{
    let rest = stale_ids(rows, matched, n - 1);
    let now = stale_ids(rows, matched, n);
    if i < n - 1 {
        lemma_deleted(rows, matched, i, n - 1);
        let k = choose|k: int| 0 <= k < rest.len() && rest[k] == rows[i].id;
        assert(now[k] == rows[i].id);
    } else {
        assert(now[rest.len() as int] == rows[i].id);
    }
}

proof fn lemma_stale(rows: Seq<AttachmentRow>, matched: Seq<Option<usize>>, i: int, n: int)
    requires
        0 <= i < rows.len(),
        0 <= n <= rows.len(),
        forall|p: int, q: int|
            #![trigger rows[p], rows[q]]
            0 <= p < q < rows.len() ==> rows[p].id != rows[q].id,
        rows[i].file_path is Some || rows[i].imap_section is Some || taken(matched, i),
    ensures
        !stale_ids(rows, matched, n).contains(rows[i].id),
    decreases n,
{
    if n > 0 {
        lemma_stale(rows, matched, i, n - 1);
        let rest = stale_ids(rows, matched, n - 1);
        let now = stale_ids(rows, matched, n);
        if now.contains(rows[i].id) {
            let k = choose|k: int| 0 <= k < now.len() && now[k] == rows[i].id;
            if k < rest.len() {
                assert(rest[k] == rows[i].id);
            } else {
                if i < n - 1 {
                    assert(rows[i].id != rows[n - 1].id);
                } else if n - 1 < i {
                    assert(rows[n - 1].id != rows[i].id);
                }
            }
        }
    }
}

// ---------------------------------------------------------------------------
// Refreshing from BODYSTRUCTURE
// ---------------------------------------------------------------------------

/// The row is the one of the section.
pub open spec fn has_section(row: AttachmentRow, section: Seq<char>) -> bool {
    opt_text(row.imap_section) == Some(section)
}

/// A row without a section can be adopted by its Content-ID.
pub open spec fn adoptable_by_cid(row: AttachmentRow, p: PlannedAttachment) -> bool {
    row.imap_section is None && p.content_id is Some && opt_text(row.content_id) == opt_text(
        p.content_id,
    )
}

/// A row without a section can be adopted by its filename and MIME type.
pub open spec fn adoptable_by_name(row: AttachmentRow, p: PlannedAttachment) -> bool {
    row.imap_section is None && p.filename is Some && opt_text(row.filename) == opt_text(p.filename)
        && (row.mime_type is None || opt_text(row.mime_type) == Some(p.mime_type@))
}

/// Which of the rules finds the row of a planned attachment.
#[derive(Debug, Clone, Copy, PartialEq, Eq, Structural)]
pub enum Adoption {
    BySection,
    ByContentId,
    ByName,
}

pub open spec fn adopts(rule: Adoption, row: AttachmentRow, p: PlannedAttachment) -> bool {
    match rule {
        Adoption::BySection => has_section(row, p.section@),
        Adoption::ByContentId => adoptable_by_cid(row, p),
        Adoption::ByName => adoptable_by_name(row, p),
    }
}

/// The row that a rule finds: for adoption, one with a downloaded file before
/// one without; else the first.
pub open spec fn is_found(
    rule: Adoption,
    rows: Seq<AttachmentRow>,
    p: PlannedAttachment,
    i: int,
) -> bool {
    &&& 0 <= i < rows.len()
    &&& adopts(rule, rows[i], p)
    &&& forall|j: int|
        0 <= j < i ==> !(adopts(rule, #[trigger] rows[j], p) && (rule is BySection
            || rows[j].file_path is Some || rows[i].file_path is None))
    &&& rule !is BySection && rows[i].file_path is None ==> forall|j: int|
        0 <= j < rows.len() ==> !(adopts(rule, #[trigger] rows[j], p) && rows[j].file_path is Some)
}

pub open spec fn finds_none(rule: Adoption, rows: Seq<AttachmentRow>, p: PlannedAttachment) -> bool {
    forall|j: int| 0 <= j < rows.len() ==> !adopts(rule, #[trigger] rows[j], p)
}

/// The row of a planned attachment: by section; where no row has it, by
/// Content-ID; where none has that either, by name.
pub open spec fn is_home(rows: Seq<AttachmentRow>, p: PlannedAttachment, home: Option<usize>) -> bool {
    match home {
        Some(i) => {
            ||| is_found(Adoption::BySection, rows, p, i as int)
            ||| finds_none(Adoption::BySection, rows, p) && is_found(
                Adoption::ByContentId,
                rows,
                p,
                i as int,
            )
            ||| finds_none(Adoption::BySection, rows, p) && finds_none(
                Adoption::ByContentId,
                rows,
                p,
            ) && is_found(Adoption::ByName, rows, p, i as int)
        },
        None => finds_none(Adoption::BySection, rows, p) && finds_none(
            Adoption::ByContentId,
            rows,
            p,
        ) && finds_none(Adoption::ByName, rows, p),
    }
}

/// The row after it took in what BODYSTRUCTURE says. What BODYSTRUCTURE leaves
/// open stays, and so do the row's id, its part and its downloaded file.
pub open spec fn is_refreshed(
    before: AttachmentRow,
    p: PlannedAttachment,
    after: AttachmentRow,
) -> bool {
    &&& after.id == before.id
    &&& after.part_id == before.part_id
    &&& after.file_path == before.file_path
    &&& opt_text(after.imap_section) == Some(p.section@)
    &&& opt_text(after.filename) == (if p.filename is Some {
        opt_text(p.filename)
    } else {
        opt_text(before.filename)
    })
    &&& opt_text(after.mime_type) == Some(p.mime_type@)
    &&& after.size == Some(p.size as i64)
    &&& opt_text(after.content_id) == (if p.content_id is Some {
        opt_text(p.content_id)
    } else {
        opt_text(before.content_id)
    })
    &&& after.is_inline == p.is_inline
}

/// A planned attachment takes the row of its own section; where there is none it
/// adopts one without a section that has its content id, else its name. The row of
/// another section is never taken. Afterwards the row says what BODYSTRUCTURE says.
pub proof fn sections_keep_their_own_rows(
    rows: Seq<AttachmentRow>,
    p: PlannedAttachment,
    home: Option<usize>,
    after: AttachmentRow,
)
    requires
        is_home(rows, p, home),
        home matches Some(i) ==> is_refreshed(rows[i as int], p, after),
    ensures
        home matches Some(i) ==> i < rows.len() && (rows[i as int].imap_section is None || opt_text(
            rows[i as int].imap_section,
        ) == Some(p.section@)),
        (exists|j: int|
            0 <= j < rows.len() && opt_text((#[trigger] rows[j]).imap_section) == Some(p.section@))
            ==> home is Some && opt_text(rows[home->0 as int].imap_section) == Some(p.section@),
        home is None ==> forall|j: int|
            0 <= j < rows.len() && (#[trigger] rows[j]).imap_section is None ==> (p.content_id
                is Some ==> opt_text(rows[j].content_id) != opt_text(p.content_id)) && (p.filename
                is Some && rows[j].mime_type is None ==> opt_text(rows[j].filename) != opt_text(
                p.filename,
            )),
        home is Some ==> opt_text(after.imap_section) == Some(p.section@) && opt_text(
            after.mime_type,
        ) == Some(p.mime_type@) && after.size == Some(p.size as i64) && after.is_inline
            == p.is_inline && (p.filename is Some ==> opt_text(after.filename) == opt_text(
            p.filename,
        )) && (p.filename is None ==> opt_text(after.filename) == opt_text(
            rows[home->0 as int].filename,
        )),
{
    if exists|j: int|
        0 <= j < rows.len() && opt_text((#[trigger] rows[j]).imap_section) == Some(p.section@) {
        let j = choose|j: int|
            0 <= j < rows.len() && opt_text((#[trigger] rows[j]).imap_section) == Some(p.section@);
        assert(adopts(Adoption::BySection, rows[j], p));
    }
    if home is None {
        assert forall|j: int| 0 <= j < rows.len() && (#[trigger] rows[j]).imap_section is None implies (
        p.content_id is Some ==> opt_text(rows[j].content_id) != opt_text(p.content_id)) && (
        p.filename is Some && rows[j].mime_type is None ==> opt_text(rows[j].filename) != opt_text(
            p.filename,
        )) by {
            assert(!adopts(Adoption::ByContentId, rows[j], p));
            assert(!adopts(Adoption::ByName, rows[j], p));
        }
    }
}

/// A planned attachment without a row of its section adopts a row without a section
/// that has its content id, and a downloaded one before any other; where no row has
/// that, one that has its name and type, in the same way.
pub proof fn downloaded_rows_are_adopted_first(
    rows: Seq<AttachmentRow>,
    p: PlannedAttachment,
    home: Option<usize>,
    j: int,
)
    requires
        is_home(rows, p, home),
        forall|x: int|
            0 <= x < rows.len() ==> opt_text((#[trigger] rows[x]).imap_section) != Some(p.section@),
        0 <= j < rows.len(),
        rows[j].imap_section is None,
    ensures
        p.content_id is Some && opt_text(rows[j].content_id) == opt_text(p.content_id) ==> {
            &&& home is Some
            &&& rows[home->0 as int].imap_section is None
            &&& opt_text(rows[home->0 as int].content_id) == opt_text(p.content_id)
            &&& rows[j].file_path is Some ==> rows[home->0 as int].file_path is Some
        },
        (forall|x: int|
            0 <= x < rows.len() && p.content_id is Some ==> opt_text(
                (#[trigger] rows[x]).content_id,
            ) != opt_text(p.content_id)) && p.filename is Some && opt_text(rows[j].filename)
            == opt_text(p.filename) && (rows[j].mime_type is None || opt_text(rows[j].mime_type)
            == Some(p.mime_type@)) ==> {
            &&& home is Some
            &&& rows[home->0 as int].imap_section is None
            &&& opt_text(rows[home->0 as int].filename) == opt_text(p.filename)
            &&& rows[j].file_path is Some ==> rows[home->0 as int].file_path is Some
        },
{
    assert(finds_none(Adoption::BySection, rows, p));
    if p.content_id is Some && opt_text(rows[j].content_id) == opt_text(p.content_id) {
        assert(adopts(Adoption::ByContentId, rows[j], p));
    } else if (forall|x: int|
        0 <= x < rows.len() && p.content_id is Some ==> opt_text((#[trigger] rows[x]).content_id)
            != opt_text(p.content_id)) && p.filename is Some && opt_text(rows[j].filename)
        == opt_text(p.filename) && (rows[j].mime_type is None || opt_text(rows[j].mime_type)
        == Some(p.mime_type@)) {
        assert(finds_none(Adoption::ByContentId, rows, p));
        assert(adopts(Adoption::ByName, rows[j], p));
    }
}

/// A new row for a planned attachment.
pub open spec fn is_fresh_row(id: i64, p: PlannedAttachment, row: AttachmentRow) -> bool {
    &&& row.id == id
    &&& row.part_id is None
    &&& row.file_path is None
    &&& opt_text(row.imap_section) == Some(p.section@)
    &&& opt_text(row.filename) == opt_text(p.filename)
    &&& opt_text(row.mime_type) == Some(p.mime_type@)
    &&& row.size == Some(p.size as i64)
    &&& opt_text(row.content_id) == opt_text(p.content_id)
    &&& row.is_inline == p.is_inline
}

/// A planned attachment that finds no row gets a new one behind the others, which
/// says what BODYSTRUCTURE says and is not downloaded.
pub proof fn new_sections_get_a_new_row(
    before: Seq<AttachmentRow>,
    p: PlannedAttachment,
    new_id: i64,
    after: Seq<AttachmentRow>,
    id: i64,
)
    requires
        is_upserted(before, p, new_id, after, id),
        forall|j: int|
            0 <= j < before.len() ==> (#[trigger] before[j]).imap_section is Some && opt_text(
                before[j].imap_section,
            ) != Some(p.section@),
    ensures
        id == new_id,
        after.len() == before.len() + 1,
        forall|j: int| 0 <= j < before.len() ==> #[trigger] after[j] == before[j],
        after.last().id == new_id,
        after.last().file_path is None,
        opt_text(after.last().imap_section) == Some(p.section@),
        opt_text(after.last().filename) == opt_text(p.filename),
        opt_text(after.last().mime_type) == Some(p.mime_type@),
        opt_text(after.last().content_id) == opt_text(p.content_id),
        after.last().size == Some(p.size as i64),
        after.last().is_inline == p.is_inline,
{
    reveal(is_upserted);
    let home = choose|home: Option<usize>|
        is_home(before, p, home) && #[trigger] is_upserted_at(before, p, new_id, after, id, home);
    assert(home is None);
    assert forall|j: int| 0 <= j < before.len() implies #[trigger] after[j] == before[j] by {
        assert(after.drop_last()[j] == after[j]);
    }
}

/// What inserting or refreshing one planned attachment makes of the rows.
#[verifier::opaque]
pub open spec fn is_upserted(
    before: Seq<AttachmentRow>,
    p: PlannedAttachment,
    new_id: i64,
    after: Seq<AttachmentRow>,
    id: i64,
) -> bool {
    exists|home: Option<usize>|
        is_home(before, p, home) && #[trigger] is_upserted_at(before, p, new_id, after, id, home)
}

pub open spec fn is_upserted_at(
    before: Seq<AttachmentRow>,
    p: PlannedAttachment,
    new_id: i64,
    after: Seq<AttachmentRow>,
    id: i64,
    home: Option<usize>,
) -> bool {
    match home {
        Some(i) => {
            &&& i < before.len()
            &&& after.len() == before.len()
            &&& id == before[i as int].id
            &&& is_refreshed(before[i as int], p, after[i as int])
            &&& forall|j: int|
                0 <= j < before.len() && j != i ==> #[trigger] after[j] == before[j]
        },
        None => {
            &&& id == new_id
            &&& after.len() == before.len() + 1
            &&& is_fresh_row(new_id, p, after.last())
            &&& after.drop_last() == before
        },
    }
}

fn adopts_row(rule: Adoption, row: &AttachmentRow, p: &PlannedAttachment) -> (r: bool)
    ensures
        r == adopts(rule, *row, *p),
{
    match rule {
        Adoption::BySection => match &row.imap_section {
            Some(s) => s.as_str().eq(p.section.as_str()),
            None => false,
        },
        Adoption::ByContentId => row.imap_section.is_none() && p.content_id.is_some() && opt_eq(
            &row.content_id,
            &p.content_id,
        ),
        Adoption::ByName => {
            let mime_fits: bool = match &row.mime_type {
                Some(m) => m.as_str().eq(p.mime_type.as_str()),
                None => true,
            };
            row.imap_section.is_none() && p.filename.is_some() && opt_eq(
                &row.filename,
                &p.filename,
            ) && mime_fits
        },
    }
}

fn find_row(rule: Adoption, rows: &Vec<AttachmentRow>, p: &PlannedAttachment) -> (r: Option<usize>)
    ensures
        match r {
            Some(i) => is_found(rule, rows@, *p, i as int),
            None => finds_none(rule, rows@, *p),
        },
{
    let mut first: Option<usize> = None;
    let mut i: usize = 0;
    while i < rows.len()
        invariant
            i <= rows@.len(),
            match first {
                Some(f) => f < i && adopts(rule, rows@[f as int], *p) && rule !is BySection
                    && rows@[f as int].file_path is None && (forall|j: int|
                    0 <= j < f ==> !adopts(rule, #[trigger] rows@[j], *p)) && (forall|j: int|
                    0 <= j < i ==> !(adopts(rule, #[trigger] rows@[j], *p)
                        && rows@[j].file_path is Some)),
                None => forall|j: int| 0 <= j < i ==> !adopts(rule, #[trigger] rows@[j], *p),
            },
        decreases rows@.len() - i,
    {
        if adopts_row(rule, &rows[i], p) {
            if matches!(rule, Adoption::BySection) || rows[i].file_path.is_some() {
                return Some(i);
            }
            if first.is_none() {
                first = Some(i);
            }
        }
        i = i + 1;
    }
    first
}

fn coalesce(found: &Option<String>, stored: &Option<String>) -> (r: Option<String>)
    ensures
        opt_text(r) == (if found is Some {
            opt_text(*found)
        } else {
            opt_text(*stored)
        }),
{
    match found {
        Some(v) => Some(v.clone()),
        None => clone_opt(stored),
    }
}

/// The row of a planned attachment among the rows that are there, ordered by
/// id.
pub fn planned_home(rows: &Vec<AttachmentRow>, p: &PlannedAttachment) -> (home: Option<usize>)
    ensures
        is_home(rows@, *p, home),
{
    match find_row(Adoption::BySection, rows, p) {
        Some(i) => Some(i),
        None => match find_row(Adoption::ByContentId, rows, p) {
            Some(i) => Some(i),
            None => find_row(Adoption::ByName, rows, p),
        },
    }
}

/// Insert or refresh a BODYSTRUCTURE attachment descriptor without replacing
/// rows. Stable IDs and already-downloaded `file_path` values are therefore
/// preserved across header re-syncs and plan upgrades. Rows without a section
/// are adopted where possible by Content-ID, then by filename + MIME type,
/// before a new row, with the id `new_id`, is made. `rows` are ordered by id.
pub fn upsert_planned_attachment(
    rows: &mut Vec<AttachmentRow>,
    p: &PlannedAttachment,
    new_id: i64,
) -> (id: i64)
    ensures
        is_upserted(old(rows)@, *p, new_id, final(rows)@, id),
{
    let home: Option<usize> = planned_home(rows, p);
    let ghost before = rows@;
    proof {
        reveal(is_upserted);
    }
    match home {
        Some(i) => {
            let row: &AttachmentRow = &rows[i];
            let id: i64 = row.id;
            let next = AttachmentRow {
                id,
                part_id: match &row.part_id {
                    Some(s) => Some(s.clone()),
                    None => None,
                },
                filename: coalesce(&p.filename, &row.filename),
                mime_type: Some(p.mime_type.clone()),
                size: Some(p.size as i64),
                content_id: coalesce(&p.content_id, &row.content_id),
                is_inline: p.is_inline,
                imap_section: Some(p.section.clone()),
                file_path: match &row.file_path {
                    Some(s) => Some(s.clone()),
                    None => None,
                },
            };
            rows.set(i, next);
            proof {
                assert(is_upserted_at(before, *p, new_id, rows@, id, home));
            }
            id
        },
        None => {
            rows.push(
                AttachmentRow {
                    id: new_id,
                    part_id: None,
                    filename: clone_opt(&p.filename),
                    mime_type: Some(p.mime_type.clone()),
                    size: Some(p.size as i64),
                    content_id: clone_opt(&p.content_id),
                    is_inline: p.is_inline,
                    imap_section: Some(p.section.clone()),
                    file_path: None,
                },
            );
            proof {
                assert(rows@.drop_last() =~= before);
                assert(is_upserted_at(before, *p, new_id, rows@, new_id, home));
            }
            new_id
        },
    }
}

/// The rows after each of the planned attachments was taken in, in order; the
/// attachment `k` has the row `ids[k]`, and a new row for it the id
/// `first_new_id + k`.
pub open spec fn is_upsert_run(
    trace: Seq<Seq<AttachmentRow>>,
    planned: Seq<PlannedAttachment>,
    first_new_id: int,
    ids: Seq<i64>,
) -> bool {
    &&& trace.len() == planned.len() + 1
    &&& ids.len() == planned.len()
    &&& forall|k: int|
        0 <= k < planned.len() ==> is_upserted(
            #[trigger] trace[k],
            planned[k],
            (first_new_id + k) as i64,
            trace[k + 1],
            ids[k],
        )
}

/// Insert or refresh the BODYSTRUCTURE attachment descriptors of a message;
/// returns the ids of their rows.
pub fn upsert_planned_attachments(
    rows: &mut Vec<AttachmentRow>,
    planned: &[PlannedAttachment],
    first_new_id: i64,
) -> (ids: Vec<i64>)
    requires
        0 <= first_new_id,
        first_new_id + planned@.len() <= i64::MAX,
    ensures
        exists|trace: Seq<Seq<AttachmentRow>>| #[trigger]
            is_upsert_run(trace, planned@, first_new_id as int, ids@) && trace[0] == old(rows)@
                && trace.last() == final(rows)@,
{
    let mut ids: Vec<i64> = Vec::new();
    let mut k: usize = 0;
    let ghost mut trace = seq![rows@];
    while k < planned.len()
        invariant
            k <= planned@.len(),
            0 <= first_new_id,
            first_new_id + planned@.len() <= i64::MAX,
            is_upsert_run(trace, planned@.take(k as int), first_new_id as int, ids@),
            trace[0] == old(rows)@,
            trace.last() == rows@,
        decreases planned@.len() - k,
    {
        let ghost before = trace;
        let ghost old_ids = ids@;
        let id: i64 = upsert_planned_attachment(rows, &planned[k], first_new_id + k as i64);
        ids.push(id);
        k = k + 1;
        proof {
            trace = before.push(rows@);
            let taken_now = planned@.take(k as int);
            let taken_before = planned@.take(k - 1);
            assert forall|j: int| 0 <= j < taken_now.len() implies is_upserted(
                #[trigger] trace[j],
                taken_now[j],
                (first_new_id + j) as i64,
                trace[j + 1],
                ids@[j],
            ) by {
                assert(trace[j] == before[j]);
                if j < k - 1 {
                    assert(trace[j + 1] == before[j + 1]);
                    assert(taken_now[j] == taken_before[j]);
                    assert(ids@[j] == old_ids[j]);
                }
            }
        }
    }
    proof {
        assert(planned@.take(planned@.len() as int) =~= planned@);
        assert(is_upsert_run(trace, planned@, first_new_id as int, ids@));
    }
    ids
}

/// The id of the row of a section: the first one with it.
pub open spec fn is_id_of_section(
    rows: Seq<AttachmentRow>,
    section: Seq<char>,
    r: Option<i64>,
) -> bool {
    match r {
        Some(id) => exists|i: int|
            0 <= i < rows.len() && (#[trigger] rows[i]).id == id && has_section(rows[i], section)
                && forall|j: int| 0 <= j < i ==> !has_section(#[trigger] rows[j], section),
        None => forall|j: int| 0 <= j < rows.len() ==> !has_section(#[trigger] rows[j], section),
    }
}

/// The id of the row of a section.
pub fn attachment_by_imap_section(rows: &Vec<AttachmentRow>, section: &str) -> (r: Option<i64>)
    ensures
        is_id_of_section(rows@, section@, r),
{
    let mut i: usize = 0;
    while i < rows.len()
        invariant
            i <= rows@.len(),
            forall|j: int| 0 <= j < i ==> !has_section(#[trigger] rows@[j], section@),
        decreases rows@.len() - i,
    {
        let found: bool = match &rows[i].imap_section {
            Some(s) => s.as_str().eq(section),
            None => false,
        };
        if found {
            proof {
                assert(rows@[i as int].id == rows@[i as int].id);
            }
            return Some(rows[i].id);
        }
        i = i + 1;
    }
    None
}

/// Refreshing keeps what is there: no row disappears, and every row keeps its
/// id and its downloaded file.
pub proof fn upserting_keeps_ids_and_files(
    before: Seq<AttachmentRow>,
    p: PlannedAttachment,
    new_id: i64,
    after: Seq<AttachmentRow>,
    id: i64,
    j: int,
)
    requires
        is_upserted(before, p, new_id, after, id),
        0 <= j < before.len(),
    ensures
        before.len() <= after.len() <= before.len() + 1,
        after[j].id == before[j].id,
        after[j].file_path == before[j].file_path,
        after[j].part_id == before[j].part_id,
{
    reveal(is_upserted);
    let home = choose|home: Option<usize>|
        is_home(before, p, home) && #[trigger] is_upserted_at(before, p, new_id, after, id, home);
    if home is None {
        assert(after.drop_last()[j] == after[j]);
    }
}

/// Refreshing twice is refreshing once: the second time the row is found by its
/// section under the same id, no row is added, and no row says anything else
/// than before.
pub proof fn upserting_twice_is_once(
    first: Seq<AttachmentRow>,
    p: PlannedAttachment,
    new_id: i64,
    second: Seq<AttachmentRow>,
    id: i64,
    other_id: i64,
    third: Seq<AttachmentRow>,
    again: i64,
)
    requires
        is_upserted(first, p, new_id, second, id),
        is_upserted(second, p, other_id, third, again),
    ensures
        again == id,
        third.len() == second.len(),
        forall|j: int|
            0 <= j < second.len() ==> same_row(#[trigger] third[j], second[j]),
{
    reveal(is_upserted);
    let h1 = choose|home: Option<usize>|
        is_home(first, p, home) && #[trigger] is_upserted_at(first, p, new_id, second, id, home);
    let h2 = choose|home: Option<usize>|
        is_home(second, p, home) && #[trigger] is_upserted_at(
            second,
            p,
            other_id,
            third,
            again,
            home,
        );
    let i: int = match h1 {
        Some(i) => i as int,
        None => first.len() as int,
    };
    assert(has_section(second[i], p.section@));
    assert(adopts(Adoption::BySection, second[i], p));
    assert(!finds_none(Adoption::BySection, second, p));
    let k = h2->0 as int;
    assert(is_found(Adoption::BySection, second, p, k));
    assert(k <= i) by {
        if i < k {
            assert(!adopts(Adoption::BySection, second[i], p));
        }
    }
    assert(k == i) by {
        if k < i {
            assert(has_section(second[k], p.section@));
            match h1 {
                Some(x) => {
                    assert(second[k] == first[k]);
                    assert(adopts(Adoption::BySection, first[k], p));
                    assert(!finds_none(Adoption::BySection, first, p));
                    assert(is_found(Adoption::BySection, first, p, x as int));
                },
                None => {
                    assert(second.drop_last()[k] == second[k]);
                    assert(adopts(Adoption::BySection, first[k], p));
                },
            }
        }
    }
    assert forall|j: int| 0 <= j < second.len() implies same_row(#[trigger] third[j], second[j]) by {
        if j != k {
            assert(third[j] == second[j]);
        }
    }
}

/// The two rows say the same.
pub open spec fn same_row(a: AttachmentRow, b: AttachmentRow) -> bool {
    &&& a.id == b.id
    &&& a.part_id == b.part_id
    &&& opt_text(a.filename) == opt_text(b.filename)
    &&& opt_text(a.mime_type) == opt_text(b.mime_type)
    &&& a.size == b.size
    &&& opt_text(a.content_id) == opt_text(b.content_id)
    &&& a.is_inline == b.is_inline
    &&& opt_text(a.imap_section) == opt_text(b.imap_section)
    &&& a.file_path == b.file_path
}

/// The row at `i` is the one of the planned attachment, the first of its
/// section, and holds what BODYSTRUCTURE says of it.
pub open spec fn is_settled(
    rows: Seq<AttachmentRow>,
    p: PlannedAttachment,
    i: int,
    id: i64,
) -> bool {
    &&& 0 <= i < rows.len()
    &&& rows[i].id == id
    &&& has_section(rows[i], p.section@)
    &&& forall|j: int| 0 <= j < i ==> !has_section(#[trigger] rows[j], p.section@)
    &&& opt_text(rows[i].mime_type) == Some(p.mime_type@)
    &&& rows[i].size == Some(p.size as i64)
    &&& rows[i].is_inline == p.is_inline
    &&& p.filename is Some ==> opt_text(rows[i].filename) == opt_text(p.filename)
    &&& p.content_id is Some ==> opt_text(rows[i].content_id) == opt_text(p.content_id)
}

/// The two lists of rows say the same.
pub open spec fn same_rows(a: Seq<AttachmentRow>, b: Seq<AttachmentRow>) -> bool {
    a.len() == b.len() && forall|j: int| 0 <= j < a.len() ==> same_row(#[trigger] a[j], b[j])
}

proof fn lemma_settles(
    before: Seq<AttachmentRow>,
    p: PlannedAttachment,
    new_id: i64,
    after: Seq<AttachmentRow>,
    id: i64,
) -> (i: int)
    requires
        is_upserted(before, p, new_id, after, id),
    ensures
        is_settled(after, p, i, id),
{
    reveal(is_upserted);
    let home = choose|home: Option<usize>|
        is_home(before, p, home) && #[trigger] is_upserted_at(before, p, new_id, after, id, home);
    let i: int = match home {
        Some(i) => i as int,
        None => before.len() as int,
    };
    assert forall|j: int| 0 <= j < i implies !has_section(#[trigger] after[j], p.section@) by {
        if home is None {
            assert(after.drop_last()[j] == after[j]);
        }
        assert(after[j] == before[j]);
        if has_section(before[j], p.section@) {
            assert(adopts(Adoption::BySection, before[j], p));
            assert(!finds_none(Adoption::BySection, before, p));
            assert(is_found(Adoption::BySection, before, p, i));
        }
    }
    i
}

proof fn lemma_stays_settled(
    before: Seq<AttachmentRow>,
    p: PlannedAttachment,
    i: int,
    id: i64,
    q: PlannedAttachment,
    new_id: i64,
    after: Seq<AttachmentRow>,
    q_id: i64,
)
    requires
        is_settled(before, p, i, id),
        p.section@ != q.section@,
        is_upserted(before, q, new_id, after, q_id),
    ensures
        is_settled(after, p, i, id),
{
    reveal(is_upserted);
    let home = choose|home: Option<usize>|
        is_home(before, q, home) && #[trigger] is_upserted_at(before, q, new_id, after, q_id, home);
    match home {
        Some(h) => {
            assert(h != i) by {
                assert(!adopts(Adoption::BySection, before[i], q));
                assert(!adopts(Adoption::ByContentId, before[i], q));
                assert(!adopts(Adoption::ByName, before[i], q));
            }
            assert(after[i] == before[i]);
            assert forall|j: int| 0 <= j < i implies !has_section(#[trigger] after[j], p.section@) by {
                if j != h {
                    assert(after[j] == before[j]);
                }
            }
        },
        None => {
            assert(after.drop_last()[i] == after[i]);
            assert forall|j: int| 0 <= j < i implies !has_section(#[trigger] after[j], p.section@) by {
                assert(after.drop_last()[j] == after[j]);
            }
        },
    }
}

proof fn lemma_settled_stays(
    before: Seq<AttachmentRow>,
    p: PlannedAttachment,
    i: int,
    id: i64,
    new_id: i64,
    after: Seq<AttachmentRow>,
    again: i64,
)
    requires
        is_settled(before, p, i, id),
        is_upserted(before, p, new_id, after, again),
    ensures
        again == id,
        same_rows(after, before),
{
    reveal(is_upserted);
    let home = choose|home: Option<usize>|
        is_home(before, p, home) && #[trigger] is_upserted_at(before, p, new_id, after, again, home);
    assert(adopts(Adoption::BySection, before[i], p));
    assert(!finds_none(Adoption::BySection, before, p));
    let k = home->0 as int;
    assert(is_found(Adoption::BySection, before, p, k));
    assert(has_section(before[k], p.section@));
    assert(k == i) by {
        if i < k {
            assert(!adopts(Adoption::BySection, before[i], p));
        }
    }
    assert forall|j: int| 0 <= j < after.len() implies same_row(#[trigger] after[j], before[j]) by {
        if j != k {
            assert(after[j] == before[j]);
        }
    }
}

proof fn lemma_same_settled(
    a: Seq<AttachmentRow>,
    b: Seq<AttachmentRow>,
    p: PlannedAttachment,
    i: int,
    id: i64,
)
    requires
        same_rows(a, b),
        is_settled(b, p, i, id),
    ensures
        is_settled(a, p, i, id),
{
    assert(same_row(a[i], b[i]));
    assert forall|j: int| 0 <= j < i implies !has_section(#[trigger] a[j], p.section@) by {
        assert(same_row(a[j], b[j]));
        assert(!has_section(b[j], p.section@));
    }
}

/// Each planned attachment has a section of its own.
pub open spec fn sections_differ(planned: Seq<PlannedAttachment>) -> bool {
    forall|x: int, y: int|
        #![trigger planned[x], planned[y]]
        0 <= x < y < planned.len() ==> planned[x].section@ != planned[y].section@
}

/// After a run every attachment that it took in is settled.
proof fn lemma_run_settles(
    trace: Seq<Seq<AttachmentRow>>,
    planned: Seq<PlannedAttachment>,
    first_new_id: int,
    ids: Seq<i64>,
    n: int,
    k: int,
) -> (i: int)
    requires
        is_upsert_run(trace, planned, first_new_id, ids),
        sections_differ(planned),
        0 <= k < n <= planned.len(),
    ensures
        is_settled(trace[n], planned[k], i, ids[k]),
    decreases n,
{
    let last = n - 1;
    assert(is_upserted(
        trace[last],
        planned[last],
        (first_new_id + last) as i64,
        trace[last + 1],
        ids[last],
    ));
    if k == last {
        lemma_settles(
            trace[last],
            planned[last],
            (first_new_id + last) as i64,
            trace[n],
            ids[last],
        )
    } else {
        let i = lemma_run_settles(trace, planned, first_new_id, ids, last, k);
        assert(planned[k].section@ != planned[last].section@);
        lemma_stays_settled(
            trace[last],
            planned[k],
            i,
            ids[k],
            planned[last],
            (first_new_id + last) as i64,
            trace[n],
            ids[last],
        );
        i
    }
}

/// A run over attachments that are all settled changes nothing.
proof fn lemma_rerun(
    trace: Seq<Seq<AttachmentRow>>,
    planned: Seq<PlannedAttachment>,
    first_new_id: int,
    ids: Seq<i64>,
    at: Seq<int>,
    known: Seq<i64>,
    n: int,
)
    requires
        is_upsert_run(trace, planned, first_new_id, ids),
        at.len() == planned.len(),
        known.len() == planned.len(),
        forall|k: int|
            0 <= k < planned.len() ==> is_settled(trace[0], #[trigger] planned[k], at[k], known[k]),
        0 <= n <= planned.len(),
    ensures
        same_rows(trace[n], trace[0]),
        forall|k: int| 0 <= k < n ==> #[trigger] ids[k] == known[k],
    decreases n,
{
    if n > 0 {
        let last = n - 1;
        lemma_rerun(trace, planned, first_new_id, ids, at, known, last);
        assert(is_upserted(
            trace[last],
            planned[last],
            (first_new_id + last) as i64,
            trace[last + 1],
            ids[last],
        ));
        lemma_same_settled(trace[last], trace[0], planned[last], at[last], known[last]);
        lemma_settled_stays(
            trace[last],
            planned[last],
            at[last],
            known[last],
            (first_new_id + last) as i64,
            trace[n],
            ids[last],
        );
        assert forall|j: int| 0 <= j < trace[n].len() implies same_row(
            #[trigger] trace[n][j],
            trace[0][j],
        ) by {
            assert(same_row(trace[last][j], trace[0][j]));
        }
    }
}

/// A run keeps what is there.
proof fn lemma_run_keeps(
    trace: Seq<Seq<AttachmentRow>>,
    planned: Seq<PlannedAttachment>,
    first_new_id: int,
    ids: Seq<i64>,
    n: int,
)
    requires
        is_upsert_run(trace, planned, first_new_id, ids),
        0 <= n <= planned.len(),
        0 <= first_new_id,
        first_new_id + planned.len() <= i64::MAX,
        forall|p: int, q: int|
            #![trigger trace[0][p], trace[0][q]]
            0 <= p < q < trace[0].len() ==> trace[0][p].id != trace[0][q].id,
        forall|p: int| 0 <= p < trace[0].len() ==> (#[trigger] trace[0][p]).id < first_new_id,
    ensures
        trace[0].len() <= trace[n].len() <= trace[0].len() + n,
        forall|j: int|
            0 <= j < trace[0].len() ==> (#[trigger] trace[n][j]).id == trace[0][j].id
                && trace[n][j].part_id == trace[0][j].part_id && trace[n][j].file_path
                == trace[0][j].file_path,
        forall|p: int, q: int|
            #![trigger trace[n][p], trace[n][q]]
            0 <= p < q < trace[n].len() ==> trace[n][p].id != trace[n][q].id,
        forall|p: int| 0 <= p < trace[n].len() ==> (#[trigger] trace[n][p]).id < first_new_id + n,
    decreases n,
{
    if n > 0 {
        let last = n - 1;
        lemma_run_keeps(trace, planned, first_new_id, ids, last);
        let new_id = (first_new_id + last) as i64;
        assert(is_upserted(trace[last], planned[last], new_id, trace[last + 1], ids[last]));
        reveal(is_upserted);
        let home = choose|home: Option<usize>|
            is_home(trace[last], planned[last], home) && #[trigger] is_upserted_at(
                trace[last],
                planned[last],
                new_id,
                trace[n],
                ids[last],
                home,
            );
        assert forall|j: int| 0 <= j < trace[last].len() implies (#[trigger] trace[n][j]).id
            == trace[last][j].id && trace[n][j].part_id == trace[last][j].part_id
            && trace[n][j].file_path == trace[last][j].file_path by {
            if home is None {
                assert(trace[n].drop_last()[j] == trace[n][j]);
            }
        }
        assert forall|j: int| 0 <= j < trace[0].len() implies (#[trigger] trace[n][j]).id
            == trace[0][j].id && trace[n][j].part_id == trace[0][j].part_id
            && trace[n][j].file_path == trace[0][j].file_path by {
            assert(trace[last][j].id == trace[0][j].id);
        }
        assert forall|p: int| 0 <= p < trace[n].len() implies (#[trigger] trace[n][p]).id
            < first_new_id + n by {
            if p < trace[last].len() {
                assert(trace[last][p].id < first_new_id + last);
            }
        }
        assert forall|p: int, q: int|
            #![trigger trace[n][p], trace[n][q]]
            0 <= p < q < trace[n].len() implies trace[n][p].id != trace[n][q].id by {
            assert(trace[n][p].id == trace[last][p].id);
            assert(trace[last][p].id < first_new_id + last);
            if q < trace[last].len() {
                assert(trace[n][q].id == trace[last][q].id);
            }
        }
    }
}

/// A list of planned attachments with different sections that is taken in gives
/// each of them a row of its own, which its section finds again. No row goes,
/// and every row keeps its id, its part and its downloaded file.
pub proof fn sections_find_their_rows(
    trace: Seq<Seq<AttachmentRow>>,
    planned: Seq<PlannedAttachment>,
    first_new_id: int,
    ids: Seq<i64>,
)
    requires
        is_upsert_run(trace, planned, first_new_id, ids),
        sections_differ(planned),
        0 <= first_new_id,
        first_new_id + planned.len() <= i64::MAX,
        forall|p: int, q: int|
            #![trigger trace[0][p], trace[0][q]]
            0 <= p < q < trace[0].len() ==> trace[0][p].id != trace[0][q].id,
        forall|p: int| 0 <= p < trace[0].len() ==> (#[trigger] trace[0][p]).id < first_new_id,
    ensures
        ids.len() == planned.len(),
        ids.no_duplicates(),
        forall|k: int, found: Option<i64>|
            0 <= k < planned.len() && #[trigger] is_id_of_section(
                trace.last(),
                planned[k].section@,
                found,
            ) ==> found == Some(ids[k]),
        trace[0].len() <= trace.last().len(),
        forall|j: int|
            0 <= j < trace[0].len() ==> (#[trigger] trace.last()[j]).id == trace[0][j].id
                && trace.last()[j].part_id == trace[0][j].part_id && trace.last()[j].file_path
                == trace[0][j].file_path,
{
    let n = planned.len() as int;
    let rows = trace.last();
    assert(rows == trace[n]);
    lemma_run_keeps(trace, planned, first_new_id, ids, n);
    assert forall|x: int, y: int| 0 <= x < ids.len() && 0 <= y < ids.len() && x
        != y implies ids[x] != ids[y] by {
        let i = lemma_run_settles(trace, planned, first_new_id, ids, n, x);
        let j = lemma_run_settles(trace, planned, first_new_id, ids, n, y);
        if x < y {
            assert(planned[x].section@ != planned[y].section@);
        } else {
            assert(planned[y].section@ != planned[x].section@);
        }
        if i < j {
            assert(rows[i].id != rows[j].id);
        } else if j < i {
            assert(rows[j].id != rows[i].id);
        }
    }
    assert forall|k: int, found: Option<i64>|
        0 <= k < planned.len() && #[trigger] is_id_of_section(
            rows,
            planned[k].section@,
            found,
        ) implies found == Some(ids[k]) by {
        let i = lemma_run_settles(trace, planned, first_new_id, ids, n, k);
        let section = planned[k].section@;
        assert(has_section(rows[i], section));
        let f = choose|f: int|
            0 <= f < rows.len() && (#[trigger] rows[f]).id == found->0 && has_section(
                rows[f],
                section,
            ) && forall|j: int| 0 <= j < f ==> !has_section(#[trigger] rows[j], section);
        assert(found is Some);
        assert(f == i) by {
            if i < f {
                assert(!has_section(rows[i], section));
            }
        }
    }
}

/// Taking in the same list twice is taking it in once: the second time the
/// attachments have the same rows, no row is added, and none says anything else
/// than before.
pub proof fn upserting_a_list_twice_is_once(
    first: Seq<Seq<AttachmentRow>>,
    planned: Seq<PlannedAttachment>,
    first_new_id: int,
    ids: Seq<i64>,
    second: Seq<Seq<AttachmentRow>>,
    other_new_id: int,
    again: Seq<i64>,
)
    requires
        is_upsert_run(first, planned, first_new_id, ids),
        sections_differ(planned),
        is_upsert_run(second, planned, other_new_id, again),
        second[0] == first.last(),
    ensures
        again == ids,
        same_rows(second.last(), first.last()),
{
    let n = planned.len() as int;
    let at = Seq::new(
        planned.len(),
        |k: int| choose|i: int| is_settled(first[n], planned[k], i, ids[k]),
    );
    assert forall|k: int| 0 <= k < planned.len() implies is_settled(
        second[0],
        #[trigger] planned[k],
        at[k],
        ids[k],
    ) by {
        let i = lemma_run_settles(first, planned, first_new_id, ids, n, k);
        assert(is_settled(first[n], planned[k], i, ids[k]));
    }
    lemma_rerun(second, planned, other_new_id, again, at, ids, n);
    assert(again =~= ids);
}

} // verus!
