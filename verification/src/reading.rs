//! Reading mail: which threads a tab lists, which bodies and files are asked
//! for, and what is filled in before a message is shown.

use vstd::prelude::*;

use crate::bytes::{base64, base64_text};
use crate::dict::Dict;
use crate::error::{CoreError, ErrorView};
use crate::models::MessageDetail;
use crate::text::{
    clone_opt, concat2, contains_str, decimal_int, has_text, i64_text, opt_text, owned,
};

verus! {

// ---------------------------------------------------------------------------
// Listing
// ---------------------------------------------------------------------------

/// What a tab of the inbox shows.
#[derive(Debug, Clone, Copy, PartialEq, Eq, Structural)]
pub enum TabFilter {
    /// A category: the threads whose tab it is.
    AutoLabel(i64),
    /// A label of the user: every thread that carries it.
    ManualLabel(i64),
    Important,
    Other,
    Split(i64),
}

/// The split id of the Important tab.
pub const IMPORTANT_TAB: i64 = -1;

/// The split id of the Other tab.
pub const OTHER_TAB: i64 = -2;

/// What the chosen tab shows; everything where none is chosen. A label goes
/// before a split. `label_is_auto` says whether the label is a category; a
/// label that is not there counts as the user's own.
pub fn tab_filter(label_id: Option<i64>, label_is_auto: Option<bool>, split_id: Option<i64>) -> (r:
    Option<TabFilter>)
    ensures
        r == (match (label_id, split_id) {
            (Some(l), _) => if label_is_auto == Some(true) {
                Some(TabFilter::AutoLabel(l))
            } else {
                Some(TabFilter::ManualLabel(l))
            },
            (None, Some(s)) => if s == IMPORTANT_TAB {
                Some(TabFilter::Important)
            } else if s == OTHER_TAB {
                Some(TabFilter::Other)
            } else if s > 0 {
                Some(TabFilter::Split(s))
            } else {
                None
            },
            (None, None) => None,
        }),
        label_id is Some ==> (r matches Some(t) && (t == TabFilter::AutoLabel(label_id->0) || t
            == TabFilter::ManualLabel(label_id->0))),
        r matches Some(TabFilter::AutoLabel(_)) ==> label_is_auto == Some(true),
        r is Some && r->0 is Important <==> label_id is None && split_id == Some(-1i64),
        r is Some && r->0 is Other <==> label_id is None && split_id == Some(-2i64),
        r is Some && r->0 is Split ==> split_id == Some(r->0->Split_0) && r->0->Split_0 > 0,
        label_id is None && split_id is None ==> r is None,
{
    match label_id {
        Some(l) => match label_is_auto {
            Some(true) => Some(TabFilter::AutoLabel(l)),
            _ => Some(TabFilter::ManualLabel(l)),
        },
        None => match split_id {
            Some(s) => {
                if s == IMPORTANT_TAB {
                    Some(TabFilter::Important)
                } else if s == OTHER_TAB {
                    Some(TabFilter::Other)
                } else if s > 0 {
                    Some(TabFilter::Split(s))
                } else {
                    None
                }
            },
            None => None,
        },
    }
}

pub const MAX_THREADS_PER_PAGE: i64 = 200;

pub const MAX_FOUND: i64 = 100;

pub const MAX_CONTACTS: i64 = 50;

pub const MAX_SUGGESTIONS: i64 = 20;

/// How many rows a list gives: as many as are asked for, at least one and at
/// most `most`.
pub fn list_limit(asked: i64, most: i64) -> (r: i64)
    requires
        most >= 1,
    ensures
        r == (if asked < 1 {
            1
        } else if asked > most {
            most
        } else {
            asked
        }),
        1 <= r <= most,
        1 <= asked <= most ==> r == asked,
{
    if asked < 1 {
        1
    } else if asked > most {
        most
    } else {
        asked
    }
}

// ---------------------------------------------------------------------------
// Bodies
// ---------------------------------------------------------------------------

/// A body that is not there yet. One that is being fetched counts too: the
/// request may have been lost, and asking again does no harm.
pub open spec fn lacks_body(body_state: Seq<char>) -> bool {
    body_state == "none"@ || body_state == "fetching"@
}

pub fn wants_body(body_state: &str) -> (r: bool)
    ensures
        r == lacks_body(body_state@),
{
    body_state.eq("none") || body_state.eq("fetching")
}

/// The messages whose bodies are asked for when a thread is opened, the newest
/// first: it is the one that is read.
pub open spec fn missing_bodies_of(messages: Seq<MessageDetail>) -> Seq<(i64, i64)>
    decreases messages.len(),
{
    if messages.len() == 0 {
        Seq::empty()
    } else {
        let m = messages.last();
        let rest = missing_bodies_of(messages.drop_last());
        if lacks_body(m.body_state@) {
            seq![(m.account_id, m.id)] + rest
        } else {
            rest
        }
    }
}

/// Opening a thread asks for every body that is not there yet, under the account
/// and the id of its message, and for no other; the newest is asked for first.
pub proof fn every_missing_body_is_asked_for(messages: Seq<MessageDetail>)
    ensures
        forall|p: (i64, i64)| #[trigger]
            missing_bodies_of(messages).contains(p) <==> exists|i: int|
                0 <= i < messages.len() && (#[trigger] messages[i]).account_id == p.0
                    && messages[i].id == p.1 && (messages[i].body_state@ == "none"@
                    || messages[i].body_state@ == "fetching"@),
        messages.len() > 0 && (messages.last().body_state@ == "none"@ || messages.last().body_state@
            == "fetching"@) ==> missing_bodies_of(messages)[0] == (
            messages.last().account_id,
            messages.last().id,
        ),
    decreases messages.len(),
{
    if messages.len() > 0 {
        let n = messages.len() - 1;
        let front = messages.drop_last();
        every_missing_body_is_asked_for(front);
        let rest = missing_bodies_of(front);
        let all = missing_bodies_of(messages);
        let own = (messages[n].account_id, messages[n].id);
        assert(forall|i: int| 0 <= i < n ==> front[i] == #[trigger] messages[i]);
        assert forall|p: (i64, i64)| #[trigger] all.contains(p) <==> exists|i: int|
            0 <= i < messages.len() && (#[trigger] messages[i]).account_id == p.0 && messages[i].id
                == p.1 && lacks_body(messages[i].body_state@) by {
            if rest.contains(p) {
                let i = choose|i: int|
                    0 <= i < front.len() && (#[trigger] front[i]).account_id == p.0 && front[i].id
                        == p.1 && lacks_body(front[i].body_state@);
                assert(messages[i].account_id == p.0);
                let k = rest.index_of(p);
                if lacks_body(messages[n].body_state@) {
                    assert(all[k + 1] == p);
                }
            }
            if all.contains(p) && !rest.contains(p) {
                let k = all.index_of(p);
                if lacks_body(messages[n].body_state@) && k > 0 {
                    assert(rest[k - 1] == p);
                }
                assert(messages[n].account_id == p.0);
            }
            if exists|i: int|
                0 <= i < messages.len() && (#[trigger] messages[i]).account_id == p.0
                    && messages[i].id == p.1 && lacks_body(messages[i].body_state@) {
                let i = choose|i: int|
                    0 <= i < messages.len() && (#[trigger] messages[i]).account_id == p.0
                        && messages[i].id == p.1 && lacks_body(messages[i].body_state@);
                if i < n {
                    assert(front[i].account_id == p.0);
                } else {
                    assert(all[0] == p);
                }
            }
        }
    }
}

/// The account and the id of each message of a thread whose body is to be
/// fetched, in the order of asking.
pub fn bodies_to_request(messages: &Vec<MessageDetail>) -> (r: Vec<(i64, i64)>)
    ensures
        r@ == missing_bodies_of(messages@),
{
    let mut out: Vec<(i64, i64)> = Vec::new();
    let mut i: usize = messages.len();
    proof {
        assert(messages@.take(i as int) =~= messages@);
        assert(out@ + missing_bodies_of(messages@) =~= missing_bodies_of(messages@));
    }
    while i > 0
        invariant
            i <= messages@.len(),
            out@ + missing_bodies_of(messages@.take(i as int)) == missing_bodies_of(messages@),
        decreases i,
    {
        let ghost before = out@;
        i = i - 1;
        let m: &MessageDetail = &messages[i];
        proof {
            assert(messages@.take(i + 1).drop_last() =~= messages@.take(i as int));
            assert(messages@.take(i + 1).last() == messages@[i as int]);
        }
        if wants_body(m.body_state.as_str()) {
            out.push((m.account_id, m.id));
            proof {
                assert(before + (seq![(m.account_id, m.id)] + missing_bodies_of(
                    messages@.take(i as int),
                )) =~= out@ + missing_bodies_of(messages@.take(i as int)));
            }
        }
    }
    proof {
        assert(out@ + missing_bodies_of(messages@.take(0)) =~= out@);
    }
    out
}

// ---------------------------------------------------------------------------
// Unsubscribe headers of older messages
// ---------------------------------------------------------------------------

/// The two unsubscribe headers of a message.
#[derive(Debug, Clone)]
pub struct UnsubscribeHeaders {
    pub list: Option<String>,
    pub post: Option<String>,
}

/// Whether the stored mail is looked into for unsubscribe headers: where one
/// of them is missing and the mail is on disk.
pub fn looks_for_unsubscribe(known: &UnsubscribeHeaders, raw_path: &Option<String>) -> (r: bool)
    ensures
        r == ((known.list is None || known.post is None) && raw_path is Some && raw_path->0@.len()
            > 0),
        known.list is Some && known.post is Some ==> !r,
        raw_path is None ==> !r,
{
    if known.list.is_some() && known.post.is_some() {
        return false;
    }
    match raw_path {
        Some(p) => {
            let empty: bool = p.as_str().eq("");
            proof {
                reveal_strlit("");
                assert(p@.len() == 0 ==> p@ =~= ""@);
            }
            !empty
        },
        None => false,
    }
}

/// What looking into the stored mail makes of the headers: what was missing is
/// filled in, what was known stays. Nothing changes where the mail has neither.
pub fn backfill_unsubscribe(known: &UnsubscribeHeaders, found: &UnsubscribeHeaders) -> (r: Option<
    UnsubscribeHeaders,
>)
    ensures
        r is None <==> found.list is None && found.post is None,
        r matches Some(h) ==> {
            &&& opt_text(h.list) == (if known.list is Some {
                opt_text(known.list)
            } else {
                opt_text(found.list)
            })
            &&& opt_text(h.post) == (if known.post is Some {
                opt_text(known.post)
            } else {
                opt_text(found.post)
            })
            &&& known.list is Some ==> opt_text(h.list) == opt_text(known.list)
            &&& known.list is None ==> opt_text(h.list) == opt_text(found.list)
            &&& known.post is Some ==> opt_text(h.post) == opt_text(known.post)
        },
{
    if found.list.is_none() && found.post.is_none() {
        return None;
    }
    Some(
        UnsubscribeHeaders {
            list: if known.list.is_some() {
                clone_opt(&known.list)
            } else {
                clone_opt(&found.list)
            },
            post: if known.post.is_some() {
                clone_opt(&known.post)
            } else {
                clone_opt(&found.post)
            },
        },
    )
}

// ---------------------------------------------------------------------------
// Embedded images
// ---------------------------------------------------------------------------

/// Whether a body refers to embedded images.
pub fn has_embedded_images(html: &str) -> (r: bool)
    ensures
        r == has_text(html@, "cid:"@),
{
    contains_str(html, "cid:")
}

/// An embedded image that is on disk. The content id is in its normal form.
#[derive(Debug)]
pub struct InlineImage {
    pub message_id: i64,
    pub content_id: String,
    pub mime_type: Option<String>,
    pub bytes: Vec<u8>,
}

/// The type of an image that does not say what it is.
pub const UNKNOWN_TYPE: &'static str = "application/octet-stream";

/// The image as an address that holds the image itself.
pub open spec fn data_uri(mime_type: Option<Seq<char>>, bytes: Seq<u8>) -> Seq<char> {
    "data:"@ + (match mime_type {
        Some(m) => m,
        None => UNKNOWN_TYPE@,
    }) + ";base64,"@ + base64(bytes)
}

/// The image's base64 text fits in memory.
pub open spec fn encodes(image: InlineImage) -> bool {
    (image.bytes@.len() + 2) / 3 * 4 <= isize::MAX
}

pub fn image_uri(image: &InlineImage) -> (r: String)
    requires
        encodes(*image),
    ensures
        r@ == data_uri(opt_text(image.mime_type), image.bytes@),
{
    let mime: String = match &image.mime_type {
        Some(m) => m.clone(),
        None => owned(UNKNOWN_TYPE),
    };
    let encoded: String = base64_text(image.bytes.as_slice());
    let mut out: String = concat2("data:", mime.as_str());
    out.push_str(";base64,");
    out.push_str(encoded.as_str());
    out
}

/// The image that a content id of a message stands for: the last one with it.
pub open spec fn image_at(images: Seq<InlineImage>, message_id: i64, content_id: Seq<char>) -> int
    decreases images.len(),
{
    if images.len() == 0 {
        -1
    } else if images.last().message_id == message_id && images.last().content_id@ == content_id {
        images.len() - 1
    } else {
        image_at(images.drop_last(), message_id, content_id)
    }
}

pub open spec fn has_image(images: Seq<InlineImage>, message_id: i64) -> bool {
    exists|i: int| 0 <= i < images.len() && (#[trigger] images[i]).message_id == message_id
}

/// A content id stands for an image of its own message, the last that has it; and
/// for none where no image of the message has it.
pub proof fn content_ids_find_their_images(
    images: Seq<InlineImage>,
    message_id: i64,
    content_id: Seq<char>,
)
    ensures
        ({
            let at = image_at(images, message_id, content_id);
            &&& at < images.len()
            &&& at >= 0 ==> images[at].message_id == message_id && images[at].content_id@
                == content_id
            &&& forall|i: int|
                at < i < images.len() && 0 <= i ==> (#[trigger] images[i]).message_id != message_id
                    || images[i].content_id@ != content_id
        }),
    decreases images.len(),
{
    if images.len() > 0 {
        let front = images.drop_last();
        content_ids_find_their_images(front, message_id, content_id);
        assert(forall|i: int| 0 <= i < front.len() ==> front[i] == #[trigger] images[i]);
        assert(images[images.len() - 1] == images.last());
    }
}

/// That the addresses are those of the images of the message.
pub open spec fn are_addresses(
    r: Map<Seq<char>, String>,
    images: Seq<InlineImage>,
    message_id: i64,
) -> bool {
    forall|cid: Seq<char>|
        {
            let at = image_at(images, message_id, cid);
            &&& #[trigger] r.dom().contains(cid) <==> at >= 0
            &&& at >= 0 ==> r[cid]@ == data_uri(
                opt_text(images[at].mime_type),
                images[at].bytes@,
            )
        }
}

proof fn lemma_image_at(images: Seq<InlineImage>, message_id: i64, content_id: Seq<char>)
    ensures
        -1 <= image_at(images, message_id, content_id) < images.len(),
    decreases images.len(),
{
    if images.len() > 0 {
        lemma_image_at(images.drop_last(), message_id, content_id);
    }
}

/// The addresses that take the place of the embedded images of a message; none
/// where no image of it is on disk.
pub fn image_addresses(images: &Vec<InlineImage>, message_id: i64) -> (r: Option<Dict<String>>)
    requires
        forall|i: int| 0 <= i < images@.len() ==> encodes(#[trigger] images@[i]),
    ensures
        r is Some <==> has_image(images@, message_id),
        r is None <==> forall|i: int|
            0 <= i < images@.len() ==> (#[trigger] images@[i]).message_id != message_id,
        r matches Some(d) ==> are_addresses(d@, images@, message_id),
{
    let mut out: Dict<String> = Dict::new();
    let mut any: bool = false;
    let mut i: usize = 0;
    while i < images.len()
        invariant
            i <= images@.len(),
            forall|i: int| 0 <= i < images@.len() ==> encodes(#[trigger] images@[i]),
            any == exists|k: int|
                0 <= k < i && (#[trigger] images@[k]).message_id == message_id,
            are_addresses(out@, images@.take(i as int), message_id),
        decreases images@.len() - i,
    {
        let image: &InlineImage = &images[i];
        let ghost before = out@;
        proof {
            assert(images@.take(i + 1).drop_last() =~= images@.take(i as int));
            assert(images@.take(i + 1).last() == images@[i as int]);
        }
        if image.message_id == message_id {
            any = true;
            let uri: String = image_uri(image);
            out.insert(image.content_id.clone(), uri);
        }
        proof {
            let upto = images@.take(i + 1);
            assert forall|cid: Seq<char>|
                {
                    let at = image_at(upto, message_id, cid);
                    &&& #[trigger] out@.dom().contains(cid) <==> at >= 0
                    &&& at >= 0 ==> out@[cid]@ == data_uri(
                        opt_text(upto[at].mime_type),
                        upto[at].bytes@,
                    )
                } by {
                let was = image_at(images@.take(i as int), message_id, cid);
                lemma_image_at(images@.take(i as int), message_id, cid);
                assert(before.dom().contains(cid) <==> was >= 0);
                if was >= 0 {
                    assert(images@.take(i as int)[was] == upto[was]);
                }
            }
            assert(are_addresses(out@, upto, message_id));
        }
        i = i + 1;
    }
    proof {
        assert(images@.take(images@.len() as int) =~= images@);
    }
    if any {
        Some(out)
    } else {
        None
    }
}

/// Whether a thread is shown anew once missing images were fetched: where at
/// least one of them came.
pub fn shows_anew(fetched: &Vec<bool>) -> (r: bool)
    ensures
        r == fetched@.contains(true),
{
    let mut i: usize = 0;
    while i < fetched.len()
        invariant
            i <= fetched@.len(),
            forall|k: int| 0 <= k < i ==> !#[trigger] fetched@[k],
        decreases fetched@.len() - i,
    {
        if fetched[i] {
            proof {
                assert(fetched@[i as int] == true);
            }
            return true;
        }
        i = i + 1;
    }
    false
}

// ---------------------------------------------------------------------------
// Attachments
// ---------------------------------------------------------------------------

/// Where the bytes of an attachment come from.
#[derive(Debug, Clone, Copy, PartialEq, Eq, Structural)]
pub enum AttachmentSource {
    /// The part of the stored mail.
    Stored,
    /// The section on the server.
    Remote,
}

/// Where the bytes of an attachment are looked for first. The stored mail goes
/// before the server.
pub fn attachment_source(has_raw: bool, has_part: bool, has_section: bool) -> (r: Result<
    AttachmentSource,
    CoreError,
>)
    ensures
        r is Err <==> has_raw && !has_part && !has_section,
        r is Err ==> (r->Err_0)@ == ErrorView::NotFound("attachment part"@),
        r matches Ok(s) ==> s == (if has_raw && has_part {
            AttachmentSource::Stored
        } else {
            AttachmentSource::Remote
        }),
        r == Ok::<AttachmentSource, CoreError>(AttachmentSource::Stored) <==> has_raw && has_part,
{
    if has_raw && has_part {
        Ok(AttachmentSource::Stored)
    } else if has_raw && !has_section {
        Err(CoreError::NotFound(owned("attachment part")))
    } else {
        Ok(AttachmentSource::Remote)
    }
}

/// What follows an attempt to take the attachment from the stored mail: where
/// that failed, the server is asked if the attachment has a section there. A
/// stale file makes no attachment unreachable.
pub fn after_stored<T>(attempt: Result<T, CoreError>, has_section: bool) -> (r: Result<
    Option<T>,
    CoreError,
>)
    ensures
        attempt matches Ok(t) ==> r == Ok::<Option<T>, CoreError>(Some(t)),
        attempt matches Err(e) ==> if has_section {
            r == Ok::<Option<T>, CoreError>(None)
        } else {
            r == Err::<Option<T>, CoreError>(e)
        },
{
    match attempt {
        Ok(t) => Ok(Some(t)),
        Err(e) => {
            if has_section {
                Ok(None)
            } else {
                Err(e)
            }
        },
    }
}

/// The failure of a read through an account that does not run.
pub fn no_such_account(account_id: i64) -> (r: CoreError)
    ensures
        r@ == ErrorView::NotFound("account "@ + decimal_int(account_id as int)),
{
    let number: String = i64_text(account_id);
    CoreError::NotFound(concat2("account ", number.as_str()))
}

/// The failure of opening a thread that is not there.
pub fn no_such_thread(thread_id: i64) -> (r: CoreError)
    ensures
        r@ == ErrorView::NotFound("thread "@ + decimal_int(thread_id as int)),
{
    let number: String = i64_text(thread_id);
    CoreError::NotFound(concat2("thread ", number.as_str()))
}

/// Whether an attachment is too large to be previewed.
pub fn too_large_to_preview(size: Option<i64>, most: i64) -> (r: bool)
    ensures
        r == (size is Some && size->0 > most),
        size is None ==> !r,
        size is Some && size->0 <= most ==> !r,
{
    match size {
        Some(s) => s > most,
        None => false,
    }
}

} // verus!
