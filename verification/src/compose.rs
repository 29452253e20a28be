//! Drafts: where their attachments are kept and what saving one stores.

use vstd::prelude::*;

use crate::error::{CoreError, ErrorView};
use crate::files::{benign_name, safe_filename};
use crate::messages::NewMessage;
use crate::models::addresses::copy_addresses;
use crate::models::{Address, DraftAttachmentIn, SaveDraftArgs};
use crate::text::{clone_opt, clone_texts, concat3, opt_text, owned, texts};

verus! {

// ---------------------------------------------------------------------------
// Staging
// ---------------------------------------------------------------------------

/// Where the file of an attachment is kept, by the parts of its path.
#[derive(Debug, Clone)]
pub struct Staging {
    pub path: Vec<String>,
    /// The file still has to be copied there.
    pub copies: bool,
}

pub open spec fn is_under(path: Seq<Seq<char>>, root: Seq<Seq<char>>) -> bool {
    root.len() <= path.len() && path.take(root.len() as int) == root
}

/// Whether a path lies under a directory, by their parts.
pub fn lies_under(path: &Vec<String>, root: &Vec<String>) -> (r: bool)
    ensures
        r == is_under(texts(path@), texts(root@)),
{
    if root.len() > path.len() {
        return false;
    }
    let mut i: usize = 0;
    while i < root.len()
        invariant
            i <= root@.len() <= path@.len(),
            texts(path@).take(i as int) == texts(root@).take(i as int),
        decreases root@.len() - i,
    {
        if !path[i].as_str().eq(root[i].as_str()) {
            proof {
                assert(texts(path@).take(root@.len() as int)[i as int] != texts(root@)[i as int]);
            }
            return false;
        }
        proof {
            assert(texts(path@).take(i + 1) =~= texts(path@).take(i as int).push(path@[i as int]@));
            assert(texts(root@).take(i + 1) =~= texts(root@).take(i as int).push(root@[i as int]@));
        }
        i = i + 1;
    }
    proof {
        assert(texts(root@).take(root@.len() as int) =~= texts(root@));
    }
    true
}

/// Where an attachment of a draft is kept: where it is, if it is already among
/// the kept files (a draft saved again), else in a fresh directory under a
/// benign name.
pub fn stage_draft_attachment(root: &Vec<String>, src: &Vec<String>, filename: &str, token: &str) -> (r:
    Staging)
    ensures
        r.copies == !is_under(texts(src@), texts(root@)),
        texts(r.path@) == (if is_under(texts(src@), texts(root@)) {
            texts(src@)
        } else {
            texts(root@).push(token@).push(benign_name(filename@))
        }),
{
    if lies_under(src, root) {
        return Staging { path: clone_texts(src), copies: false };
    }
    let mut path: Vec<String> = clone_texts(root);
    let ghost kept = path@;
    path.push(owned(token));
    path.push(safe_filename(filename));
    proof {
        assert(texts(path@) =~= texts(root@).push(token@).push(benign_name(filename@)));
    }
    Staging { path, copies: true }
}

/// Whatever path the client is handed, what is stored with a draft lies under
/// the directory of kept files.
pub proof fn staged_files_are_kept_files(
    root: Seq<Seq<char>>,
    src: Seq<Seq<char>>,
    filename: Seq<char>,
    token: Seq<char>,
    staged: Seq<Seq<char>>,
)
    requires
        staged == (if is_under(src, root) {
            src
        } else {
            root.push(token).push(benign_name(filename))
        }),
    ensures
        is_under(staged, root),
{
    if !is_under(src, root) {
        assert(staged.take(root.len() as int) =~= root);
    }
}

/// The failure of an attachment whose file is not there.
pub fn missing_attachment(filename: &str, error: &str) -> (r: CoreError)
    ensures
        r@ == ErrorView::Other("attachment "@ + filename@ + ": "@ + error@),
{
    let mut out: String = concat3("attachment ", filename, ": ");
    out.push_str(error);
    CoreError::Other(out)
}

// ---------------------------------------------------------------------------
// Saving
// ---------------------------------------------------------------------------

/// A draft that is not stored yet.
#[derive(Debug)]
pub struct NewDraft {
    /// The thread that it joins; a new one where there is none.
    pub thread_id: Option<i64>,
    pub message: NewMessage,
    pub mode: String,
    pub in_reply_to_message_id: Option<i64>,
}

/// The fields of a stored draft that saving sets anew.
#[derive(Debug)]
pub struct DraftChange {
    pub id: i64,
    pub subject: String,
    pub to: Vec<Address>,
    pub cc: Vec<Address>,
    pub bcc: Vec<Address>,
    pub date: i64,
}

#[derive(Debug)]
pub enum DraftRow {
    Insert(NewDraft),
    Update(DraftChange),
}

/// What saving a draft stores.
#[derive(Debug)]
pub struct DraftSave {
    pub row: DraftRow,
    pub text_body: String,
    pub html_body: Option<String>,
    pub snippet: String,
    /// Takes the place of the attachments stored before.
    pub attachments: Vec<DraftAttachmentIn>,
    pub has_attachments: bool,
}

/// What is known when a draft is saved.
#[derive(Debug, Clone)]
pub struct DraftContext {
    /// The thread of the message that is answered.
    pub parent_thread: Option<i64>,
    pub drafts_folder: Option<i64>,
    pub account_email: String,
    /// The beginning of the text, as lists show it.
    pub snippet: String,
    pub now: i64,
}

/// The thread that a draft joins: a reply joins that of the message it answers.
pub open spec fn draft_thread(args: SaveDraftArgs, context: DraftContext) -> Option<i64> {
    if args.in_reply_to_message_id is Some {
        context.parent_thread
    } else {
        None
    }
}

/// That the row is that of a draft: read, outgoing, written by the account.
pub open spec fn is_draft_row(m: NewMessage, args: SaveDraftArgs, context: DraftContext) -> bool {
    &&& m.account_id == args.account_id
    &&& m.folder_id == (match context.drafts_folder {
        Some(f) => f,
        None => 0,
    })
    &&& m.uid is None
    &&& m.message_id is None
    &&& m.gm_msgid is None
    &&& m.gm_thrid is None
    &&& m.subject == args.subject
    &&& m.from is Some
    &&& m.from->0.name is None
    &&& m.from->0.email == context.account_email
    &&& m.to@ == args.to@
    &&& m.cc@ == args.cc@
    &&& m.bcc@ == args.bcc@
    &&& m.date == context.now
    &&& m.internal_date is None
    &&& m.is_read
    &&& !m.is_starred
    &&& m.is_draft
    &&& m.is_outgoing
    &&& !m.is_automated
    &&& !m.has_attachments
    &&& m.size is None
    &&& m.snippet == context.snippet
    &&& m.references@.len() == 0
    &&& m.list_unsubscribe is None
    &&& m.list_unsubscribe_post is None
    &&& m.sender_addr is None
}

/// A saved draft is the user's own: a draft in their name, read, outgoing, not on
/// the server yet, to the people and under the subject that they entered. A reply
/// joins the thread of what it answers, and nothing else joins one.
pub proof fn drafts_are_the_users_own(m: NewMessage, args: SaveDraftArgs, context: DraftContext)
    requires
        is_draft_row(m, args, context),
    ensures
        m.is_draft && m.is_read && m.is_outgoing && !m.is_starred && !m.is_automated,
        m.uid is None && m.message_id is None,
        m.account_id == args.account_id,
        m.from is Some && m.from->0.email@ == context.account_email@,
        m.subject@ == args.subject@ && m.to@ == args.to@ && m.cc@ == args.cc@ && m.bcc@
            == args.bcc@,
        context.drafts_folder matches Some(f) ==> m.folder_id == f,
        m.date == context.now && m.snippet@ == context.snippet@,
        m.sender_addr is None && m.list_unsubscribe is None && m.list_unsubscribe_post is None,
        args.in_reply_to_message_id is Some ==> draft_thread(args, context)
            == context.parent_thread,
        args.in_reply_to_message_id is None ==> draft_thread(args, context) is None,
{
}

/// The attachments under the paths where they are kept.
pub open spec fn are_staged(
    r: Seq<DraftAttachmentIn>,
    given: Seq<DraftAttachmentIn>,
    paths: Seq<String>,
) -> bool {
    &&& r.len() == given.len()
    &&& forall|i: int|
        #![trigger r[i]]
        0 <= i < r.len() ==> r[i].file_path == paths[i] && r[i].filename == given[i].filename
}

fn staged(given: &Vec<DraftAttachmentIn>, paths: &Vec<String>) -> (r: Vec<DraftAttachmentIn>)
    requires
        paths@.len() == given@.len(),
    ensures
        are_staged(r@, given@, paths@),
{
    let mut out: Vec<DraftAttachmentIn> = Vec::new();
    let mut i: usize = 0;
    while i < given.len()
        invariant
            i <= given@.len(),
            paths@.len() == given@.len(),
            out@.len() == i,
            forall|j: int|
                #![trigger out@[j]]
                0 <= j < i ==> out@[j].file_path == paths@[j] && out@[j].filename
                    == given@[j].filename,
        decreases given@.len() - i,
    {
        out.push(
            DraftAttachmentIn { file_path: paths[i].clone(), filename: given[i].filename.clone() },
        );
        i = i + 1;
    }
    out
}

/// What saving a draft stores. `paths` are the staged files of its
/// attachments, one for each.
pub fn save_draft(args: &SaveDraftArgs, paths: &Vec<String>, context: &DraftContext) -> (r:
    DraftSave)
    requires
        paths@.len() == args.attachments@.len(),
    ensures
        r.row is Update <==> args.draft_id is Some,
        r.row matches DraftRow::Update(c) ==> {
            &&& c.id == args.draft_id->0
            &&& c.subject == args.subject
            &&& c.to@ == args.to@
            &&& c.cc@ == args.cc@
            &&& c.bcc@ == args.bcc@
            &&& c.date == context.now
        },
        r.row matches DraftRow::Insert(n) ==> {
            &&& n.thread_id == draft_thread(*args, *context)
            &&& is_draft_row(n.message, *args, *context)
            &&& n.mode == args.mode
            &&& n.in_reply_to_message_id == args.in_reply_to_message_id
        },
        r.text_body == args.body_text,
        opt_text(r.html_body) == opt_text(args.body_html),
        r.snippet == context.snippet,
        are_staged(r.attachments@, args.attachments@, paths@),
        r.has_attachments == (args.attachments@.len() > 0),
{
    let row: DraftRow = match args.draft_id {
        Some(id) => DraftRow::Update(
            DraftChange {
                id,
                subject: args.subject.clone(),
                to: copy_addresses(&args.to),
                cc: copy_addresses(&args.cc),
                bcc: copy_addresses(&args.bcc),
                date: context.now,
            },
        ),
        None => {
            let message: NewMessage = NewMessage {
                account_id: args.account_id,
                folder_id: match context.drafts_folder {
                    Some(f) => f,
                    None => 0,
                },
                uid: None,
                message_id: None,
                gm_msgid: None,
                gm_thrid: None,
                subject: args.subject.clone(),
                from: Some(Address { name: None, email: context.account_email.clone() }),
                to: copy_addresses(&args.to),
                cc: copy_addresses(&args.cc),
                bcc: copy_addresses(&args.bcc),
                date: context.now,
                internal_date: None,
                is_read: true,
                is_starred: false,
                is_draft: true,
                is_outgoing: true,
                is_automated: false,
                has_attachments: false,
                size: None,
                snippet: context.snippet.clone(),
                references: Vec::new(),
                list_unsubscribe: None,
                list_unsubscribe_post: None,
                sender_addr: None,
            };
            DraftRow::Insert(
                NewDraft {
                    thread_id: if args.in_reply_to_message_id.is_some() {
                        context.parent_thread
                    } else {
                        None
                    },
                    message,
                    mode: args.mode.clone(),
                    in_reply_to_message_id: args.in_reply_to_message_id,
                },
            )
        },
    };
    DraftSave {
        row,
        text_body: args.body_text.clone(),
        html_body: clone_opt(&args.body_html),
        snippet: context.snippet.clone(),
        attachments: staged(&args.attachments, paths),
        has_attachments: args.attachments.len() > 0,
    }
}

} // verus!
