//! The message that a send action builds, and what stays of it here.

use vstd::prelude::*;

use crate::actions::PendingAction;
use crate::compose::{is_under, lies_under, missing_attachment};
use crate::error::{CoreError, ErrorView};
use crate::files::{
    after_last, benign_name, extension_mime, mime_guess_from_name, sanitize_attachment_filename,
};
use crate::models::addresses::copy_addresses;
use crate::models::{AccountConfig, Address, AuthKind, MessageDetail};
use crate::queue::{
    check_staged, draft_of, message_id_domain, sender_domain, sent_attachment_dir, ReplyChain,
};
use crate::text::{
    clone_opt, clone_texts, decimal_int, lower, opt_text, texts,
};

verus! {

/// A file that a draft names. The path is the real one, by its parts; the bytes
/// are only read of a file in the staging area.
#[derive(Debug)]
pub struct StagedFile {
    pub filename: String,
    pub path: Result<Vec<String>, String>,
    pub bytes: Result<Vec<u8>, String>,
}

#[derive(Debug)]
pub struct OutgoingAttachment {
    pub filename: String,
    pub mime_type: String,
    pub bytes: Vec<u8>,
}

pub open spec fn is_staged(path: Seq<String>, root: Option<Vec<String>>) -> bool {
    root is Some && is_under(texts(path), texts(root->0@))
}

/// Why a file is not sent: it is not there, it lies outside the staging area,
/// or it cannot be read.
pub open spec fn file_fault(file: StagedFile, root: Option<Vec<String>>) -> Option<ErrorView> {
    let name = file.filename@;
    match file.path {
        Err(e) => Some(ErrorView::Other("attachment "@ + name + ": "@ + e@)),
        Ok(path) => if !is_staged(path@, root) {
            Some(
                ErrorView::Other(
                    "attachment "@ + name + ": refusing to read file outside the staging area"@,
                ),
            )
        } else {
            match file.bytes {
                Err(e) => Some(ErrorView::Other("attachment "@ + name + ": "@ + e@)),
                Ok(_) => None,
            }
        },
    }
}

/// The fault of the first file that has one.
pub open spec fn files_fault(files: Seq<StagedFile>, root: Option<Vec<String>>) -> Option<ErrorView>
    decreases files.len(),
{
    if files.len() == 0 {
        None
    } else {
        match files_fault(files.drop_last(), root) {
            Some(e) => Some(e),
            None => file_fault(files.last(), root),
        }
    }
}

/// That the file is sent as it is, with a type by its name.
pub open spec fn sends(a: OutgoingAttachment, file: StagedFile) -> bool {
    &&& a.filename == file.filename
    &&& a.mime_type@ == extension_mime(lower(after_last(file.filename@, '.')))
    &&& file.bytes is Ok
    &&& a.bytes == file.bytes->Ok_0
}

pub open spec fn sends_all(r: Seq<OutgoingAttachment>, files: Seq<StagedFile>) -> bool {
    &&& r.len() == files.len()
    &&& forall|i: int| 0 <= i < r.len() ==> sends(#[trigger] r[i], files[i])
}

fn check_file(file: &StagedFile, root: &Option<Vec<String>>) -> (r: Result<(), CoreError>)
    ensures
        r is Ok <==> file_fault(*file, *root) is None,
        r is Err ==> file_fault(*file, *root) == Some((r->Err_0)@),
{
    match &file.path {
        Err(e) => Err(missing_attachment(file.filename.as_str(), e.as_str())),
        Ok(path) => {
            let within: bool = match root {
                Some(root) => lies_under(path, root),
                None => false,
            };
            match check_staged(within, file.filename.as_str()) {
                Err(e) => Err(e),
                Ok(_) => match &file.bytes {
                    Err(e) => Err(missing_attachment(file.filename.as_str(), e.as_str())),
                    Ok(_) => Ok(()),
                },
            }
        },
    }
}

proof fn lemma_first_fault(files: Seq<StagedFile>, root: Option<Vec<String>>, k: int)
    requires
        0 <= k <= files.len(),
        files_fault(files.take(k), root) is Some,
    ensures
        files_fault(files, root) == files_fault(files.take(k), root),
    decreases files.len() - k,
{
    if k < files.len() {
        assert(files.take(k + 1).drop_last() =~= files.take(k));
        lemma_first_fault(files, root, k + 1);
    } else {
        assert(files.take(k) =~= files);
    }
}

/// The attachments of a draft as they are sent. One file that cannot be sent
/// stops the whole message.
pub fn outgoing_attachments(files: Vec<StagedFile>, root: &Option<Vec<String>>) -> (r: Result<
    Vec<OutgoingAttachment>,
    CoreError,
>)
    ensures
        r is Ok <==> files_fault(files@, *root) is None,
        r is Err ==> files_fault(files@, *root) == Some((r->Err_0)@),
        r matches Ok(v) ==> sends_all(v@, files@),
{
    let ghost all = files@;
    let mut rest: Vec<StagedFile> = files;
    let mut out: Vec<OutgoingAttachment> = Vec::new();
    let ghost mut done: int = 0;
    while rest.len() > 0
        invariant
            all == files@,
            0 <= done <= all.len(),
            rest@ == all.skip(done),
            files_fault(all.take(done), *root) is None,
            sends_all(out@, all.take(done)),
        decreases rest@.len(),
    {
        proof {
            assert(all.take(done + 1).drop_last() =~= all.take(done));
            assert(all.take(done + 1).last() == rest@[0]);
            assert(rest@.remove(0) =~= all.skip(done + 1));
        }
        let file: StagedFile = rest.remove(0);
        match check_file(&file, root) {
            Err(e) => {
                proof {
                    lemma_first_fault(all, *root, done + 1);
                }
                return Err(e);
            },
            Ok(_) => {},
        }
        let mime_type: String = mime_guess_from_name(file.filename.as_str());
        if let Ok(bytes) = file.bytes {
            out.push(OutgoingAttachment { filename: file.filename, mime_type, bytes });
        }
        proof {
            assert(all.take(done + 1) =~= all.take(done).push(all[done]));
            done = done + 1;
        }
    }
    proof {
        assert(all.take(done) =~= all);
    }
    Ok(out)
}

/// Nothing outside the staging area is ever sent.
pub proof fn only_staged_files_are_sent(files: Seq<StagedFile>, root: Option<Vec<String>>, i: int)
    requires
        files_fault(files, root) is None,
        0 <= i < files.len(),
    ensures
        files[i].path is Ok,
        is_staged(files[i].path->Ok_0@, root),
    decreases files.len(),
{
    if i < files.len() - 1 {
        assert(files.drop_last()[i] == files[i]);
        only_staged_files_are_sent(files.drop_last(), root, i);
    }
}

/// The files go out as they are, in their order and under their names, and each of
/// them lies under the staging area, part by part of its path.
pub proof fn files_go_out_as_they_are(
    files: Seq<StagedFile>,
    root: Option<Vec<String>>,
    sent: Seq<OutgoingAttachment>,
    i: int,
    k: int,
)
    requires
        files_fault(files, root) is None,
        sends_all(sent, files),
        0 <= i < files.len(),
        root is Some ==> 0 <= k < root->0@.len(),
    ensures
        sent.len() == files.len(),
        sent[i].filename@ == files[i].filename@,
        files[i].bytes matches Ok(b) && sent[i].bytes == b,
        root is Some,
        k < files[i].path->Ok_0@.len(),
        files[i].path->Ok_0@[k]@ == root->0@[k]@,
{
    only_staged_files_are_sent(files, root, i);
    assert(sends(sent[i], files[i]));
    let path = texts(files[i].path->Ok_0@);
    let up = texts(root->0@);
    assert(path.take(up.len() as int)[k] == up[k]);
}

/// One file that cannot be sent stops the whole message, and only such a file does:
/// one that is not there, that lies outside the staging area, or that cannot be
/// read.
pub proof fn one_bad_file_stops_the_message(files: Seq<StagedFile>, root: Option<Vec<String>>)
    ensures
        files_fault(files, root) is Some <==> exists|i: int|
            0 <= i < files.len() && ((#[trigger] files[i]).path is Err || files[i].bytes is Err
                || !is_staged(files[i].path->Ok_0@, root)),
    decreases files.len(),
{
    if files.len() > 0 {
        let n = files.len() - 1;
        let front = files.drop_last();
        one_bad_file_stops_the_message(front, root);
        assert(forall|i: int| 0 <= i < n ==> front[i] == #[trigger] files[i]);
        if files_fault(front, root) is Some {
            let i = choose|i: int|
                0 <= i < front.len() && ((#[trigger] front[i]).path is Err || front[i].bytes is Err
                    || !is_staged(front[i].path->Ok_0@, root));
            assert(files[i] == front[i]);
        }
        assert(files[n] == files.last());
    }
}

/// A message to be built and sent.
#[derive(Debug)]
pub struct OutgoingMessage {
    pub draft_id: i64,
    pub from: Address,
    pub to: Vec<Address>,
    pub cc: Vec<Address>,
    pub bcc: Vec<Address>,
    pub subject: String,
    pub body_text: String,
    pub body_html: Option<String>,
    pub in_reply_to: Option<String>,
    pub references: Vec<String>,
    pub message_id_domain: String,
    pub attachments: Vec<OutgoingAttachment>,
}

/// Why no message is built.
pub open spec fn outgoing_fault(
    action: PendingAction,
    files: Seq<StagedFile>,
    root: Option<Vec<String>>,
) -> Option<ErrorView> {
    if action.payload.draft_id is None {
        Some(ErrorView::Other("send action without draftId"@))
    } else {
        files_fault(files, root)
    }
}

/// The message of a send action: the draft, in the account's name, answering
/// what it answers, with its staged files.
pub fn outgoing_message(
    action: &PendingAction,
    config: &AccountConfig,
    draft: &MessageDetail,
    bcc: &Vec<Address>,
    chain: &ReplyChain,
    files: Vec<StagedFile>,
    root: &Option<Vec<String>>,
) -> (r: Result<OutgoingMessage, CoreError>)
    ensures
        r is Ok <==> outgoing_fault(*action, files@, *root) is None,
        r is Ok <==> action.payload.draft_id is Some && files_fault(files@, *root) is None,
        r is Err ==> outgoing_fault(*action, files@, *root) == Some((r->Err_0)@),
        r matches Ok(m) ==> {
            &&& Some(m.draft_id) == action.payload.draft_id
            &&& m.from == (Address { name: config.display_name, email: config.email })
            &&& m.to@ == draft.to@
            &&& m.cc@ == draft.cc@
            &&& m.bcc@ == bcc@
            &&& m.subject@ == draft.subject@
            &&& m.body_text@ == (match draft.text_body {
                Some(t) => t@,
                None => Seq::<char>::empty(),
            })
            &&& opt_text(m.body_html) == opt_text(draft.html_body)
            &&& opt_text(m.in_reply_to) == opt_text(chain.in_reply_to)
            &&& texts(m.references@) == texts(chain.references@)
            &&& m.message_id_domain@ == sender_domain(config.email@)
            &&& sends_all(m.attachments@, files@)
        },
{
    let draft_id: i64 = match draft_of(action) {
        Ok(id) => id,
        Err(e) => {
            return Err(e);
        },
    };
    let attachments: Vec<OutgoingAttachment> = match outgoing_attachments(files, root) {
        Ok(v) => v,
        Err(e) => {
            return Err(e);
        },
    };
    Ok(
        OutgoingMessage {
            draft_id,
            from: Address {
                name: match &config.display_name {
                    Some(n) => Some(n.clone()),
                    None => None,
                },
                email: config.email.clone(),
            },
            to: copy_addresses(&draft.to),
            cc: copy_addresses(&draft.cc),
            bcc: copy_addresses(bcc),
            subject: draft.subject.clone(),
            body_text: match &draft.text_body {
                Some(t) => t.clone(),
                None => String::new(),
            },
            body_html: clone_opt(&draft.html_body),
            in_reply_to: clone_opt(&chain.in_reply_to),
            references: clone_texts(&chain.references),
            message_id_domain: message_id_domain(config.email.as_str()),
            attachments,
        },
    )
}

/// What signs in to the outgoing server.
#[derive(Debug, Clone, Copy, PartialEq, Eq, Structural)]
pub enum SmtpLogin {
    Password,
    XOAuth2,
}

pub fn smtp_login(kind: AuthKind) -> (r: SmtpLogin)
    ensures
        r == (match kind {
            AuthKind::Password => SmtpLogin::Password,
            AuthKind::Oauth2 => SmtpLogin::XOAuth2,
        }),
        kind is Password <==> r is Password,
{
    match kind {
        AuthKind::Password => SmtpLogin::Password,
        AuthKind::Oauth2 => SmtpLogin::XOAuth2,
    }
}

/// A file of a sent message that is kept here, so that the message shows it
/// before the Sent folder is synced.
#[derive(Debug)]
pub struct KeptAttachment {
    /// Below the attachment cache of the account.
    pub dir: String,
    pub file_name: String,
    pub filename: String,
    pub mime_type: String,
    pub size: i64,
}

/// That the file is kept under its own directory and a benign name.
pub open spec fn keeps(k: KeptAttachment, a: OutgoingAttachment, draft_id: i64, i: int) -> bool {
    &&& k.dir@ == "sent-"@ + decimal_int(draft_id as int) + "-"@ + decimal_int(i)
    &&& k.file_name@ == benign_name(a.filename@)
    &&& k.filename == a.filename
    &&& k.mime_type == a.mime_type
    &&& k.size == a.bytes@.len()
}

pub fn kept_attachments(draft_id: i64, attachments: &Vec<OutgoingAttachment>) -> (r: Vec<
    KeptAttachment,
>)
    requires
        forall|i: int|
            0 <= i < attachments@.len() ==> (#[trigger] attachments@[i]).bytes@.len() <= i64::MAX,
    ensures
        r@.len() == attachments@.len(),
        forall|i: int| 0 <= i < r@.len() ==> keeps(#[trigger] r@[i], attachments@[i], draft_id, i),
{
    let mut out: Vec<KeptAttachment> = Vec::new();
    let mut i: usize = 0;
    while i < attachments.len()
        invariant
            i <= attachments@.len(),
            out@.len() == i,
            forall|i: int|
                0 <= i < attachments@.len() ==> (#[trigger] attachments@[i]).bytes@.len()
                    <= i64::MAX,
            forall|k: int| 0 <= k < i ==> keeps(#[trigger] out@[k], attachments@[k], draft_id, k),
        decreases attachments@.len() - i,
    {
        let a: &OutgoingAttachment = &attachments[i];
        let size: i64 = a.bytes.len() as i64;
        out.push(
            KeptAttachment {
                dir: sent_attachment_dir(draft_id, i as u64),
                file_name: sanitize_attachment_filename(a.filename.as_str()),
                filename: a.filename.clone(),
                mime_type: a.mime_type.clone(),
                size,
            },
        );
        i = i + 1;
    }
    out
}

} // verus!
