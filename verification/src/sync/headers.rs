//! Storing fetched headers: what becomes of each header, the row that a new
//! message gets, and who is told about it.

use vstd::prelude::*;

use crate::error::{CoreError, ErrorView};
use crate::lists::{contains_id, push_new, with_new};
use crate::messages::NewMessage;
use crate::models::addresses::{copy_address, push_addresses};
use crate::models::roles::{DRAFTS, SENT};
use crate::models::Address;
use crate::text::{
    concat2, decimal_int, i64_text, lowercase, opt_text, owned, unicode_lower,
};

verus! {

/// A message older than this never triggers the new-mail chime/notification,
/// even if it lands unread - catches UIDVALIDITY resets and server-side moves
/// replaying old mail as new-to-the-folder UIDs.
pub const CHIME_RECENT_MS: i64 = 86_400_000;

/// A header that could not be parsed is tried again after this time.
pub const HEADER_RETRY_MS: i64 = 60_000;

/// A UID that the server no longer returns is tried again after this time.
pub const VANISHED_RETRY_MS: i64 = 300_000;

/// What the server says of a message besides its header.
#[derive(Debug, Clone, Copy, PartialEq, Eq, Structural)]
pub struct FetchedHeader {
    pub uid: u32,
    pub internal_date_ms: Option<i64>,
    pub seen: bool,
    pub flagged: bool,
    pub draft: bool,
    pub size: Option<u32>,
    pub has_attachments: bool,
    /// A MIME plan came with the header.
    pub has_plan: bool,
}

/// What a header says.
#[derive(Debug)]
pub struct ParsedHeader {
    pub message_id: Option<String>,
    pub subject: String,
    pub from: Option<Address>,
    pub to: Vec<Address>,
    pub cc: Vec<Address>,
    pub bcc: Vec<Address>,
    pub date_ms: Option<i64>,
    pub is_automated: bool,
    pub references: Vec<String>,
    pub list_unsubscribe: Option<String>,
    pub list_unsubscribe_post: Option<String>,
    pub via: Option<String>,
}

// ---------------------------------------------------------------------------
// What becomes of a header
// ---------------------------------------------------------------------------

/// What becomes of a fetched header.
#[derive(Debug, Clone, Copy, PartialEq, Eq, Structural)]
pub enum HeaderFate {
    /// The UID is known: its plan and its unsubscribe headers are filled in.
    Refresh { message_id: i64, set_plan: bool, set_unsubscribe: bool },
    /// The header cannot be parsed; it is on record and tried again.
    RetryLater { retry_ms: i64 },
    /// The message is known under its Message-ID (e.g. our own sent message
    /// APPENDed earlier, or Gmail label duplication): it is not stored twice,
    /// and takes this place where it has none yet.
    Link { message_id: i64, set_location: bool, set_plan: bool },
    /// The message is new.
    Insert,
}

/// The rule: `known` is the row of the UID, `same_message` the row of the
/// Message-ID with its UID, `parsed` the header where it can be parsed.
pub open spec fn fate_of(
    known: Option<i64>,
    same_message: Option<(i64, Option<i64>)>,
    parsed: Option<ParsedHeader>,
    has_plan: bool,
) -> HeaderFate {
    match (known, parsed) {
        (Some(message_id), _) => HeaderFate::Refresh {
            message_id,
            set_plan: has_plan,
            set_unsubscribe: parsed matches Some(p) && (p.list_unsubscribe is Some
                || p.list_unsubscribe_post is Some),
        },
        (None, None) => HeaderFate::RetryLater { retry_ms: HEADER_RETRY_MS },
        (None, Some(p)) => match same_message {
            Some((message_id, uid)) if p.message_id is Some => HeaderFate::Link {
                message_id,
                set_location: uid is None,
                set_plan: has_plan,
            },
            _ => HeaderFate::Insert,
        },
    }
}

pub fn header_fate(
    known: Option<i64>,
    same_message: Option<(i64, Option<i64>)>,
    parsed: Option<&ParsedHeader>,
    has_plan: bool,
) -> (r: HeaderFate)
    ensures
        r == fate_of(known, same_message, crate::actions::owned_ref(parsed), has_plan),
{
    match known {
        Some(message_id) => {
            let set_unsubscribe: bool = match parsed {
                Some(p) => p.list_unsubscribe.is_some() || p.list_unsubscribe_post.is_some(),
                None => false,
            };
            HeaderFate::Refresh { message_id, set_plan: has_plan, set_unsubscribe }
        },
        None => match parsed {
            None => HeaderFate::RetryLater { retry_ms: HEADER_RETRY_MS },
            Some(p) => match same_message {
                Some((message_id, uid)) => if p.message_id.is_some() {
                    HeaderFate::Link {
                        message_id,
                        set_location: uid.is_none(),
                        set_plan: has_plan,
                    }
                } else {
                    HeaderFate::Insert
                },
                None => HeaderFate::Insert,
            },
        },
    }
}

/// A message that is already stored is never stored again, and one that has a
/// place on the server is not moved by seeing it a second time.
pub proof fn stored_messages_are_not_duplicated(
    known: Option<i64>,
    same_message: Option<(i64, Option<i64>)>,
    parsed: Option<ParsedHeader>,
    has_plan: bool,
)
    ensures
        known is Some ==> fate_of(known, same_message, parsed, has_plan) is Refresh,
        same_message is Some && parsed is Some && parsed->0.message_id is Some ==> !(fate_of(
            known,
            same_message,
            parsed,
            has_plan,
        ) is Insert),
        fate_of(known, same_message, parsed, has_plan) matches HeaderFate::Link {
            set_location,
            ..
        } ==> set_location == ((same_message->0).1 is None),
        fate_of(known, same_message, parsed, has_plan) is Insert ==> known is None && parsed is Some,
{
}

/// What becomes of a header, for each that there can be: a UID that is known is
/// refreshed in its own row, a message that is known under its Message-ID is
/// linked to its own row, what cannot be parsed is tried again, and all the rest
/// is stored. A plan that came along is kept with a row that is there already,
/// and so are unsubscribe headers.
pub proof fn every_header_has_its_fate(
    known: Option<i64>,
    same_message: Option<(i64, Option<i64>)>,
    parsed: Option<ParsedHeader>,
    has_plan: bool,
    fate: HeaderFate,
)
    requires
        fate == fate_of(known, same_message, parsed, has_plan),
    ensures
        known matches Some(id) ==> (fate matches HeaderFate::Refresh {
            message_id,
            set_plan,
            set_unsubscribe,
        } && message_id == id && set_plan == has_plan && (set_unsubscribe <==> parsed is Some && (
        parsed->0.list_unsubscribe is Some || parsed->0.list_unsubscribe_post is Some))),
        fate is Refresh ==> known is Some,
        fate is RetryLater <==> known is None && parsed is None,
        fate is Link <==> known is None && parsed is Some && parsed->0.message_id is Some
            && same_message is Some,
        fate matches HeaderFate::Link { message_id, set_location, set_plan } ==> message_id
            == (same_message->0).0 && set_plan == has_plan && (set_location <==> (same_message->0).1
            is None),
        fate is Insert <==> known is None && parsed is Some && (parsed->0.message_id is None
            || same_message is None),
{
}

// ---------------------------------------------------------------------------
// New messages
// ---------------------------------------------------------------------------

/// The sender's address, empty where there is none.
pub open spec fn sender(from: Option<Address>) -> Seq<char> {
    match from {
        Some(a) => a.email@,
        None => Seq::empty(),
    }
}

/// The message was sent by the account: its sender is the account's address in
/// any spelling of case, or it lies in the Sent folder.
pub open spec fn outgoing(
    from_lower: Seq<char>,
    account_lower: Seq<char>,
    role: Option<Seq<char>>,
) -> bool {
    from_lower == account_lower || role == Some(SENT@)
}

/// Both addresses in lower case.
pub fn is_outgoing(from_lower: &str, account_lower: &str, role: &Option<String>) -> (r: bool)
    ensures
        r == outgoing(from_lower@, account_lower@, opt_text(*role)),
{
    from_lower.eq(account_lower) || match role {
        Some(s) => s.as_str().eq(SENT),
        None => false,
    }
}

/// The sender's address in lower case, empty where there is none.
pub fn sender_lower(from: &Option<Address>) -> (r: String)
    ensures
        r@ == (match *from {
            Some(a) => unicode_lower(a.email@),
            None => Seq::empty(),
        }),
{
    match from {
        Some(a) => lowercase(a.email.as_str()),
        None => String::new(),
    }
}

/// An account's address in lower case.
pub fn account_lower(email: &str) -> (r: String)
    ensures
        r@ == unicode_lower(email@),
{
    lowercase(email)
}

/// When a message was sent: by its header, else by the server, else now.
pub open spec fn message_date(parsed: Option<i64>, internal: Option<i64>, now: i64) -> i64 {
    match (parsed, internal) {
        (Some(d), _) => d,
        (None, Some(d)) => d,
        (None, None) => now,
    }
}

/// The row of a message that a fetched header describes.
pub open spec fn is_row_of(
    m: NewMessage,
    account_id: i64,
    folder_id: i64,
    role: Option<Seq<char>>,
    sent_by_account: bool,
    h: FetchedHeader,
    p: ParsedHeader,
    now: i64,
) -> bool {
    &&& m.account_id == account_id
    &&& m.folder_id == folder_id
    &&& m.uid == Some(h.uid as i64)
    &&& m.message_id == p.message_id
    &&& m.gm_msgid is None
    &&& m.gm_thrid is None
    &&& m.subject == p.subject
    &&& m.from == p.from
    &&& m.to == p.to
    &&& m.cc == p.cc
    &&& m.bcc == p.bcc
    &&& m.date == message_date(p.date_ms, h.internal_date_ms, now)
    &&& m.internal_date == h.internal_date_ms
    &&& m.is_read == (h.seen || sent_by_account)
    &&& m.is_starred == h.flagged
    &&& m.is_draft == (h.draft || role == Some(DRAFTS@))
    &&& m.is_outgoing == sent_by_account
    &&& m.is_automated == p.is_automated
    &&& m.has_attachments == h.has_attachments
    &&& m.size == (match h.size {
        Some(s) => Some(s as i64),
        None => None,
    })
    &&& m.snippet@.len() == 0
    &&& m.references == p.references
    &&& m.list_unsubscribe == p.list_unsubscribe
    &&& m.list_unsubscribe_post == p.list_unsubscribe_post
    &&& m.sender_addr == p.via
}

/// The row of a message says what the server and the header say. It is read where
/// the server has it as seen or the account sent it, and unread otherwise;
/// starred where it is flagged there; a draft where the server says so or it lies
/// among the drafts. It has its place, its addresses and its date: the header's,
/// else the server's, else the present.
pub proof fn rows_say_what_the_server_says(
    m: NewMessage,
    account_id: i64,
    folder_id: i64,
    role: Option<Seq<char>>,
    sent_by_account: bool,
    h: FetchedHeader,
    p: ParsedHeader,
    now: i64,
)
    requires
        is_row_of(m, account_id, folder_id, role, sent_by_account, h, p, now),
    ensures
        h.seen || sent_by_account ==> m.is_read,
        !h.seen && !sent_by_account ==> !m.is_read,
        m.is_starred <==> h.flagged,
        h.draft || role == Some(DRAFTS@) ==> m.is_draft,
        !h.draft && role != Some(DRAFTS@) ==> !m.is_draft,
        m.is_outgoing <==> sent_by_account,
        m.account_id == account_id && m.folder_id == folder_id && m.uid == Some(h.uid as i64),
        m.from == p.from && m.to@ == p.to@ && m.cc@ == p.cc@ && m.bcc@ == p.bcc@,
        p.date_ms matches Some(d) ==> m.date == d,
        p.date_ms is None && h.internal_date_ms is Some ==> Some(m.date) == h.internal_date_ms,
        p.date_ms is None && h.internal_date_ms is None ==> m.date == now,
        m.list_unsubscribe == p.list_unsubscribe,
        m.list_unsubscribe_post == p.list_unsubscribe_post,
        m.has_attachments == h.has_attachments && m.is_automated == p.is_automated,
        m.subject == p.subject && m.message_id == p.message_id && m.references == p.references,
        m.sender_addr == p.via && m.internal_date == h.internal_date_ms,
        m.snippet@ == Seq::<char>::empty(),
        h.size matches Some(s) ==> m.size == Some(s as i64),
        h.size is None ==> m.size is None,
{
    assert(m.snippet@ =~= Seq::<char>::empty());
}

/// A message is the account's own where its sender is the account or it lies in
/// the Sent folder, and no other is.
pub proof fn own_mail_is_outgoing(
    from_lower: Seq<char>,
    account_lower: Seq<char>,
    role: Option<Seq<char>>,
)
    ensures
        from_lower == account_lower ==> outgoing(from_lower, account_lower, role),
        role == Some(SENT@) ==> outgoing(from_lower, account_lower, role),
        from_lower != account_lower && role != Some(SENT@) ==> !outgoing(
            from_lower,
            account_lower,
            role,
        ),
{
}

/// Where a batch of headers comes from.
#[derive(Debug, Clone)]
pub struct HeaderSource {
    pub account_id: i64,
    /// The account's address in lower case.
    pub account_lower: String,
    pub folder_id: i64,
    pub folder_role: Option<String>,
}

/// The row of a new message; `from_lower` is its sender in lower case.
pub fn new_message(
    source: &HeaderSource,
    h: FetchedHeader,
    p: ParsedHeader,
    from_lower: &str,
    now: i64,
) -> (r: NewMessage)
    ensures
        is_row_of(
            r,
            source.account_id,
            source.folder_id,
            opt_text(source.folder_role),
            outgoing(from_lower@, source.account_lower@, opt_text(source.folder_role)),
            h,
            p,
            now,
        ),
{
    let sent_by_account: bool = is_outgoing(
        from_lower,
        source.account_lower.as_str(),
        &source.folder_role,
    );
    let in_drafts: bool = match &source.folder_role {
        Some(role) => role.as_str().eq(DRAFTS),
        None => false,
    };
    let date: i64 = match (p.date_ms, h.internal_date_ms) {
        (Some(d), _) => d,
        (None, Some(d)) => d,
        (None, None) => now,
    };
    let size: Option<i64> = match h.size {
        Some(s) => Some(s as i64),
        None => None,
    };
    NewMessage {
        account_id: source.account_id,
        folder_id: source.folder_id,
        uid: Some(h.uid as i64),
        message_id: p.message_id,
        gm_msgid: None,
        gm_thrid: None,
        subject: p.subject,
        from: p.from,
        to: p.to,
        cc: p.cc,
        bcc: p.bcc,
        date,
        internal_date: h.internal_date_ms,
        is_read: h.seen || sent_by_account,
        is_starred: h.flagged,
        is_draft: h.draft || in_drafts,
        is_outgoing: sent_by_account,
        is_automated: p.is_automated,
        has_attachments: h.has_attachments,
        size,
        snippet: String::new(),
        references: p.references,
        list_unsubscribe: p.list_unsubscribe,
        list_unsubscribe_post: p.list_unsubscribe_post,
        sender_addr: p.via,
    }
}

/// The row of a new message, whose sender is put into lower case here.
pub fn header_row(source: &HeaderSource, h: FetchedHeader, p: ParsedHeader, now: i64) -> (r:
    NewMessage)
    ensures
        is_row_of(
            r,
            source.account_id,
            source.folder_id,
            opt_text(source.folder_role),
            outgoing(
                (match p.from {
                    Some(a) => unicode_lower(a.email@),
                    None => Seq::empty(),
                }),
                source.account_lower@,
                opt_text(source.folder_role),
            ),
            h,
            p,
            now,
        ),
{
    let from_lower: String = sender_lower(&p.from);
    new_message(source, h, p, from_lower.as_str(), now)
}

/// The contacts that a message teaches: whom the user wrote to, or who wrote
/// to them.
pub fn contacts_to_harvest(m: &NewMessage) -> (r: Vec<Address>)
    ensures
        r@ == (if m.is_outgoing {
            m.to@ + m.cc@
        } else {
            match m.from {
                Some(a) => seq![a],
                None => Seq::empty(),
            }
        }),
        m.is_outgoing ==> r@.len() == m.to@.len() + m.cc@.len(),
        !m.is_outgoing && m.from is Some ==> r@.len() == 1 && r@[0] == m.from->0,
        !m.is_outgoing && m.from is None ==> r@.len() == 0,
{
    let mut out: Vec<Address> = Vec::new();
    if m.is_outgoing {
        proof {
            assert(out@ + m.to@ =~= m.to@);
        }
        push_addresses(&mut out, &m.to);
        push_addresses(&mut out, &m.cc);
    } else {
        if let Some(a) = &m.from {
            out.push(copy_address(a));
        }
    }
    out
}

// ---------------------------------------------------------------------------
// Arrivals
// ---------------------------------------------------------------------------

/// Base candidacy for surfacing a freshly arrived message: unread, incoming,
/// newer than the notify watermark, and genuinely recent (so replayed old UIDs
/// from a UIDVALIDITY reset or a server-side move stay silent). This is scope-
/// agnostic on purpose - the *desktop-notification* scope (Important / all /
/// specific tabs) is applied later, where the thread's resolved tab is known.
pub open spec fn is_arrival(
    notify_min_uid: Option<u32>,
    uid: u32,
    is_read: bool,
    is_outgoing: bool,
    arrival_ms: i64,
    now: i64,
) -> bool {
    &&& notify_min_uid matches Some(min_uid) && uid >= min_uid
    &&& !is_read
    &&& !is_outgoing
    &&& now - arrival_ms < CHIME_RECENT_MS
}

pub fn arrival_eligible(
    notify_min_uid: Option<u32>,
    uid: u32,
    is_read: bool,
    is_outgoing: bool,
    arrival_ms: i64,
    now: i64,
) -> (r: bool)
    ensures
        r == is_arrival(notify_min_uid, uid, is_read, is_outgoing, arrival_ms, now),
{
    let above: bool = match notify_min_uid {
        Some(min_uid) => uid >= min_uid,
        None => false,
    };
    let age: i128 = (now as i128) - (arrival_ms as i128);
    above && !is_read && !is_outgoing && age < 86_400_000
}

/// Nobody is told of mail that is read, that the account sent itself, that was
/// there before the baseline, or that is a day old or older; of all other mail
/// they are.
pub proof fn only_live_mail_is_announced(
    notify_min_uid: Option<u32>,
    uid: u32,
    is_read: bool,
    is_outgoing: bool,
    arrival_ms: i64,
    now: i64,
)
    ensures
        is_read || is_outgoing || notify_min_uid is None || uid < notify_min_uid->0 || now
            - arrival_ms >= 86_400_000 ==> !is_arrival(
            notify_min_uid,
            uid,
            is_read,
            is_outgoing,
            arrival_ms,
            now,
        ),
        !is_read && !is_outgoing && notify_min_uid is Some && uid >= notify_min_uid->0 && now
            - arrival_ms < 86_400_000 ==> is_arrival(
            notify_min_uid,
            uid,
            is_read,
            is_outgoing,
            arrival_ms,
            now,
        ),
{
}

/// Whether a fresh arrival should ring the audible new-mail chime. The chime
/// stays human-only regardless of the desktop-notification scope, so a
/// newsletter/monitoring flood never rings the bell every minute. `robot_sender`
/// says whether the address is one that programs send from.
pub fn chime_worthy(is_automated: bool, robot_sender: bool) -> (r: bool)
    ensures
        r == (!is_automated && !robot_sender),
        is_automated || robot_sender ==> !r,
        !is_automated && !robot_sender ==> r,
{
    !is_automated && !robot_sender
}

/// What a batch of headers has come to so far.
#[derive(Debug, Clone)]
pub struct HeaderBatch {
    /// Threads that gained a message: for list refreshes.
    pub thread_ids: Vec<i64>,
    /// Threads that gained a chime-worthy message.
    pub fresh_ids: Vec<i64>,
    /// Threads already enqueued for a desktop notification, so a thread that
    /// gains several messages in one fetch notifies once.
    pub notified: Vec<i64>,
    pub max_uid: i64,
    pub inserted: u32,
}

/// A message that was just stored.
#[derive(Debug, Clone)]
pub struct Stored {
    pub thread_id: i64,
    pub uid: u32,
    pub is_read: bool,
    pub is_outgoing: bool,
    pub is_automated: bool,
    /// The address is one that programs send from.
    pub robot_sender: bool,
    pub date: i64,
    pub internal_date: Option<i64>,
}

impl Stored {
    /// When the server got the message, else when it was sent.
    pub open spec fn arrived(self) -> i64 {
        match self.internal_date {
            Some(d) => d,
            None => self.date,
        }
    }

    pub open spec fn arrives(self, notify_min_uid: Option<u32>, now: i64) -> bool {
        is_arrival(
            notify_min_uid,
            self.uid,
            self.is_read,
            self.is_outgoing,
            self.arrived(),
            now,
        )
    }
}

impl HeaderBatch {
    pub fn new() -> (r: HeaderBatch)
        ensures
            r.thread_ids@.len() == 0,
            r.fresh_ids@.len() == 0,
            r.notified@.len() == 0,
            r.max_uid == 0,
            r.inserted == 0,
    {
        HeaderBatch {
            thread_ids: Vec::new(),
            fresh_ids: Vec::new(),
            notified: Vec::new(),
            max_uid: 0,
            inserted: 0,
        }
    }

    /// Takes note of a UID, whatever becomes of its header.
    pub fn saw(&mut self, uid: u32)
        ensures
            *final(self) == (HeaderBatch {
                max_uid: if uid > old(self).max_uid {
                    uid as i64
                } else {
                    old(self).max_uid
                },
                ..*old(self)
            }),
    {
        if uid as i64 > self.max_uid {
            self.max_uid = uid as i64;
        }
    }

    /// The highest UID of the batch, up to which the folder has been seen.
    pub fn watermark(&self) -> (r: Option<i64>)
        ensures
            r == (if self.max_uid > 0 {
                Some(self.max_uid)
            } else {
                None
            }),
    {
        if self.max_uid > 0 {
            Some(self.max_uid)
        } else {
            None
        }
    }

    /// Takes note of a message that was stored, and says whether a desktop
    /// notification is enqueued for it (once per thread).
    pub fn stored(&mut self, m: &Stored, notify_min_uid: Option<u32>, now: i64) -> (notify: bool)
        requires
            old(self).inserted < u32::MAX,
        ensures
            final(self).inserted == old(self).inserted + 1,
            final(self).max_uid == old(self).max_uid,
            final(self).thread_ids@ == with_new(old(self).thread_ids@, m.thread_id),
            notify == (m.arrives(notify_min_uid, now) && !old(self).notified@.contains(
                m.thread_id,
            )),
            final(self).notified@ == (if m.arrives(notify_min_uid, now) {
                with_new(old(self).notified@, m.thread_id)
            } else {
                old(self).notified@
            }),
            final(self).fresh_ids@ == (if m.arrives(notify_min_uid, now) && !m.is_automated
                && !m.robot_sender {
                with_new(old(self).fresh_ids@, m.thread_id)
            } else {
                old(self).fresh_ids@
            }),
            notify ==> !m.is_read && !m.is_outgoing && notify_min_uid is Some && m.uid
                >= notify_min_uid->0,
            m.is_read || m.is_outgoing || m.is_automated || m.robot_sender
                ==> final(self).fresh_ids@ == old(self).fresh_ids@,
    {
        self.inserted = self.inserted + 1;
        push_new(&mut self.thread_ids, m.thread_id);
        let arrival_ms: i64 = match m.internal_date {
            Some(d) => d,
            None => m.date,
        };
        if !arrival_eligible(
            notify_min_uid,
            m.uid,
            m.is_read,
            m.is_outgoing,
            arrival_ms,
            now,
        ) {
            return false;
        }
        let known: bool = contains_id(&self.notified, m.thread_id);
        push_new(&mut self.notified, m.thread_id);
        // The audible chime stays human-only regardless of scope.
        if chime_worthy(m.is_automated, m.robot_sender) {
            push_new(&mut self.fresh_ids, m.thread_id);
        }
        !known
    }
}

// ---------------------------------------------------------------------------
// Headers that failed
// ---------------------------------------------------------------------------

/// A recorded failure to store a header.
#[derive(Debug, Clone, Copy, PartialEq, Eq, Structural)]
pub struct HeaderFailure {
    pub folder_id: Option<i64>,
    pub uid: Option<i64>,
}

/// Why a failed header cannot be tried again.
pub open spec fn header_retry_fault(failure: HeaderFailure, folder_known: bool) -> Option<ErrorView> {
    match (failure.folder_id, failure.uid) {
        (None, _) => Some(ErrorView::Other("header retry missing folder"@)),
        (Some(_), None) => Some(ErrorView::Other("header retry missing UID"@)),
        (Some(f), Some(_)) => if folder_known {
            None
        } else {
            Some(ErrorView::NotFound("folder "@ + decimal_int(f as int)))
        },
    }
}

/// The folder and the UID that are fetched once more. `folder_known` says
/// whether the recorded folder is still there.
pub fn retry_one_header_failure(failure: HeaderFailure, folder_known: bool) -> (r: Result<
    (i64, i64),
    CoreError,
>)
    ensures
        r is Ok <==> header_retry_fault(failure, folder_known) is None,
        r is Err ==> header_retry_fault(failure, folder_known) == Some((r->Err_0)@),
        r matches Ok(place) ==> failure.folder_id == Some(place.0) && failure.uid == Some(place.1),
        r is Ok <==> failure.folder_id is Some && failure.uid is Some && folder_known,
        r matches Err(e) ==> (e@ is NotFound <==> failure.folder_id is Some && failure.uid is Some),
{
    match (failure.folder_id, failure.uid) {
        (Some(f), Some(u)) => {
            if folder_known {
                Ok((f, u))
            } else {
                let number: String = i64_text(f);
                Err(CoreError::NotFound(concat2("folder ", number.as_str())))
            }
        },
        (None, _) => Err(CoreError::Other(owned("header retry missing folder"))),
        (Some(_), None) => Err(CoreError::Other(owned("header retry missing UID"))),
    }
}

/// What is recorded where the server no longer returns a UID.
pub const VANISHED: &'static str = "server no longer returns this UID";

/// What follows another fetch of a failed header.
#[derive(Debug, Clone, Copy, PartialEq, Eq, Structural)]
pub enum HeaderRetry {
    /// It is stored like any other.
    Store,
    /// It is tried again at this time.
    WaitUntil(i64),
}

pub fn after_header_retry(returned: usize, now: i64) -> (r: HeaderRetry)
    requires
        now + VANISHED_RETRY_MS <= i64::MAX,
    ensures
        r == (if returned == 0 {
            HeaderRetry::WaitUntil((now + VANISHED_RETRY_MS) as i64)
        } else {
            HeaderRetry::Store
        }),
        returned > 0 <==> r is Store,
        r matches HeaderRetry::WaitUntil(at) ==> at == now + 300_000,
{
    if returned == 0 {
        HeaderRetry::WaitUntil(now + VANISHED_RETRY_MS)
    } else {
        HeaderRetry::Store
    }
}

} // verus!
