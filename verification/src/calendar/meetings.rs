//! Meetings: creating, answering, changing and cancelling them, and the mail
//! that tells the others.

use vstd::prelude::*;

use crate::calendar::connect::CalPush;
use crate::calendar::{
    are_attendees, attendees_of, check_event, event_fault, DEFAULT_LENGTH_MS,
};
use crate::error::{CoreError, ErrorView};
use crate::models::addresses::copy_addresses;
use crate::models::{
    Account, Address, CalendarEvent, CreateEventArgs, DraftAttachmentIn, EventAttendee, Provider,
    QueueSendArgs, RsvpEventArgs, SaveDraftArgs, UpdateEventArgs,
};
use crate::text::{
    blank, clone_opt, concat2, concat3, decimal_int, i64_text, is_blank, lower, opt_text, owned,
    trim, trim_str,
};

verus! {

/// What an invitation, its update or its cancellation says of the event.
#[derive(Debug, Clone)]
pub struct InviteSpec {
    pub uid: String,
    pub sequence: i64,
    pub summary: String,
    pub description: Option<String>,
    pub location: Option<String>,
    pub join_url: Option<String>,
    pub organizer: Address,
    pub attendees: Vec<Address>,
    pub starts_at_ms: i64,
    pub ends_at_ms: i64,
}

/// A mail that carries a calendar part.
#[derive(Debug, Clone)]
pub struct CalendarMail {
    pub to: Vec<Address>,
    pub subject: String,
    pub body_text: String,
}

// ---------------------------------------------------------------------------
// The text of an invitation
// ---------------------------------------------------------------------------

pub const DAY_FORMAT: &'static str = "%a, %b %e, %Y";

pub const MINUTE_FORMAT: &'static str = "%a, %b %e, %Y at %H:%M";

/// A time, in milliseconds since 1970, written out at an offset of so many
/// seconds from UTC. No text for a time that chrono cannot hold.
pub uninterp spec fn time_text(ms: i64, offset: i32, format: Seq<char>) -> Seq<char>;

/// An offset from UTC: less than a day either way.
pub open spec fn is_offset(offset: i32) -> bool {
    -86_400 < offset < 86_400
}

/// The offset of the machine's time zone at a time, in seconds:
/// `chrono::TimeZone::timestamp_millis_opt` of `chrono::Local`, and
/// `FixedOffset::local_minus_utc` of what it gives; 0 for a time that chrono
/// cannot hold. Which offset it is depends on the machine, so only its range is
/// claimed.
#[verifier::external_body]
fn local_offset(ms: i64) -> (r: i32)
    ensures
        is_offset(r),
{
    match chrono::TimeZone::timestamp_millis_opt(&chrono::Local, ms).earliest() {
        Some(at) => at.offset().local_minus_utc(),
        None => 0,
    }
}

/// `chrono::TimeZone::timestamp_millis_opt` of a `chrono::FixedOffset`,
/// formatted with `DateTime::format`: the text depends on the time, the offset
/// and the format alone. What it is is left to the name.
#[verifier::external_body]
fn text_at(ms: i64, offset: i32, format: &str) -> (r: String)
    requires
        is_offset(offset),
        format@ == DAY_FORMAT@ || format@ == MINUTE_FORMAT@,
    ensures
        r@ == time_text(ms, offset, format@),
{
    match chrono::FixedOffset::east_opt(offset) {
        Some(zone) => match chrono::TimeZone::timestamp_millis_opt(&zone, ms).earliest() {
            Some(at) => at.format(format).to_string(),
            None => String::new(),
        },
        None => String::new(),
    }
}

/// A line of the invitation; none for a field that is missing or empty.
pub open spec fn invite_line(label: Seq<char>, field: Option<String>) -> Seq<char> {
    match field {
        Some(s) => if s@.len() > 0 {
            label + s@ + "\n"@
        } else {
            Seq::empty()
        },
        None => Seq::empty(),
    }
}

/// The text of an invitation to a meeting between the two given times.
pub open spec fn invite_text(args: CreateEventArgs, from: Seq<char>, until: Seq<char>) -> Seq<
    char,
> {
    "You are invited: "@ + trim(args.summary@) + "\n\nWhen: "@ + from + " - "@ + until + "\n"@
        + invite_line("Where: "@, args.location) + invite_line("Join: "@, args.join_url)
        + invite_line("\n"@, args.description)
}

/// An invitation says what, from when until when, and, where they are given, where,
/// how to join and what about: in this order, and nothing of a field that is empty.
pub proof fn invitations_say_what_matters(
    args: CreateEventArgs,
    from: Seq<char>,
    until: Seq<char>,
    place: Seq<char>,
    link: Seq<char>,
    about: Seq<char>,
)
    requires
        place == (if args.location is Some && args.location->0@.len() > 0 {
            "Where: "@ + args.location->0@ + "\n"@
        } else {
            Seq::empty()
        }),
        link == (if args.join_url is Some && args.join_url->0@.len() > 0 {
            "Join: "@ + args.join_url->0@ + "\n"@
        } else {
            Seq::empty()
        }),
        about == (if args.description is Some && args.description->0@.len() > 0 {
            "\n"@ + args.description->0@ + "\n"@
        } else {
            Seq::empty()
        }),
    ensures
        invite_text(args, from, until) == "You are invited: "@ + trim(args.summary@)
            + "\n\nWhen: "@ + from + " - "@ + until + "\n"@ + place + link + about,
{
}

fn push_line(out: &mut String, label: &str, field: &Option<String>)
    ensures
        final(out)@ == old(out)@ + invite_line(label@, *field),
{
    if let Some(s) = field {
        proof {
            reveal_strlit("");
        }
        if !s.as_str().eq("") {
            proof {
                assert(s@.len() == 0 ==> s@ =~= ""@);
            }
            out.push_str(label);
            out.push_str(s.as_str());
            out.push_str("\n");
            proof {
                assert(out@ =~= old(out)@ + (label@ + s@ + "\n"@));
            }
            return;
        }
    }
    proof {
        assert(out@ =~= old(out)@ + Seq::<char>::empty());
    }
}

/// The text of an invitation between two times that are already written out.
pub fn invite_text_between(args: &CreateEventArgs, from: &str, until: &str) -> (r: String)
    ensures
        r@ == invite_text(*args, from@, until@),
{
    let summary: String = trim_str(args.summary.as_str());
    let mut out: String = owned("You are invited: ");
    out.push_str(summary.as_str());
    out.push_str("\n\nWhen: ");
    out.push_str(from);
    out.push_str(" - ");
    out.push_str(until);
    out.push_str("\n");
    push_line(&mut out, "Where: ", &args.location);
    push_line(&mut out, "Join: ", &args.join_url);
    push_line(&mut out, "\n", &args.description);
    out
}

/// How the times of a meeting are written: by the day where it takes whole
/// days, else to the minute.
pub open spec fn time_format(args: CreateEventArgs) -> Seq<char> {
    if args.all_day {
        DAY_FORMAT@
    } else {
        MINUTE_FORMAT@
    }
}

/// The text of an invitation with its start and its end written out at the two
/// given offsets from UTC.
pub open spec fn invite_text_at(args: CreateEventArgs, a: i32, b: i32) -> Seq<char> {
    invite_text(
        args,
        time_text(args.starts_at, a, time_format(args)),
        time_text(args.ends_at, b, time_format(args)),
    )
}

/// A meeting of whole days is written by the day and any other to the minute, from
/// its own start to its own end.
pub proof fn invitations_say_when(args: CreateEventArgs, a: i32, b: i32)
    ensures
        args.all_day ==> invite_text_at(args, a, b) == invite_text(
            args,
            time_text(args.starts_at, a, "%a, %b %e, %Y"@),
            time_text(args.ends_at, b, "%a, %b %e, %Y"@),
        ),
        !args.all_day ==> invite_text_at(args, a, b) == invite_text(
            args,
            time_text(args.starts_at, a, "%a, %b %e, %Y at %H:%M"@),
            time_text(args.ends_at, b, "%a, %b %e, %Y at %H:%M"@),
        ),
{
}

/// That the text is an invitation to the meeting, from its start to its end,
/// whatever the offset of the machine's time zone is at these two times.
pub open spec fn is_invite_text(text: Seq<char>, args: CreateEventArgs) -> bool {
    exists|a: i32, b: i32|
        is_offset(a) && is_offset(b) && text == #[trigger] invite_text_at(args, a, b)
}

/// The text of an invitation with its times at the two given offsets from UTC.
pub fn invite_body_text_at(args: &CreateEventArgs, start_offset: i32, end_offset: i32) -> (r:
    String)
    requires
        is_offset(start_offset),
        is_offset(end_offset),
    ensures
        r@ == invite_text_at(*args, start_offset, end_offset),
{
    let format: &str = if args.all_day {
        DAY_FORMAT
    } else {
        MINUTE_FORMAT
    };
    let from: String = text_at(args.starts_at, start_offset, format);
    let until: String = text_at(args.ends_at, end_offset, format);
    invite_text_between(args, from.as_str(), until.as_str())
}

/// The text of an invitation, with the times in the machine's time zone.
pub fn invite_body_text(args: &CreateEventArgs) -> (r: String)
    ensures
        is_invite_text(r@, *args),
{
    let start_offset: i32 = local_offset(args.starts_at);
    let end_offset: i32 = local_offset(args.ends_at);
    invite_body_text_at(args, start_offset, end_offset)
}

// ---------------------------------------------------------------------------
// Creating
// ---------------------------------------------------------------------------

/// A meeting to store.
#[derive(Debug)]
pub struct EventCreation {
    pub uid: String,
    pub summary: String,
    pub organizer_email: String,
    pub attendees: Vec<EventAttendee>,
    /// The invitation to send, where anyone is invited.
    pub invite: Option<(CalendarMail, InviteSpec)>,
    /// Outlook is told directly: Microsoft has no CalDAV endpoint, and where no
    /// calendar is connected nothing else writes the event there.
    pub tell_outlook: bool,
}

fn organizer_of(account: &Account) -> (r: Address)
    ensures
        r == (Address { name: account.display_name, email: account.email }),
{
    Address {
        name: match &account.display_name {
            Some(n) => Some(n.clone()),
            None => None,
        },
        email: account.email.clone(),
    }
}

/// That the invitation says what was asked for, in the account's name.
pub open spec fn invites(
    i: InviteSpec,
    args: CreateEventArgs,
    uid: Seq<char>,
    sequence: i64,
    account: Account,
) -> bool {
    &&& i.uid@ == uid
    &&& i.sequence == sequence
    &&& i.summary@ == trim(args.summary@)
    &&& opt_text(i.description) == opt_text(args.description)
    &&& opt_text(i.location) == opt_text(args.location)
    &&& opt_text(i.join_url) == opt_text(args.join_url)
    &&& i.organizer == (Address { name: account.display_name, email: account.email })
    &&& i.attendees@ == args.attendees@
    &&& i.starts_at_ms == args.starts_at
    &&& i.ends_at_ms == args.ends_at
}

/// The invitation is the meeting that was asked for: from its start to its end, to
/// everyone who is invited, in the name of the account that invites.
pub proof fn invitations_are_the_meeting(
    i: InviteSpec,
    args: CreateEventArgs,
    uid: Seq<char>,
    sequence: i64,
    account: Account,
)
    requires
        invites(i, args, uid, sequence, account),
    ensures
        i.starts_at_ms == args.starts_at && i.ends_at_ms == args.ends_at,
        i.attendees@ == args.attendees@,
        i.organizer.email@ == account.email@,
        i.uid@ == uid && i.sequence == sequence,
        opt_text(i.location) == opt_text(args.location),
        opt_text(i.join_url) == opt_text(args.join_url),
        opt_text(i.description) == opt_text(args.description),
{
}

fn invite_of(args: &CreateEventArgs, uid: &str, sequence: i64, account: &Account) -> (r: InviteSpec)
    ensures
        invites(r, *args, uid@, sequence, *account),
{
    InviteSpec {
        uid: owned(uid),
        sequence,
        summary: trim_str(args.summary.as_str()),
        description: clone_opt(&args.description),
        location: clone_opt(&args.location),
        join_url: clone_opt(&args.join_url),
        organizer: organizer_of(account),
        attendees: copy_addresses(&args.attendees),
        starts_at_ms: args.starts_at,
        ends_at_ms: args.ends_at,
    }
}

/// Why a meeting is not created.
pub open spec fn creation_fault(args: CreateEventArgs, account: Option<&Account>) -> Option<
    ErrorView,
> {
    match event_fault(args.summary@, args.starts_at, args.ends_at) {
        Some(e) => Some(e),
        None => if account is None {
            Some(ErrorView::NotFound("account"@))
        } else {
            None
        },
    }
}

/// A meeting is created exactly where it has a title, ends after it starts, and its
/// account is there.
pub proof fn meetings_need_a_title_a_length_and_an_account(
    args: CreateEventArgs,
    account: Option<&Account>,
)
    ensures
        creation_fault(args, account) is None <==> !is_blank(args.summary@) && args.starts_at
            < args.ends_at && account is Some,
{
}

/// Two events made here have different identities where they are made with different
/// tokens at one time.
pub proof fn events_have_their_own_identity(now: i64, a: Seq<char>, b: Seq<char>)
    requires
        event_uid(now, a) == event_uid(now, b),
    ensures
        a == b,
{
    let head = decimal_int(now as int) + "-"@;
    let x = event_uid(now, a);
    let n = head.len() as int;
    let end = x.len() - "@comail"@.len();
    assert(a =~= x.subrange(n, end));
    assert(b =~= event_uid(now, b).subrange(n, end));
}

/// The identity of an event made here.
pub open spec fn event_uid(now: i64, token: Seq<char>) -> Seq<char> {
    decimal_int(now as int) + "-"@ + token + "@comail"@
}

/// What creating a meeting stores and sends. The event is stored at once; where
/// it has attendees, an invitation goes out like any other mail.
pub fn create_event(
    args: &CreateEventArgs,
    account: Option<&Account>,
    now: i64,
    token: &str,
    connected: bool,
) -> (r: Result<EventCreation, CoreError>)
    ensures
        r is Ok <==> creation_fault(*args, account) is None,
        r is Err ==> creation_fault(*args, account) == Some((r->Err_0)@),
        r matches Ok(c) ==> {
            &&& c.uid@ == event_uid(now, token@)
            &&& c.uid@ == decimal_int(now as int) + "-"@ + token@ + "@comail"@
            &&& c.summary@ == trim(args.summary@)
            &&& c.organizer_email@ == account->0.email@
            &&& are_attendees(c.attendees@, args.attendees@, Seq::empty())
            &&& c.invite is Some <==> args.attendees@.len() > 0
            &&& c.invite matches Some(mail) ==> {
                &&& mail.0.to@ == args.attendees@
                &&& mail.0.subject@ == "Invitation: "@ + trim(args.summary@)
                &&& is_invite_text(mail.0.body_text@, *args)
                &&& invites(mail.1, *args, event_uid(now, token@), 0, *account->0)
            }
            &&& c.tell_outlook == (account->0.provider == Provider::Microsoft && !connected)
        },
{
    match check_event(args.summary.as_str(), args.starts_at, args.ends_at) {
        Ok(_) => {},
        Err(e) => {
            return Err(e);
        },
    }
    let account: &Account = match account {
        Some(a) => a,
        None => {
            return Err(CoreError::NotFound(owned("account")));
        },
    };
    let stamp: String = i64_text(now);
    let head: String = concat3(stamp.as_str(), "-", token);
    let uid: String = concat2(head.as_str(), "@comail");
    let summary: String = trim_str(args.summary.as_str());
    let nobody: Vec<EventAttendee> = Vec::new();
    let attendees: Vec<EventAttendee> = attendees_of(&args.attendees, &nobody);
    let invite: Option<(CalendarMail, InviteSpec)> = if args.attendees.len() > 0 {
        let mail: CalendarMail = CalendarMail {
            to: copy_addresses(&args.attendees),
            subject: concat2("Invitation: ", summary.as_str()),
            body_text: invite_body_text(args),
        };
        Some((mail, invite_of(args, uid.as_str(), 0, account)))
    } else {
        None
    };
    let microsoft: bool = match account.provider {
        Provider::Microsoft => true,
        _ => false,
    };
    Ok(
        EventCreation {
            uid,
            summary,
            organizer_email: account.email.clone(),
            attendees,
            invite,
            tell_outlook: microsoft && !connected,
        },
    )
}

/// The body of the event in Outlook: the description, with the link to join
/// folded in.
pub open spec fn outlook_text(description: Option<Seq<char>>, join_url: Option<Seq<char>>) -> Option<
    Seq<char>,
> {
    match join_url {
        Some(url) => Some(
            (match description {
                Some(d) => d,
                None => Seq::empty(),
            }) + "<p><a href=\""@ + url + "\">Join the meeting</a></p>"@,
        ),
        None => match description {
            Some(d) => if is_blank(d) {
                None
            } else {
                Some(d)
            },
            None => None,
        },
    }
}

pub fn outlook_body(description: &Option<String>, join_url: &Option<String>) -> (r: Option<String>)
    ensures
        opt_text(r) == outlook_text(opt_text(*description), opt_text(*join_url)),
        join_url is None && description is None ==> r is None,
        join_url is None ==> (description matches Some(d) ==> if is_blank(d@) {
            r is None
        } else {
            r is Some && r->0@ == d@
        }),
        description is None ==> (join_url matches Some(url) ==> r is Some && r->0@ == "<p><a href=\""@
            + url@ + "\">Join the meeting</a></p>"@),
        description matches Some(d) ==> join_url matches Some(url) ==> r is Some && r->0@ == d@
            + "<p><a href=\""@ + url@ + "\">Join the meeting</a></p>"@,
{
    match join_url {
        Some(url) => {
            let mut out: String = match description {
                Some(d) => d.clone(),
                None => String::new(),
            };
            out.push_str("<p><a href=\"");
            out.push_str(url.as_str());
            out.push_str("\">Join the meeting</a></p>");
            Some(out)
        },
        None => match description {
            Some(d) => {
                if blank(d.as_str()) {
                    None
                } else {
                    Some(d.clone())
                }
            },
            None => None,
        },
    }
}

// ---------------------------------------------------------------------------
// Answering
// ---------------------------------------------------------------------------

#[derive(Debug, Clone, Copy, PartialEq, Eq, Structural)]
pub enum Rsvp {
    Accepted,
    Tentative,
    Declined,
}

impl Rsvp {
    /// The answer as the client names it.
    pub open spec fn word(self) -> Seq<char> {
        match self {
            Rsvp::Accepted => "accepted"@,
            Rsvp::Tentative => "tentative"@,
            Rsvp::Declined => "declined"@,
        }
    }

    /// The answer as a calendar names it.
    pub open spec fn partstat(self) -> Seq<char> {
        match self {
            Rsvp::Accepted => "ACCEPTED"@,
            Rsvp::Tentative => "TENTATIVE"@,
            Rsvp::Declined => "DECLINED"@,
        }
    }

    /// The answer as a title names it.
    pub open spec fn title(self) -> Seq<char> {
        match self {
            Rsvp::Accepted => "Accepted"@,
            Rsvp::Tentative => "Tentative"@,
            Rsvp::Declined => "Declined"@,
        }
    }

    pub fn as_word(self) -> (r: &'static str)
        ensures
            r@ == self.word(),
    {
        match self {
            Rsvp::Accepted => "accepted",
            Rsvp::Tentative => "tentative",
            Rsvp::Declined => "declined",
        }
    }

    pub fn as_partstat(self) -> (r: &'static str)
        ensures
            r@ == self.partstat(),
    {
        match self {
            Rsvp::Accepted => "ACCEPTED",
            Rsvp::Tentative => "TENTATIVE",
            Rsvp::Declined => "DECLINED",
        }
    }

    pub fn as_title(self) -> (r: &'static str)
        ensures
            r@ == self.title(),
    {
        match self {
            Rsvp::Accepted => "Accepted",
            Rsvp::Tentative => "Tentative",
            Rsvp::Declined => "Declined",
        }
    }

    /// Reads an answer as the client names it.
    pub fn parse(word: &str) -> (r: Option<Rsvp>)
        ensures
            r matches Some(a) ==> word@ == a.word(),
            r is None ==> forall|a: Rsvp| word@ != #[trigger] a.word(),
    {
        if word.eq("accepted") {
            Some(Rsvp::Accepted)
        } else if word.eq("tentative") {
            Some(Rsvp::Tentative)
        } else if word.eq("declined") {
            Some(Rsvp::Declined)
        } else {
            None
        }
    }
}

/// Whatever the answer, the client, the calendar and the title name it alike, but
/// for capitals.
pub proof fn answers_are_named_alike(a: Rsvp)
    ensures
        lower(a.partstat()) == a.word(),
        lower(a.title()) == a.word(),
        a is Accepted <==> a.word() == "accepted"@,
        a is Declined <==> a.word() == "declined"@,
{
    reveal_strlit("accepted");
    reveal_strlit("tentative");
    reveal_strlit("declined");
    reveal_strlit("ACCEPTED");
    reveal_strlit("TENTATIVE");
    reveal_strlit("DECLINED");
    reveal_strlit("Accepted");
    reveal_strlit("Tentative");
    reveal_strlit("Declined");
    assert("accepted"@[0] == 'a' && "tentative"@[0] == 't' && "declined"@[0] == 'd');
    assert(lower("ACCEPTED"@) =~= "accepted"@);
    assert(lower("TENTATIVE"@) =~= "tentative"@);
    assert(lower("DECLINED"@) =~= "declined"@);
    assert(lower("Accepted"@) =~= "accepted"@);
    assert(lower("Tentative"@) =~= "tentative"@);
    assert(lower("Declined"@) =~= "declined"@);
}

/// The three answers have three names, so a name is read back as the answer
/// that it was written for.
pub proof fn answers_have_different_words(a: Rsvp, b: Rsvp)
    ensures
        a.word() == b.word() ==> a == b,
{
    reveal_strlit("accepted");
    reveal_strlit("tentative");
    reveal_strlit("declined");
    assert("accepted"@[0] == 'a' && "tentative"@[0] == 't' && "declined"@[0] == 'd');
}

/// An answer to store and, where the event has an organizer, to mail.
#[derive(Debug)]
pub struct RsvpPlan {
    pub answer: Rsvp,
    pub mail: Option<CalendarMail>,
    /// The organizer that the reply names.
    pub organizer: Option<String>,
}

/// The title of an event without one.
pub open spec fn title_of(summary: Option<Seq<char>>) -> Seq<char> {
    match summary {
        Some(s) => s,
        None => "(no title)"@,
    }
}

fn title_text(summary: &Option<String>) -> (r: String)
    ensures
        r@ == title_of(opt_text(*summary)),
{
    match summary {
        Some(s) => s.clone(),
        None => owned("(no title)"),
    }
}

/// Whom an answer is mailed to: the organizer, if the event names one.
pub open spec fn reply_to(event: CalendarEvent) -> Option<Seq<char>> {
    match event.organizer {
        Some(o) => if o@.len() > 0 {
            Some(o@)
        } else {
            None
        },
        None => None,
    }
}

/// Why an answer is not taken.
pub open spec fn rsvp_fault(
    response: Seq<char>,
    event: Option<&CalendarEvent>,
    has_identity: bool,
    account: Option<&Account>,
) -> Option<ErrorView> {
    if forall|a: Rsvp| response != #[trigger] a.word() {
        Some(ErrorView::Other("invalid RSVP response"@))
    } else if event is None || !has_identity {
        Some(ErrorView::NotFound("event"@))
    } else if account is None {
        Some(ErrorView::NotFound("account"@))
    } else {
        None
    }
}

/// An answer is taken exactly where it is one of the three, and the event, its
/// identity and the account are there; it goes to the organizer, where there is
/// one.
pub proof fn answers_reach_the_organizer(
    response: Seq<char>,
    event: Option<&CalendarEvent>,
    has_identity: bool,
    account: Option<&Account>,
)
    ensures
        rsvp_fault(response, event, has_identity, account) is None <==> (response == "accepted"@
            || response == "tentative"@ || response == "declined"@) && event is Some
            && has_identity && account is Some,
        event is Some && event->0.organizer is Some && event->0.organizer->0@.len() > 0
            ==> reply_to(*event->0) == Some(event->0.organizer->0@),
        event is Some && event->0.organizer is None ==> reply_to(*event->0) is None,
        event is Some && event->0.organizer is Some && event->0.organizer->0@.len() == 0
            ==> reply_to(*event->0) is None,
{
    assert(Rsvp::Accepted.word() == "accepted"@);
    assert(Rsvp::Tentative.word() == "tentative"@);
    assert(Rsvp::Declined.word() == "declined"@);
}

/// What answering an invitation stores and sends. The reply goes to the
/// organizer; without one there is nobody to tell, and the answer is only
/// stored. `has_identity` says that the event's UID and sequence are known.
pub fn rsvp_event(
    args: &RsvpEventArgs,
    event: Option<&CalendarEvent>,
    has_identity: bool,
    account: Option<&Account>,
) -> (r: Result<RsvpPlan, CoreError>)
    ensures
        r is Ok <==> rsvp_fault(args.response@, event, has_identity, account) is None,
        r is Err ==> rsvp_fault(args.response@, event, has_identity, account) == Some(
            (r->Err_0)@,
        ),
        r matches Ok(p) ==> {
            &&& p.answer.word() == args.response@
            &&& opt_text(p.organizer) == reply_to(*event->0)
            &&& p.mail is Some <==> reply_to(*event->0) is Some
            &&& p.mail matches Some(m) ==> {
                &&& m.to@.len() == 1
                &&& m.to@[0].name is None
                &&& Some(m.to@[0].email@) == reply_to(*event->0)
                &&& m.subject@ == p.answer.title() + ": "@ + title_of(opt_text(event->0.summary))
                &&& m.body_text@ == account->0.email@ + " has responded "@ + p.answer.word()
                    + " to: "@ + title_of(opt_text(event->0.summary))
            }
        },
{
    let answer: Rsvp = match Rsvp::parse(args.response.as_str()) {
        Some(a) => a,
        None => {
            return Err(CoreError::Other(owned("invalid RSVP response")));
        },
    };
    proof {
        assert(args.response@ == answer.word());
    }
    let event: &CalendarEvent = match event {
        Some(e) => e,
        None => {
            return Err(CoreError::NotFound(owned("event")));
        },
    };
    if !has_identity {
        return Err(CoreError::NotFound(owned("event")));
    }
    let account: &Account = match account {
        Some(a) => a,
        None => {
            return Err(CoreError::NotFound(owned("account")));
        },
    };
    if let Some(o) = &event.organizer {
        proof {
            reveal_strlit("");
        }
        if !o.as_str().eq("") {
            proof {
                assert(o@.len() == 0 ==> o@ =~= ""@);
            }
            let title: String = title_text(&event.summary);
            let mut to: Vec<Address> = Vec::new();
            to.push(Address { name: None, email: o.clone() });
            let head: String = concat3(account.email.as_str(), " has responded ", answer.as_word());
            let mail: CalendarMail = CalendarMail {
                to,
                subject: concat3(answer.as_title(), ": ", title.as_str()),
                body_text: concat3(head.as_str(), " to: ", title.as_str()),
            };
            return Ok(RsvpPlan { answer, mail: Some(mail), organizer: Some(o.clone()) });
        }
    }
    Ok(RsvpPlan { answer, mail: None, organizer: None })
}

// ---------------------------------------------------------------------------
// Changing
// ---------------------------------------------------------------------------

/// What changing an event stores.
#[derive(Debug)]
pub struct EventUpdate {
    pub attendees: Vec<EventAttendee>,
    /// The attendees are told.
    pub notifies: bool,
}

/// Why an event is not changed.
pub open spec fn update_fault(args: UpdateEventArgs, existing: Option<&CalendarEvent>) -> Option<
    ErrorView,
> {
    match event_fault(args.summary@, args.starts_at, args.ends_at) {
        Some(e) => Some(e),
        None => match existing {
            None => Some(ErrorView::NotFound("event"@)),
            Some(e) => if e.is_local {
                None
            } else {
                Some(ErrorView::Other("only events you organize can be edited"@))
            },
        },
    }
}

/// An event is changed exactly where it is there, was made here, keeps a title and
/// ends after it starts.
pub proof fn only_own_events_are_changed(args: UpdateEventArgs, existing: Option<&CalendarEvent>)
    ensures
        update_fault(args, existing) is None <==> !is_blank(args.summary@) && args.starts_at
            < args.ends_at && existing is Some && existing->0.is_local,
{
}

/// What changing an event stores: the answers that attendees already gave are
/// kept.
pub fn update_event(args: &UpdateEventArgs, existing: Option<&CalendarEvent>) -> (r: Result<
    EventUpdate,
    CoreError,
>)
    ensures
        r is Ok <==> update_fault(*args, existing) is None,
        r is Err ==> update_fault(*args, existing) == Some((r->Err_0)@),
        r matches Ok(u) ==> {
            &&& are_attendees(u.attendees@, args.attendees@, existing->0.attendees@)
            &&& u.notifies == (args.notify && args.attendees@.len() > 0)
        },
{
    match check_event(args.summary.as_str(), args.starts_at, args.ends_at) {
        Ok(_) => {},
        Err(e) => {
            return Err(e);
        },
    }
    match existing {
        Some(e) => {
            if !e.is_local {
                return Err(CoreError::Other(owned("only events you organize can be edited")));
            }
            Ok(
                EventUpdate {
                    attendees: attendees_of(&args.attendees, &e.attendees),
                    notifies: args.notify && args.attendees.len() > 0,
                },
            )
        },
        None => Err(CoreError::NotFound(owned("event"))),
    }
}

/// An event's identity among calendars.
#[derive(Debug, Clone)]
pub struct EventIdentity {
    pub uid: String,
    pub sequence: i64,
}

/// Why nobody can be told of a change.
pub open spec fn notice_fault(
    account: Option<&Account>,
    identity: Option<&EventIdentity>,
) -> Option<ErrorView> {
    if account is None {
        Some(ErrorView::NotFound("account"@))
    } else if identity is None {
        Some(ErrorView::NotFound("event"@))
    } else {
        None
    }
}

/// That the event arguments are those of the change.
pub open spec fn same_event_args(c: CreateEventArgs, account_id: i64, u: UpdateEventArgs) -> bool {
    &&& c.account_id == account_id
    &&& c.summary == u.summary
    &&& c.description == u.description
    &&& c.location == u.location
    &&& c.join_url == u.join_url
    &&& c.starts_at == u.starts_at
    &&& c.ends_at == u.ends_at
    &&& c.all_day == u.all_day
    &&& c.attendees@ == u.attendees@
}

fn as_creation(account_id: i64, u: &UpdateEventArgs) -> (r: CreateEventArgs)
    ensures
        same_event_args(r, account_id, *u),
{
    CreateEventArgs {
        account_id,
        summary: u.summary.clone(),
        description: match &u.description {
            Some(s) => Some(s.clone()),
            None => None,
        },
        location: match &u.location {
            Some(s) => Some(s.clone()),
            None => None,
        },
        join_url: match &u.join_url {
            Some(s) => Some(s.clone()),
            None => None,
        },
        starts_at: u.starts_at,
        ends_at: u.ends_at,
        all_day: u.all_day,
        attendees: copy_addresses(&u.attendees),
    }
}

/// The mail that tells the attendees of a change, with the event as it now is.
pub fn update_notice(
    args: &UpdateEventArgs,
    account: Option<&Account>,
    identity: Option<&EventIdentity>,
) -> (r: Result<(CalendarMail, InviteSpec), CoreError>)
    ensures
        r is Ok <==> notice_fault(account, identity) is None,
        r is Ok <==> account is Some && identity is Some,
        r is Err ==> notice_fault(account, identity) == Some((r->Err_0)@),
        r matches Ok(m) ==> {
            &&& m.0.to@ == args.attendees@
            &&& m.0.subject@ == "Updated invitation: "@ + trim(args.summary@)
            &&& exists|c: CreateEventArgs|
                {
                    &&& #[trigger] same_event_args(c, account->0.id, *args)
                    &&& is_invite_text(m.0.body_text@, c)
                    &&& invites(m.1, c, identity->0.uid@, identity->0.sequence, *account->0)
                }
        },
{
    let account: &Account = match account {
        Some(a) => a,
        None => {
            return Err(CoreError::NotFound(owned("account")));
        },
    };
    let identity: &EventIdentity = match identity {
        Some(i) => i,
        None => {
            return Err(CoreError::NotFound(owned("event")));
        },
    };
    let c: CreateEventArgs = as_creation(account.id, args);
    let summary: String = trim_str(args.summary.as_str());
    let mail: CalendarMail = CalendarMail {
        to: copy_addresses(&args.attendees),
        subject: concat2("Updated invitation: ", summary.as_str()),
        body_text: invite_body_text(&c),
    };
    let invite: InviteSpec = invite_of(&c, identity.uid.as_str(), identity.sequence, account);
    proof {
        assert(same_event_args(c, account.id, *args));
    }
    Ok((mail, invite))
}

// ---------------------------------------------------------------------------
// Deleting
// ---------------------------------------------------------------------------

/// What becomes of the row of a deleted event.
#[derive(Debug, Clone, Copy, PartialEq, Eq, Structural)]
pub enum Disposal {
    /// Kept as a tombstone until the server has deleted the event.
    AwaitServer,
    /// Kept as a tombstone for good: the invitation mail is still there, and
    /// reading it again would bring the event back.
    Tombstone,
    /// Removed at once.
    Purge,
}

impl Disposal {
    /// The write that the deletion queues.
    pub fn push(self) -> (r: Option<CalPush>)
        ensures
            r == (if self is AwaitServer {
                Some(CalPush::Delete)
            } else {
                None
            }),
    {
        match self {
            Disposal::AwaitServer => Some(CalPush::Delete),
            _ => None,
        }
    }
}

/// What deleting an event does.
#[derive(Debug, Clone, Copy, PartialEq, Eq, Structural)]
pub struct EventRemoval {
    pub notifies: bool,
    pub disposal: Disposal,
}

pub fn delete_event(event: Option<&CalendarEvent>, notify: bool) -> (r: Result<
    EventRemoval,
    CoreError,
>)
    ensures
        r is Ok <==> event is Some,
        r is Err ==> (r->Err_0)@ == ErrorView::NotFound("event"@),
        r matches Ok(d) ==> {
            &&& d.notifies == (notify && event->0.is_local && event->0.attendees@.len() > 0)
            &&& d.disposal == (if event->0.calendar_id is Some {
                Disposal::AwaitServer
            } else if event->0.message_id is Some {
                Disposal::Tombstone
            } else {
                Disposal::Purge
            })
            &&& d.disposal is AwaitServer <==> event->0.calendar_id is Some
            &&& d.disposal is Purge <==> event->0.calendar_id is None && event->0.message_id is None
            &&& !event->0.is_local || !notify || event->0.attendees@.len() == 0 ==> !d.notifies
        },
{
    match event {
        Some(e) => {
            let disposal: Disposal = if e.calendar_id.is_some() {
                Disposal::AwaitServer
            } else if e.message_id.is_some() {
                Disposal::Tombstone
            } else {
                Disposal::Purge
            };
            Ok(
                EventRemoval {
                    notifies: notify && e.is_local && e.attendees.len() > 0,
                    disposal,
                },
            )
        },
        None => Err(CoreError::NotFound(owned("event"))),
    }
}

pub open spec fn addresses_of(attendees: Seq<EventAttendee>) -> Seq<Address> {
    attendees.map_values(|a: EventAttendee| Address { name: a.name, email: a.email })
}

fn invited(attendees: &Vec<EventAttendee>) -> (r: Vec<Address>)
    ensures
        r@ == addresses_of(attendees@),
{
    let mut out: Vec<Address> = Vec::new();
    let mut i: usize = 0;
    while i < attendees.len()
        invariant
            i <= attendees@.len(),
            out@ == addresses_of(attendees@).take(i as int),
        decreases attendees@.len() - i,
    {
        out.push(
            Address {
                name: match &attendees[i].name {
                    Some(n) => Some(n.clone()),
                    None => None,
                },
                email: attendees[i].email.clone(),
            },
        );
        i = i + 1;
        proof {
            assert(addresses_of(attendees@).take(i as int) =~= addresses_of(attendees@).take(
                i - 1,
            ).push(addresses_of(attendees@)[i - 1]));
        }
    }
    proof {
        assert(addresses_of(attendees@).take(attendees@.len() as int) =~= addresses_of(
            attendees@,
        ));
    }
    out
}

/// The mail that tells the attendees that the event is off. Its sequence is
/// one above the stored one.
pub fn cancel_notice(
    event: &CalendarEvent,
    account: Option<&Account>,
    identity: Option<&EventIdentity>,
) -> (r: Result<(CalendarMail, InviteSpec), CoreError>)
    requires
        event.ends_at is None ==> event.starts_at + DEFAULT_LENGTH_MS <= i64::MAX,
        identity matches Some(i) ==> i.sequence < i64::MAX,
    ensures
        r is Ok <==> notice_fault(account, identity) is None,
        r is Ok <==> account is Some && identity is Some,
        r is Err ==> notice_fault(account, identity) == Some((r->Err_0)@),
        r matches Ok(m) ==> {
            let title = title_of(opt_text(event.summary));
            &&& m.0.to@ == addresses_of(event.attendees@)
            &&& m.0.subject@ == "Cancelled: "@ + title
            &&& m.0.body_text@ == title + " has been cancelled."@
            &&& m.1.uid@ == identity->0.uid@
            &&& m.1.sequence == identity->0.sequence + 1
            &&& m.1.summary@ == title
            &&& m.1.description is None
            &&& opt_text(m.1.location) == opt_text(event.location)
            &&& m.1.join_url is None
            &&& m.1.organizer == (Address {
                name: account->0.display_name,
                email: account->0.email,
            })
            &&& m.1.attendees@ == addresses_of(event.attendees@)
            &&& m.0.to@.len() == event.attendees@.len()
            &&& forall|i: int|
                0 <= i < event.attendees@.len() ==> (#[trigger] m.0.to@[i]).email
                    == event.attendees@[i].email && m.0.to@[i].name == event.attendees@[i].name
            &&& event.summary is None ==> title == "(no title)"@
            &&& event.summary matches Some(s) ==> title == s@
            &&& m.1.starts_at_ms == event.starts_at
            &&& m.1.ends_at_ms == (match event.ends_at {
                Some(end) => end as int,
                None => event.starts_at + DEFAULT_LENGTH_MS,
            })
        },
{
    let account: &Account = match account {
        Some(a) => a,
        None => {
            return Err(CoreError::NotFound(owned("account")));
        },
    };
    let identity: &EventIdentity = match identity {
        Some(i) => i,
        None => {
            return Err(CoreError::NotFound(owned("event")));
        },
    };
    let title: String = title_text(&event.summary);
    let mail: CalendarMail = CalendarMail {
        to: invited(&event.attendees),
        subject: concat2("Cancelled: ", title.as_str()),
        body_text: concat2(title.as_str(), " has been cancelled."),
    };
    let ends_at_ms: i64 = match event.ends_at {
        Some(end) => end,
        None => event.starts_at + DEFAULT_LENGTH_MS,
    };
    let invite: InviteSpec = InviteSpec {
        uid: identity.uid.clone(),
        sequence: identity.sequence + 1,
        summary: title,
        description: None,
        location: clone_opt(&event.location),
        join_url: None,
        organizer: organizer_of(account),
        attendees: invited(&event.attendees),
        starts_at_ms: event.starts_at,
        ends_at_ms,
    };
    Ok((mail, invite))
}

// ---------------------------------------------------------------------------
// Sending
// ---------------------------------------------------------------------------

/// The draft of a mail with a calendar part. The part is staged like an
/// attachment, and the mail goes the way of any other.
pub fn calendar_draft(account_id: i64, mail: CalendarMail, ics_path: String) -> (r: SaveDraftArgs)
    ensures
        r.draft_id is None,
        r.account_id == account_id,
        r.to == mail.to,
        r.cc@.len() == 0,
        r.bcc@.len() == 0,
        r.subject == mail.subject,
        r.body_text == mail.body_text,
        r.body_html is None,
        r.mode@ == "new"@,
        r.in_reply_to_message_id is None,
        r.attachments@.len() == 1,
        r.attachments@[0].file_path == ics_path,
        r.attachments@[0].filename@ == "invite.ics"@,
{
    let mut attachments: Vec<DraftAttachmentIn> = Vec::new();
    attachments.push(DraftAttachmentIn { file_path: ics_path, filename: owned("invite.ics") });
    SaveDraftArgs {
        draft_id: None,
        account_id,
        to: mail.to,
        cc: Vec::new(),
        bcc: Vec::new(),
        subject: mail.subject,
        body_text: mail.body_text,
        body_html: None,
        mode: owned("new"),
        in_reply_to_message_id: None,
        attachments,
    }
}

/// The file that holds the calendar part until the draft has its own copy.
pub fn ics_file_name(token: &str) -> (r: String)
    ensures
        r@ == "invite-"@ + token@ + ".ics"@,
{
    concat3("invite-", token, ".ics")
}

/// The mail is sent at the usual time.
pub fn calendar_send(draft_id: i64) -> (r: QueueSendArgs)
    ensures
        r.draft_id == draft_id,
        r.send_at is None,
{
    QueueSendArgs { draft_id, send_at: None }
}

} // verus!
