//! The calendar: what is listed, who is told of a meeting, and what a change
//! leaves to be sent on.

use vstd::prelude::*;

use crate::error::{CoreError, ErrorView};
use crate::lists::{lemma_ends, lemma_pushed};
use crate::models::addresses::copy_address;
use crate::models::{Address, CalendarEvent, EventAttendee};
use crate::sort::{comes_before, is_stable_order, stable_order};
use crate::text::{blank, eq_ignore_case, is_blank, lower, opt_text, owned};

pub mod connect;
pub mod meetings;

verus! {

/// How long an event without an end lasts.
pub const DEFAULT_LENGTH_MS: i64 = 1_800_000;

// ---------------------------------------------------------------------------
// Listing
// ---------------------------------------------------------------------------

/// One occurrence of a repeating event.
#[derive(Debug, Clone, Copy, PartialEq, Eq, Structural)]
pub struct Occurrence {
    pub start: i64,
    pub end: i64,
}

/// A repeating event with the occurrences of its rule in the asked range; none
/// where the rule is not understood.
#[derive(Debug)]
pub struct RecurringMaster {
    pub event: CalendarEvent,
    pub occurrences: Option<Vec<Occurrence>>,
}

/// An entry of the listing: a stored event and when it takes place.
pub struct Listed {
    pub event: CalendarEvent,
    pub starts_at: i64,
    pub ends_at: Option<i64>,
}

/// That `e` is the stored event `m`, taking place at the given time.
pub open spec fn is_event_at(
    e: CalendarEvent,
    m: CalendarEvent,
    starts_at: i64,
    ends_at: Option<i64>,
) -> bool {
    &&& e.id == m.id
    &&& e.account_id == m.account_id
    &&& e.message_id == m.message_id
    &&& e.summary == m.summary
    &&& e.location == m.location
    &&& e.organizer == m.organizer
    &&& e.description == m.description
    &&& e.attendees@ == m.attendees@
    &&& e.join_url == m.join_url
    &&& e.rsvp_status == m.rsvp_status
    &&& e.is_local == m.is_local
    &&& e.calendar_id == m.calendar_id
    &&& e.rrule == m.rrule
    &&& e.starts_at == starts_at
    &&& e.ends_at == ends_at
    &&& e.all_day == m.all_day
    &&& e.status == m.status
    &&& e.method == m.method
}

pub open spec fn shows(e: CalendarEvent, l: Listed) -> bool {
    is_event_at(e, l.event, l.starts_at, l.ends_at)
}

pub open spec fn show_all(events: Seq<CalendarEvent>, listed: Seq<Listed>) -> bool {
    &&& events.len() == listed.len()
    &&& forall|i: int| 0 <= i < events.len() ==> shows(#[trigger] events[i], listed[i])
}

pub open spec fn as_listed(e: CalendarEvent) -> Listed {
    Listed { event: e, starts_at: e.starts_at, ends_at: e.ends_at }
}

/// The entries of every event but one.
pub open spec fn without(listed: Seq<Listed>, id: i64) -> Seq<Listed>
    decreases listed.len(),
{
    if listed.len() == 0 {
        Seq::empty()
    } else if listed.last().event.id == id {
        without(listed.drop_last(), id)
    } else {
        without(listed.drop_last(), id).push(listed.last())
    }
}

/// The occurrences of a repeating event as entries.
pub open spec fn occurring(m: CalendarEvent, occurrences: Seq<Occurrence>) -> Seq<Listed> {
    Seq::new(
        occurrences.len(),
        |i: int|
            Listed {
                event: m,
                starts_at: occurrences[i].start,
                ends_at: Some(occurrences[i].end),
            },
    )
}

/// The listing with repeating events replaced by their occurrences. An event
/// whose rule is not understood stands alone.
pub open spec fn expanded(listed: Seq<Listed>, masters: Seq<RecurringMaster>) -> Seq<Listed>
    decreases masters.len(),
{
    if masters.len() == 0 {
        listed
    } else {
        let m = masters.last();
        let before = expanded(listed, masters.drop_last());
        if m.event.rrule is Some && m.occurrences is Some {
            without(before, m.event.id) + occurring(m.event, m.occurrences->0@)
        } else {
            before
        }
    }
}

pub open spec fn starts_of(listed: Seq<Listed>) -> Seq<i64> {
    listed.map_values(|l: Listed| l.starts_at)
}

/// That the events are the entries in order of their start; those that start
/// together keep their order.
pub open spec fn is_listing(events: Seq<CalendarEvent>, listed: Seq<Listed>) -> bool {
    exists|order: Seq<usize>|
        {
            &&& #[trigger] is_stable_order(starts_of(listed), order)
            &&& events.len() == order.len()
            &&& forall|i: int|
                0 <= i < order.len() ==> shows(#[trigger] events[i], listed[order[i] as int])
        }
}

fn copy_attendees(v: &Vec<EventAttendee>) -> (r: Vec<EventAttendee>)
    ensures
        r@ == v@,
{
    let mut out: Vec<EventAttendee> = Vec::new();
    let mut i: usize = 0;
    while i < v.len()
        invariant
            i <= v@.len(),
            out@ == v@.take(i as int),
        decreases v@.len() - i,
    {
        out.push(
            EventAttendee {
                email: v[i].email.clone(),
                name: match &v[i].name {
                    Some(n) => Some(n.clone()),
                    None => None,
                },
                partstat: match &v[i].partstat {
                    Some(n) => Some(n.clone()),
                    None => None,
                },
            },
        );
        proof {
            assert(v@.take(i + 1) =~= v@.take(i as int).push(v@[i as int]));
        }
        i = i + 1;
    }
    proof {
        assert(v@.take(v@.len() as int) =~= v@);
    }
    out
}

fn same_opt(o: &Option<String>) -> (r: Option<String>)
    ensures
        r == *o,
{
    match o {
        Some(s) => Some(s.clone()),
        None => None,
    }
}

/// The stored event, taking place at another time.
pub fn event_at(m: &CalendarEvent, starts_at: i64, ends_at: Option<i64>) -> (r: CalendarEvent)
    ensures
        is_event_at(r, *m, starts_at, ends_at),
{
    CalendarEvent {
        id: m.id,
        account_id: m.account_id,
        message_id: m.message_id,
        summary: same_opt(&m.summary),
        location: same_opt(&m.location),
        organizer: same_opt(&m.organizer),
        description: same_opt(&m.description),
        attendees: copy_attendees(&m.attendees),
        join_url: same_opt(&m.join_url),
        rsvp_status: same_opt(&m.rsvp_status),
        is_local: m.is_local,
        calendar_id: m.calendar_id,
        rrule: same_opt(&m.rrule),
        starts_at,
        ends_at,
        all_day: m.all_day,
        status: same_opt(&m.status),
        method: same_opt(&m.method),
    }
}

/// How long each occurrence of a repeating event lasts.
pub fn occurrence_length_ms(e: &CalendarEvent) -> (r: i64)
    requires
        e.ends_at is Some ==> i64::MIN <= e.ends_at->0 - e.starts_at <= i64::MAX,
    ensures
        r == (match e.ends_at {
            Some(end) => end - e.starts_at,
            None => DEFAULT_LENGTH_MS as int,
        }),
{
    match e.ends_at {
        Some(end) => end - e.starts_at,
        None => DEFAULT_LENGTH_MS,
    }
}

fn retain_others(events: Vec<CalendarEvent>, id: i64, Ghost(listed): Ghost<Seq<Listed>>) -> (r: Vec<
    CalendarEvent,
>)
    requires
        show_all(events@, listed),
    ensures
        show_all(r@, without(listed, id)),
{
    let mut out: Vec<CalendarEvent> = Vec::new();
    let mut i: usize = 0;
    while i < events.len()
        invariant
            i <= events@.len(),
            show_all(events@, listed),
            show_all(out@, without(listed.take(i as int), id)),
        decreases events@.len() - i,
    {
        proof {
            assert(listed.take(i + 1).drop_last() =~= listed.take(i as int));
            assert(shows(events@[i as int], listed[i as int]));
        }
        let e: &CalendarEvent = &events[i];
        if e.id != id {
            out.push(event_at(e, e.starts_at, e.ends_at));
        }
        i = i + 1;
    }
    proof {
        assert(listed.take(listed.len() as int) =~= listed);
    }
    out
}

/// What the calendar shows in a range: the stored events, repeating ones as
/// their occurrences, in order of their start. An occurrence keeps the row id
/// of its event.
pub fn list_events(events: Vec<CalendarEvent>, masters: &Vec<RecurringMaster>) -> (r: Vec<
    CalendarEvent,
>)
    ensures
        is_listing(r@, expanded(events@.map_values(|e: CalendarEvent| as_listed(e)), masters@)),
{
    let ghost listed = events@.map_values(|e: CalendarEvent| as_listed(e));
    let mut rows: Vec<CalendarEvent> = events;
    let mut k: usize = 0;
    proof {
        assert(masters@.take(0).len() == 0);
    }
    while k < masters.len()
        invariant
            k <= masters@.len(),
            show_all(rows@, expanded(listed, masters@.take(k as int))),
        decreases masters@.len() - k,
    {
        let m: &RecurringMaster = &masters[k];
        let ghost before = expanded(listed, masters@.take(k as int));
        proof {
            assert(masters@.take(k + 1).drop_last() =~= masters@.take(k as int));
        }
        if m.event.rrule.is_some() {
            if let Some(occurrences) = &m.occurrences {
                rows = retain_others(rows, m.event.id, Ghost(before));
                let ghost kept = without(before, m.event.id);
                let ghost all = kept + occurring(m.event, occurrences@);
                let mut j: usize = 0;
                proof {
                    assert(all.take(kept.len() as int) =~= kept);
                }
                while j < occurrences.len()
                    invariant
                        j <= occurrences@.len(),
                        all == kept + occurring(m.event, occurrences@),
                        show_all(rows@, all.take(kept.len() + j)),
                    decreases occurrences@.len() - j,
                {
                    rows.push(event_at(&m.event, occurrences[j].start, Some(occurrences[j].end)));
                    j = j + 1;
                    proof {
                        assert(all.take(kept.len() + j) =~= all.take(kept.len() + j - 1).push(
                            all[kept.len() + j - 1],
                        ));
                    }
                }
                proof {
                    assert(all.take(kept.len() + j) =~= all);
                }
            }
        }
        k = k + 1;
    }
    proof {
        assert(masters@.take(masters@.len() as int) =~= masters@);
    }
    let ghost all = expanded(listed, masters@);
    let mut keys: Vec<i64> = Vec::new();
    let mut i: usize = 0;
    while i < rows.len()
        invariant
            i <= rows@.len(),
            show_all(rows@, all),
            keys@ == starts_of(all).take(i as int),
        decreases rows@.len() - i,
    {
        proof {
            assert(shows(rows@[i as int], all[i as int]));
            assert(starts_of(all).take(i + 1) =~= starts_of(all).take(i as int).push(
                all[i as int].starts_at,
            ));
        }
        keys.push(rows[i].starts_at);
        i = i + 1;
    }
    proof {
        assert(starts_of(all).take(i as int) =~= starts_of(all));
    }
    let order: Vec<usize> = stable_order(&keys);
    let mut out: Vec<CalendarEvent> = Vec::new();
    let mut n: usize = 0;
    while n < order.len()
        invariant
            n <= order@.len(),
            show_all(rows@, all),
            is_stable_order(starts_of(all), order@),
            out@.len() == n,
            forall|x: int|
                0 <= x < n ==> shows(#[trigger] out@[x], all[order@[x] as int]),
        decreases order@.len() - n,
    {
        proof {
            assert(order@.contains(order@[n as int]));
            assert(order@[n as int] < all.len());
            assert(shows(rows@[order@[n as int] as int], all[order@[n as int] as int]));
        }
        let e: &CalendarEvent = &rows[order[n]];
        out.push(event_at(e, e.starts_at, e.ends_at));
        n = n + 1;
    }
    out
}

/// A listing is in order of its start times.
pub proof fn listing_is_in_order(events: Seq<CalendarEvent>, listed: Seq<Listed>, i: int, j: int)
    requires
        is_listing(events, listed),
        0 <= i <= j < events.len(),
    ensures
        events[i].starts_at <= events[j].starts_at,
{
    let order = choose|order: Seq<usize>|
        {
            &&& #[trigger] is_stable_order(starts_of(listed), order)
            &&& events.len() == order.len()
            &&& forall|i: int|
                0 <= i < order.len() ==> shows(#[trigger] events[i], listed[order[i] as int])
        };
    assert(order.contains(order[i]) && order.contains(order[j]));
    assert(shows(events[i], listed[order[i] as int]));
    assert(shows(events[j], listed[order[j] as int]));
    assert(starts_of(listed)[order[i] as int] == events[i].starts_at);
    assert(starts_of(listed)[order[j] as int] == events[j].starts_at);
    if i < j {
        assert(comes_before(starts_of(listed), order[i], order[j]));
    }
}

proof fn lemma_without(listed: Seq<Listed>, id: i64)
    ensures
        forall|i: int|
            0 <= i < without(listed, id).len() ==> (#[trigger] without(listed, id)[i]).event.id
                != id,
    decreases listed.len(),
{
    if listed.len() > 0 {
        lemma_without(listed.drop_last(), id);
    }
}

/// Once a repeating event is expanded, its stored row stands no longer beside
/// its occurrences: every entry with its id is one of them.
pub proof fn occurrences_replace_the_row(listed: Seq<Listed>, masters: Seq<RecurringMaster>, i: int)
    requires
        masters.len() > 0,
        masters.last().event.rrule is Some,
        masters.last().occurrences is Some,
        0 <= i < expanded(listed, masters).len(),
        expanded(listed, masters)[i].event.id == masters.last().event.id,
    ensures
        exists|k: int|
            0 <= k < masters.last().occurrences->0@.len() && expanded(listed, masters)[i]
                == #[trigger] occurring(
                masters.last().event,
                masters.last().occurrences->0@,
            )[k],
{
    let m = masters.last();
    let kept = without(expanded(listed, masters.drop_last()), m.event.id);
    lemma_without(expanded(listed, masters.drop_last()), m.event.id);
    if i < kept.len() {
        assert(expanded(listed, masters)[i] == kept[i]);
    } else {
        assert(expanded(listed, masters)[i] == occurring(m.event, m.occurrences->0@)[i
            - kept.len()]);
    }
}

/// Expanding repeating events takes no other event away.
pub proof fn other_events_stay_listed(
    listed: Seq<Listed>,
    masters: Seq<RecurringMaster>,
    l: Listed,
)
    requires
        listed.contains(l),
        forall|i: int|
            0 <= i < masters.len() ==> (#[trigger] masters[i]).event.id != l.event.id
                || masters[i].event.rrule is None || masters[i].occurrences is None,
    ensures
        expanded(listed, masters).contains(l),
    decreases masters.len(),
{
    if masters.len() > 0 {
        let front = masters.drop_last();
        let m = masters.last();
        assert(forall|i: int| 0 <= i < front.len() ==> front[i] == #[trigger] masters[i]);
        assert(masters[masters.len() - 1] == m);
        other_events_stay_listed(listed, front, l);
        let before = expanded(listed, front);
        if m.event.rrule is Some && m.occurrences is Some {
            lemma_without_keeps(before, m.event.id, l);
            let kept = without(before, m.event.id);
            let k = kept.index_of(l);
            assert(expanded(listed, masters)[k] == l);
        }
    }
}

/// Every occurrence of a repeating event is listed at its own time, under the row
/// of its event.
pub proof fn every_occurrence_is_listed(
    listed: Seq<Listed>,
    masters: Seq<RecurringMaster>,
    i: int,
    k: int,
)
    requires
        0 <= i < masters.len(),
        masters[i].event.rrule is Some,
        masters[i].occurrences is Some,
        0 <= k < masters[i].occurrences->0@.len(),
        forall|j: int|
            i < j < masters.len() ==> (#[trigger] masters[j]).event.id != masters[i].event.id,
    ensures
        expanded(listed, masters).contains(
            Listed {
                event: masters[i].event,
                starts_at: masters[i].occurrences->0@[k].start,
                ends_at: Some(masters[i].occurrences->0@[k].end),
            },
        ),
    decreases masters.len(),
{
    let n = masters.len() - 1;
    let front = masters.drop_last();
    let m = masters.last();
    let before = expanded(listed, front);
    let all = expanded(listed, masters);
    let l = Listed {
        event: masters[i].event,
        starts_at: masters[i].occurrences->0@[k].start,
        ends_at: Some(masters[i].occurrences->0@[k].end),
    };
    if i == n {
        let kept = without(before, m.event.id);
        assert(all[kept.len() + k] == occurring(m.event, m.occurrences->0@)[k]);
        assert(all[kept.len() + k] == l);
    } else {
        assert(forall|j: int| 0 <= j < front.len() ==> front[j] == #[trigger] masters[j]);
        every_occurrence_is_listed(listed, front, i, k);
        if m.event.rrule is Some && m.occurrences is Some {
            assert(masters[n].event.id != masters[i].event.id);
            lemma_without_keeps(before, m.event.id, l);
            let kept = without(before, m.event.id);
            let x = kept.index_of(l);
            assert(all[x] == l);
        }
    }
}

proof fn lemma_without_keeps(listed: Seq<Listed>, id: i64, l: Listed)
    requires
        listed.contains(l),
        l.event.id != id,
    ensures
        without(listed, id).contains(l),
    decreases listed.len(),
{
    if listed.len() > 0 {
        lemma_ends(listed);
        lemma_pushed(without(listed.drop_last(), id), listed.last());
        if listed.drop_last().contains(l) {
            lemma_without_keeps(listed.drop_last(), id, l);
        }
    }
}

/// Everything that is to be listed is shown, once, and nothing else.
pub proof fn every_entry_is_shown(events: Seq<CalendarEvent>, listed: Seq<Listed>, i: int)
    requires
        is_listing(events, listed),
        0 <= i < listed.len() <= usize::MAX,
    ensures
        exists|k: int| 0 <= k < events.len() && shows(#[trigger] events[k], listed[i]),
        forall|k: int|
            0 <= k < events.len() ==> exists|j: int|
                0 <= j < listed.len() && shows(#[trigger] events[k], #[trigger] listed[j]),
{
    let order = choose|order: Seq<usize>|
        {
            &&& #[trigger] is_stable_order(starts_of(listed), order)
            &&& events.len() == order.len()
            &&& forall|i: int|
                0 <= i < order.len() ==> shows(#[trigger] events[i], listed[order[i] as int])
        };
    assert(order.contains(i as usize));
    let k = order.index_of(i as usize);
    assert(shows(events[k], listed[order[k] as int]));
    assert forall|k: int| 0 <= k < events.len() implies exists|j: int|
        0 <= j < listed.len() && shows(#[trigger] events[k], #[trigger] listed[j]) by {
        assert(order.contains(order[k]));
        assert(shows(events[k], listed[order[k] as int]));
    }
}

// ---------------------------------------------------------------------------
// Meetings
// ---------------------------------------------------------------------------

/// Why an event cannot be stored as asked.
pub open spec fn event_fault(summary: Seq<char>, starts_at: i64, ends_at: i64) -> Option<ErrorView> {
    if is_blank(summary) {
        Some(ErrorView::Other("event needs a title"@))
    } else if ends_at <= starts_at {
        Some(ErrorView::Other("event must end after it starts"@))
    } else {
        None
    }
}

/// An event is stored exactly where it has a title and ends after it starts.
pub proof fn events_need_a_title_and_a_length(summary: Seq<char>, starts_at: i64, ends_at: i64)
    ensures
        event_fault(summary, starts_at, ends_at) is None <==> !is_blank(summary) && starts_at
            < ends_at,
{
}

pub fn check_event(summary: &str, starts_at: i64, ends_at: i64) -> (r: Result<(), CoreError>)
    ensures
        r is Ok <==> event_fault(summary@, starts_at, ends_at) is None,
        r is Err ==> event_fault(summary@, starts_at, ends_at) == Some((r->Err_0)@),
{
    if blank(summary) {
        return Err(CoreError::Other(owned("event needs a title")));
    }
    if ends_at <= starts_at {
        return Err(CoreError::Other(owned("event must end after it starts")));
    }
    Ok(())
}

/// What an attendee has answered as long as they have not answered.
pub const NEEDS_ACTION: &'static str = "NEEDS-ACTION";

/// The first attendee with this address, whatever the case of its letters.
pub open spec fn attendee_at(attendees: Seq<EventAttendee>, email: Seq<char>) -> int
    decreases attendees.len(),
{
    if attendees.len() == 0 {
        0
    } else if lower(attendees[0].email@) == lower(email) {
        0
    } else {
        1 + attendee_at(attendees.skip(1), email)
    }
}

/// The answer that stands beside an invited address: the one already given, if
/// there is one.
pub open spec fn answer_of(attendees: Seq<EventAttendee>, email: Seq<char>) -> Seq<char> {
    let k = attendee_at(attendees, email);
    if k < attendees.len() && attendees[k].partstat is Some {
        attendees[k].partstat->0@
    } else {
        NEEDS_ACTION@
    }
}

proof fn lemma_attendee_at(attendees: Seq<EventAttendee>, email: Seq<char>, k: int)
    requires
        0 <= k <= attendees.len(),
        forall|j: int| 0 <= j < k ==> lower((#[trigger] attendees[j]).email@) != lower(email),
        k < attendees.len() ==> lower(attendees[k].email@) == lower(email),
    ensures
        attendee_at(attendees, email) == k,
    decreases k,
{
    if k > 0 {
        assert(lower(attendees[0].email@) != lower(email));
        assert forall|j: int| 0 <= j < k - 1 implies lower(
            (#[trigger] attendees.skip(1)[j]).email@,
        ) != lower(email) by {
            assert(attendees.skip(1)[j] == attendees[j + 1]);
        }
        lemma_attendee_at(attendees.skip(1), email, k - 1);
    }
}

fn answer_so_far(attendees: &Vec<EventAttendee>, email: &str) -> (r: String)
    ensures
        r@ == answer_of(attendees@, email@),
{
    let mut k: usize = 0;
    while k < attendees.len()
        invariant
            k <= attendees@.len(),
            forall|j: int| 0 <= j < k ==> lower((#[trigger] attendees@[j]).email@) != lower(email@),
        decreases attendees@.len() - k,
    {
        if eq_ignore_case(attendees[k].email.as_str(), email) {
            proof {
                lemma_attendee_at(attendees@, email@, k as int);
            }
            return match &attendees[k].partstat {
                Some(p) => p.clone(),
                None => owned(NEEDS_ACTION),
            };
        }
        k = k + 1;
    }
    proof {
        lemma_attendee_at(attendees@, email@, k as int);
    }
    owned(NEEDS_ACTION)
}

/// That the attendees are the invited addresses, each with the answer it has
/// already given among `known`.
pub open spec fn are_attendees(
    r: Seq<EventAttendee>,
    invited: Seq<Address>,
    known: Seq<EventAttendee>,
) -> bool {
    &&& r.len() == invited.len()
    &&& forall|i: int|
        #![trigger r[i]]
        0 <= i < r.len() ==> {
            &&& r[i].email == invited[i].email
            &&& r[i].name == invited[i].name
            &&& opt_text(r[i].partstat) == Some(answer_of(known, invited[i].email@))
        }
}

/// Whoever was invited before, under the same address in any spelling of case,
/// keeps the answer that they gave; whoever was not has not answered yet.
pub proof fn attendees_keep_their_answers(
    r: Seq<EventAttendee>,
    invited: Seq<Address>,
    known: Seq<EventAttendee>,
    i: int,
    k: int,
)
    requires
        are_attendees(r, invited, known),
        0 <= i < invited.len(),
        0 <= k <= known.len(),
        forall|j: int|
            0 <= j < k ==> lower((#[trigger] known[j]).email@) != lower(invited[i].email@),
        k < known.len() ==> lower(known[k].email@) == lower(invited[i].email@),
    ensures
        r[i].email == invited[i].email,
        k < known.len() && known[k].partstat is Some ==> opt_text(r[i].partstat) == opt_text(
            known[k].partstat,
        ),
        k == known.len() ==> opt_text(r[i].partstat) == Some("NEEDS-ACTION"@),
{
    lemma_attendee_at(known, invited[i].email@, k);
    assert(opt_text(r[i].partstat) == Some(answer_of(known, invited[i].email@)));
}

/// The attendees of an event whose invited addresses are set anew. Answers
/// already given are kept; new addresses start without one.
pub fn attendees_of(invited: &Vec<Address>, known: &Vec<EventAttendee>) -> (r: Vec<EventAttendee>)
    ensures
        are_attendees(r@, invited@, known@),
{
    let mut out: Vec<EventAttendee> = Vec::new();
    let mut i: usize = 0;
    while i < invited.len()
        invariant
            i <= invited@.len(),
            are_attendees(out@, invited@.take(i as int), known@),
        decreases invited@.len() - i,
    {
        let a: Address = copy_address(&invited[i]);
        let answer: String = answer_so_far(known, a.email.as_str());
        out.push(EventAttendee { email: a.email, name: a.name, partstat: Some(answer) });
        i = i + 1;
        proof {
            assert forall|j: int| #![trigger out@[j]] 0 <= j < out@.len() implies {
                &&& out@[j].email == invited@.take(i as int)[j].email
                &&& out@[j].name == invited@.take(i as int)[j].name
                &&& opt_text(out@[j].partstat) == Some(
                    answer_of(known@, invited@.take(i as int)[j].email@),
                )
            } by {
                if j < i - 1 {
                    assert(invited@.take(i - 1)[j] == invited@.take(i as int)[j]);
                }
            }
        }
    }
    proof {
        assert(invited@.take(invited@.len() as int) =~= invited@);
    }
    out
}

/// Whoever stays invited keeps the answer that they gave: editing an event a
/// second time with the same addresses changes no answer.
pub proof fn answers_are_kept(
    once: Seq<EventAttendee>,
    twice: Seq<EventAttendee>,
    invited: Seq<Address>,
    known: Seq<EventAttendee>,
)
    requires
        are_attendees(once, invited, known),
        are_attendees(twice, invited, once),
    ensures
        forall|i: int|
            0 <= i < once.len() ==> opt_text((#[trigger] twice[i]).partstat) == opt_text(
                once[i].partstat,
            ),
{
    assert forall|i: int| 0 <= i < once.len() implies opt_text((#[trigger] twice[i]).partstat)
        == opt_text(once[i].partstat) by {
        let email = invited[i].email@;
        lemma_first_answer(once, invited, known, email, i);
    }
}

proof fn lemma_first_answer(
    once: Seq<EventAttendee>,
    invited: Seq<Address>,
    known: Seq<EventAttendee>,
    email: Seq<char>,
    i: int,
)
    requires
        are_attendees(once, invited, known),
        0 <= i < once.len(),
        email == invited[i].email@,
    ensures
        answer_of(once, email) == answer_of(known, email),
{
    lemma_attendee_found(once, email, i);
    let k = attendee_at(once, email);
    assert(once[k].email == invited[k].email);
    assert(opt_text(once[k].partstat) == Some(answer_of(known, invited[k].email@)));
    lemma_same_lookup(known, invited[k].email@, email);
}

proof fn lemma_attendee_found(attendees: Seq<EventAttendee>, email: Seq<char>, i: int)
    requires
        0 <= i < attendees.len(),
        lower(attendees[i].email@) == lower(email),
    ensures
        0 <= attendee_at(attendees, email) <= i,
        lower(attendees[attendee_at(attendees, email)].email@) == lower(email),
    decreases i,
{
    if lower(attendees[0].email@) != lower(email) {
        assert(attendees.skip(1)[i - 1] == attendees[i]);
        lemma_attendee_found(attendees.skip(1), email, i - 1);
        let k = attendee_at(attendees.skip(1), email);
        assert(attendees.skip(1)[k] == attendees[k + 1]);
    }
}

proof fn lemma_same_lookup(attendees: Seq<EventAttendee>, a: Seq<char>, b: Seq<char>)
    requires
        lower(a) == lower(b),
    ensures
        attendee_at(attendees, a) == attendee_at(attendees, b),
    decreases attendees.len(),
{
    if attendees.len() > 0 {
        lemma_same_lookup(attendees.skip(1), a, b);
    }
}

} // verus!
