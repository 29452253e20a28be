//! Routing all stored mail anew: what is forgotten first, and what stays.

use vstd::prelude::*;

use crate::automation::Annotation;
use crate::lists::contains_id;
use crate::text::owned;

verus! {

/// The sender domain under which it is recorded that older mail was routed.
pub const BACKFILL_MARK: &'static str = "__routing_backfill__";

/// What the routing has left on the stored mail.
#[derive(Debug)]
pub struct RoutingState {
    /// The decision about each sender domain.
    pub decisions: Vec<(String, String)>,
    /// A message and a label that it carries.
    pub labels: Vec<(i64, i64)>,
    /// A thread and its tab.
    pub tabs: Vec<(i64, Option<String>)>,
    /// A message and what is shown beside it.
    pub notes: Vec<(i64, Annotation)>,
}

/// That a decision is the record that older mail was routed.
pub open spec fn is_mark(row: (String, String)) -> bool {
    row.0@ == BACKFILL_MARK@
}

pub open spec fn is_marked(decisions: Seq<(String, String)>) -> bool {
    exists|i: int| 0 <= i < decisions.len() && is_mark(#[trigger] decisions[i])
}

/// The decisions that are no decisions about senders.
pub open spec fn kept_marks(decisions: Seq<(String, String)>) -> Seq<(String, String)>
    decreases decisions.len(),
{
    if decisions.len() == 0 {
        Seq::empty()
    } else {
        let before = kept_marks(decisions.drop_last());
        if is_mark(decisions.last()) {
            before.push(decisions.last())
        } else {
            before
        }
    }
}

/// The labels that the user has given, in their order.
pub open spec fn own_labels(labels: Seq<(i64, i64)>, auto: Seq<i64>) -> Seq<(i64, i64)>
    decreases labels.len(),
{
    if labels.len() == 0 {
        Seq::empty()
    } else {
        let before = own_labels(labels.drop_last(), auto);
        if auto.contains(labels.last().1) {
            before
        } else {
            before.push(labels.last())
        }
    }
}

/// Every thread is without a tab.
pub open spec fn are_untabbed(before: Seq<(i64, Option<String>)>, after: Seq<(i64, Option<String>)>) -> bool {
    after == Seq::new(before.len(), |i: int| (before[i].0, None::<String>))
}

/// Nothing is shown beside any message.
pub open spec fn are_unannotated(before: Seq<(i64, Annotation)>, after: Seq<(i64, Annotation)>) -> bool {
    &&& after.len() == before.len()
    &&& forall|i: int|
        0 <= i < after.len() ==> (#[trigger] after[i]).0 == before[i].0
            && after[i].1.subject_prefix@.len() == 0 && after[i].1.body_note@.len() == 0
}

/// What the routing has decided is forgotten, and nothing else. `auto` holds
/// the labels that are categories.
pub open spec fn is_reset(before: RoutingState, auto: Seq<i64>, after: RoutingState) -> bool {
    &&& after.decisions@ == kept_marks(before.decisions@)
    &&& after.labels@ == own_labels(before.labels@, auto)
    &&& are_untabbed(before.tabs@, after.tabs@)
    &&& are_unannotated(before.notes@, after.notes@)
}

fn marks_of(decisions: &Vec<(String, String)>) -> (r: Vec<(String, String)>)
    ensures
        r@ == kept_marks(decisions@),
{
    let mut out: Vec<(String, String)> = Vec::new();
    let mut i: usize = 0;
    while i < decisions.len()
        invariant
            i <= decisions@.len(),
            out@ == kept_marks(decisions@.take(i as int)),
        decreases decisions@.len() - i,
    {
        proof {
            assert(decisions@.take(i + 1).drop_last() =~= decisions@.take(i as int));
            assert(decisions@.take(i + 1).last() == decisions@[i as int]);
        }
        let row: &(String, String) = &decisions[i];
        if row.0.as_str().eq(BACKFILL_MARK) {
            out.push((row.0.clone(), row.1.clone()));
        }
        i = i + 1;
    }
    proof {
        assert(decisions@.take(decisions@.len() as int) =~= decisions@);
    }
    out
}

fn labels_of_the_user(labels: &Vec<(i64, i64)>, auto: &Vec<i64>) -> (r: Vec<(i64, i64)>)
    ensures
        r@ == own_labels(labels@, auto@),
{
    let mut out: Vec<(i64, i64)> = Vec::new();
    let mut i: usize = 0;
    while i < labels.len()
        invariant
            i <= labels@.len(),
            out@ == own_labels(labels@.take(i as int), auto@),
        decreases labels@.len() - i,
    {
        proof {
            assert(labels@.take(i + 1).drop_last() =~= labels@.take(i as int));
            assert(labels@.take(i + 1).last() == labels@[i as int]);
        }
        if !contains_id(auto, labels[i].1) {
            out.push(labels[i]);
        }
        i = i + 1;
    }
    proof {
        assert(labels@.take(labels@.len() as int) =~= labels@);
    }
    out
}

fn untabbed(tabs: &Vec<(i64, Option<String>)>) -> (r: Vec<(i64, Option<String>)>)
    ensures
        are_untabbed(tabs@, r@),
{
    let mut out: Vec<(i64, Option<String>)> = Vec::new();
    let mut i: usize = 0;
    while i < tabs.len()
        invariant
            i <= tabs@.len(),
            out@.len() == i,
            forall|k: int| 0 <= k < i ==> #[trigger] out@[k] == (tabs@[k].0, None::<String>),
        decreases tabs@.len() - i,
    {
        out.push((tabs[i].0, None));
        i = i + 1;
    }
    proof {
        assert(out@ =~= Seq::new(tabs@.len(), |k: int| (tabs@[k].0, None::<String>)));
    }
    out
}

fn unannotated(notes: &Vec<(i64, Annotation)>) -> (r: Vec<(i64, Annotation)>)
    ensures
        are_unannotated(notes@, r@),
{
    proof {
        reveal_strlit("");
    }
    let mut out: Vec<(i64, Annotation)> = Vec::new();
    let mut i: usize = 0;
    while i < notes.len()
        invariant
            i <= notes@.len(),
            ""@.len() == 0,
            are_unannotated(notes@.take(i as int), out@),
        decreases notes@.len() - i,
    {
        let ghost had = out@;
        out.push((notes[i].0, Annotation { subject_prefix: owned(""), body_note: owned("") }));
        proof {
            assert forall|k: int| 0 <= k < out@.len() implies (#[trigger] out@[k]).0
                == notes@.take(i + 1)[k].0 && out@[k].1.subject_prefix@.len() == 0
                && out@[k].1.body_note@.len() == 0 by {
                if k < i {
                    assert(out@[k] == had[k]);
                }
            }
        }
        i = i + 1;
    }
    proof {
        assert(notes@.take(notes@.len() as int) =~= notes@);
    }
    out
}

/// Forgets what the routing has decided, so that changed rules are applied to
/// all mail. The record that older mail was routed stays, and so do the labels
/// that the user has given.
pub fn reset_routing(state: &RoutingState, auto: &Vec<i64>) -> (r: RoutingState)
    ensures
        is_reset(*state, auto@, r),
        forall|i: int|
            0 <= i < r.decisions@.len() ==> (#[trigger] r.decisions@[i]).0@
                == "__routing_backfill__"@,
{
    proof {
        lemma_kept_marks(state.decisions@);
    }
    RoutingState {
        decisions: marks_of(&state.decisions),
        labels: labels_of_the_user(&state.labels, auto),
        tabs: untabbed(&state.tabs),
        notes: unannotated(&state.notes),
    }
}

/// The threads that are routed after that: all of them, or none where mail is
/// not labelled. Their number is what rerouting gives back.
pub fn threads_to_route(auto_labels_enabled: bool, threads: Vec<i64>) -> (r: Vec<i64>)
    ensures
        r@ == (if auto_labels_enabled {
            threads@
        } else {
            Seq::empty()
        }),
{
    if auto_labels_enabled {
        threads
    } else {
        Vec::new()
    }
}

proof fn lemma_kept_marks(decisions: Seq<(String, String)>)
    ensures
        is_marked(kept_marks(decisions)) == is_marked(decisions),
        forall|i: int|
            0 <= i < kept_marks(decisions).len() ==> is_mark(#[trigger] kept_marks(decisions)[i]),
        kept_marks(kept_marks(decisions)) == kept_marks(decisions),
    decreases decisions.len(),
{
    if decisions.len() > 0 {
        let init = decisions.drop_last();
        let before = kept_marks(init);
        let last = decisions.last();
        lemma_kept_marks(init);
        if is_marked(init) {
            let i = choose|i: int| 0 <= i < init.len() && is_mark(#[trigger] init[i]);
            assert(decisions[i] == init[i]);
            let j = choose|j: int| 0 <= j < before.len() && is_mark(#[trigger] before[j]);
            assert(before.push(last)[j] == before[j]);
        }
        if is_mark(last) {
            assert(is_mark(decisions[decisions.len() - 1]));
            assert(is_mark(before.push(last)[before.len() as int]));
            assert(before.push(last).drop_last() =~= before);
        } else if is_marked(decisions) {
            let i = choose|i: int| 0 <= i < decisions.len() && is_mark(#[trigger] decisions[i]);
            assert(init[i] == decisions[i]);
        }
    }
}

proof fn lemma_own_labels(labels: Seq<(i64, i64)>, auto: Seq<i64>)
    ensures
        forall|l: (i64, i64)| #[trigger]
            own_labels(labels, auto).contains(l) <==> labels.contains(l) && !auto.contains(l.1),
        own_labels(own_labels(labels, auto), auto) == own_labels(labels, auto),
    decreases labels.len(),
{
    if labels.len() > 0 {
        let init = labels.drop_last();
        let before = own_labels(init, auto);
        let last = labels.last();
        lemma_own_labels(init, auto);
        assert(before.push(last).drop_last() =~= before);
        assert forall|l: (i64, i64)| #[trigger]
            own_labels(labels, auto).contains(l) <==> labels.contains(l) && !auto.contains(
                l.1,
            ) by {
            assert(before.contains(l) <==> init.contains(l) && !auto.contains(l.1));
            assert(init.push(last) =~= labels);
            if labels.contains(l) && l != last {
                let i = choose|i: int| 0 <= i < labels.len() && labels[i] == l;
                assert(init[i] == l);
            }
            if init.contains(l) {
                let i = choose|i: int| 0 <= i < init.len() && init[i] == l;
                assert(labels[i] == l);
            }
            assert(labels[labels.len() - 1] == last);
            if before.contains(l) {
                let i = choose|i: int| 0 <= i < before.len() && before[i] == l;
                assert(before.push(last)[i] == l);
            }
            assert(before.push(last)[before.len() as int] == last);
            if before.push(last).contains(l) && l != last {
                let i = choose|i: int|
                    0 <= i < before.push(last).len() && before.push(last)[i] == l;
                assert(before[i] == l);
            }
        }
    }
}

/// Routing all mail anew does not bring back the routing of older mail: its
/// record stays where it was, and no other decision does.
pub proof fn rerouting_keeps_the_record(before: RoutingState, auto: Seq<i64>, after: RoutingState)
    requires
        is_reset(before, auto, after),
    ensures
        is_marked(after.decisions@) == is_marked(before.decisions@),
        forall|i: int| 0 <= i < after.decisions@.len() ==> is_mark(#[trigger] after.decisions@[i]),
{
    lemma_kept_marks(before.decisions@);
}

/// Routing all mail anew begins with no thread in a tab and nothing shown beside a
/// message, and forgets neither a thread nor a message.
pub proof fn rerouting_begins_without_tabs(
    before: RoutingState,
    auto: Seq<i64>,
    after: RoutingState,
)
    requires
        is_reset(before, auto, after),
    ensures
        after.tabs@.len() == before.tabs@.len(),
        forall|i: int|
            0 <= i < after.tabs@.len() ==> (#[trigger] after.tabs@[i]).0 == before.tabs@[i].0
                && after.tabs@[i].1 is None,
        after.notes@.len() == before.notes@.len(),
        forall|i: int|
            0 <= i < after.notes@.len() ==> (#[trigger] after.notes@[i]).0 == before.notes@[i].0
                && after.notes@[i].1.subject_prefix@ == Seq::<char>::empty()
                && after.notes@[i].1.body_note@ == Seq::<char>::empty(),
{
    assert forall|i: int| 0 <= i < after.notes@.len() implies (#[trigger] after.notes@[i]).0
        == before.notes@[i].0 && after.notes@[i].1.subject_prefix@ == Seq::<char>::empty()
        && after.notes@[i].1.body_note@ == Seq::<char>::empty() by {
        assert(after.notes@[i].1.subject_prefix@ =~= Seq::<char>::empty());
        assert(after.notes@[i].1.body_note@ =~= Seq::<char>::empty());
    }
}

/// Routing all mail anew takes no label away that the user has given, and
/// leaves no other.
pub proof fn rerouting_keeps_own_labels(before: RoutingState, auto: Seq<i64>, after: RoutingState)
    requires
        is_reset(before, auto, after),
    ensures
        forall|l: (i64, i64)| #[trigger]
            after.labels@.contains(l) <==> before.labels@.contains(l) && !auto.contains(l.1),
{
    lemma_own_labels(before.labels@, auto);
}

/// To forget twice is to forget once.
pub proof fn resetting_twice_is_once(
    before: RoutingState,
    auto: Seq<i64>,
    once: RoutingState,
    twice: RoutingState,
)
    requires
        is_reset(before, auto, once),
        is_reset(once, auto, twice),
    ensures
        is_reset(before, auto, twice),
        twice.decisions@ == once.decisions@,
        twice.labels@ == once.labels@,
        twice.tabs@ == once.tabs@,
{
    lemma_kept_marks(before.decisions@);
    lemma_own_labels(before.labels@, auto);
    assert(twice.tabs@ =~= once.tabs@);
}

} // verus!
