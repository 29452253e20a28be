//! Sorting incoming mail with a model's help: whom it is asked about, what its
//! answers may lead to, and the tabs of the inbox.

use vstd::prelude::*;

use crate::ai::is_local_endpoint;
use crate::dict::Dict;
use crate::lists::lemma_pushed;
use crate::models::{ActionKind, ActionParams, AiAutomationAction, AiAutomationRule, Settings};
use crate::text::{
    blank, chars_of, clone_opt, concat2, decimal_int, i64_text, is_blank, join, join_texts,
    numbers_are_read_back, opt_text, owned, parse_i64, parsed_i64, starts_with, starts_with_str, string_of, texts, trim,
    trim_str,
};

verus! {

/// Whether waiting threads are sorted with the model's help: where the user wants
/// it and the model can be asked. Without a key they keep waiting, and are shown
/// in Important or Other meanwhile.
pub fn classifies(settings: &Settings, has_key: bool) -> (r: bool)
    ensures
        r == (settings.ai_categorize && (has_key || is_local_endpoint(settings.ai_base_url@))),
        !settings.ai_categorize ==> !r,
        settings.ai_categorize && has_key ==> r,
{
    settings.ai_categorize && (has_key || starts_with_str(
        settings.ai_base_url.as_str(),
        "http://",
    ))
}

fn copy_action(a: &AiAutomationAction) -> (r: AiAutomationAction)
    ensures
        r == *a,
{
    AiAutomationAction { kind: a.kind.clone(), value: a.value.clone() }
}

fn push_actions(out: &mut Vec<AiAutomationAction>, list: &Vec<AiAutomationAction>)
    ensures
        final(out)@ == old(out)@ + list@,
{
    let mut i: usize = 0;
    proof {
        assert(out@ + list@.take(0) =~= out@);
    }
    while i < list.len()
        invariant
            i <= list@.len(),
            out@ == old(out)@ + list@.take(i as int),
        decreases list@.len() - i,
    {
        out.push(copy_action(&list[i]));
        i = i + 1;
        proof {
            assert(old(out)@ + list@.take(i as int) =~= (old(out)@ + list@.take(i - 1)).push(
                list@[i - 1],
            ));
        }
    }
    proof {
        assert(list@.take(list@.len() as int) =~= list@);
    }
}

// ---------------------------------------------------------------------------
// Rules
// ---------------------------------------------------------------------------

/// A rule takes part if it is enabled and does something.
pub open spec fn takes_part(rule: AiAutomationRule) -> bool {
    rule.enabled && rule.actions@.len() > 0
}

/// The rules that take part, in the user's order.
pub open spec fn taking_part(rules: Seq<AiAutomationRule>) -> Seq<AiAutomationRule>
    decreases rules.len(),
{
    if rules.len() == 0 {
        Seq::empty()
    } else if takes_part(rules.last()) {
        taking_part(rules.drop_last()).push(rules.last())
    } else {
        taking_part(rules.drop_last())
    }
}

pub open spec fn names_rule(ids: Seq<String>, rule: AiAutomationRule) -> bool {
    exists|k: int| 0 <= k < ids.len() && (#[trigger] ids[k])@ == rule.id@
}

/// What the chosen rules do: the actions of each rule that takes part and was
/// named, in the user's order of rules and actions.
pub open spec fn chosen_actions(rules: Seq<AiAutomationRule>, ids: Seq<String>) -> Seq<
    AiAutomationAction,
>
    decreases rules.len(),
{
    if rules.len() == 0 {
        Seq::empty()
    } else {
        let before = chosen_actions(rules.drop_last(), ids);
        if takes_part(rules.last()) && names_rule(ids, rules.last()) {
            before + rules.last().actions@
        } else {
            before
        }
    }
}

fn names(ids: &Vec<String>, rule: &AiAutomationRule) -> (r: bool)
    ensures
        r == names_rule(ids@, *rule),
{
    let mut k: usize = 0;
    while k < ids.len()
        invariant
            k <= ids@.len(),
            forall|j: int| 0 <= j < k ==> (#[trigger] ids@[j])@ != rule.id@,
        decreases ids@.len() - k,
    {
        if ids[k].as_str().eq(rule.id.as_str()) {
            proof {
                assert(ids@[k as int]@ == rule.id@);
            }
            return true;
        }
        k = k + 1;
    }
    false
}

/// The actions that the model's choice of rules leads to. The order is the
/// user's, whatever order the model named the rules in.
pub fn actions_of_choice(rules: &Vec<AiAutomationRule>, ids: &Vec<String>) -> (r: Vec<
    AiAutomationAction,
>)
    ensures
        r@ == chosen_actions(rules@, ids@),
{
    let mut out: Vec<AiAutomationAction> = Vec::new();
    let mut i: usize = 0;
    while i < rules.len()
        invariant
            i <= rules@.len(),
            out@ == chosen_actions(rules@.take(i as int), ids@),
        decreases rules@.len() - i,
    {
        let rule: &AiAutomationRule = &rules[i];
        proof {
            assert(rules@.take(i + 1).drop_last() =~= rules@.take(i as int));
            assert(rules@.take(i + 1).last() == rules@[i as int]);
        }
        if rule.enabled && rule.actions.len() > 0 && names(ids, rule) {
            push_actions(&mut out, &rule.actions);
        }
        i = i + 1;
    }
    proof {
        assert(rules@.take(rules@.len() as int) =~= rules@);
    }
    out
}

/// Whether any rule takes part. Without one, a sender is only put into a
/// category.
pub fn any_takes_part(rules: &Vec<AiAutomationRule>) -> (r: bool)
    ensures
        r == (taking_part(rules@).len() > 0),
{
    let mut i: usize = 0;
    while i < rules.len()
        invariant
            i <= rules@.len(),
            taking_part(rules@.take(i as int)).len() == 0,
        decreases rules@.len() - i,
    {
        proof {
            assert(rules@.take(i + 1).drop_last() =~= rules@.take(i as int));
            assert(rules@.take(i + 1).last() == rules@[i as int]);
        }
        if rules[i].enabled && rules[i].actions.len() > 0 {
            proof {
                lemma_taking_part_grows(rules@, i + 1);
            }
            return true;
        }
        i = i + 1;
    }
    proof {
        assert(rules@.take(rules@.len() as int) =~= rules@);
    }
    false
}

proof fn lemma_taking_part_grows(rules: Seq<AiAutomationRule>, k: int)
    requires
        0 <= k <= rules.len(),
    ensures
        taking_part(rules.take(k)).len() <= taking_part(rules).len(),
    decreases rules.len() - k,
{
    if k < rules.len() {
        assert(rules.take(k + 1).drop_last() =~= rules.take(k));
        lemma_taking_part_grows(rules, k + 1);
    } else {
        assert(rules.take(k) =~= rules);
    }
}

/// Whatever the model names, only actions that the user attached to an enabled
/// rule of theirs are ever carried out.
pub proof fn only_configured_actions_run(
    rules: Seq<AiAutomationRule>,
    ids: Seq<String>,
    action: AiAutomationAction,
)
    requires
        chosen_actions(rules, ids).contains(action),
    ensures
        exists|i: int|
            0 <= i < rules.len() && (#[trigger] rules[i]).enabled && rules[i].actions@.contains(
                action,
            ) && names_rule(ids, rules[i]),
    decreases rules.len(),
{
    if rules.len() > 0 {
        let before = chosen_actions(rules.drop_last(), ids);
        let k = choose|k: int|
            0 <= k < chosen_actions(rules, ids).len() && chosen_actions(rules, ids)[k] == action;
        if k < before.len() {
            assert(before[k] == action);
            only_configured_actions_run(rules.drop_last(), ids, action);
            let i = choose|i: int|
                0 <= i < rules.drop_last().len() && (#[trigger] rules.drop_last()[i]).enabled
                    && rules.drop_last()[i].actions@.contains(action) && names_rule(
                    ids,
                    rules.drop_last()[i],
                );
            assert(rules[i] == rules.drop_last()[i]);
        } else {
            assert(rules.last().actions@[k - before.len()] == action);
            assert(rules[rules.len() - 1] == rules.last());
        }
    }
}

/// Every action of a rule that is enabled and was named is carried out; a rule that
/// is off, or that was not named, does nothing.
pub proof fn named_rules_act(rules: Seq<AiAutomationRule>, ids: Seq<String>, i: int)
    requires
        0 <= i < rules.len(),
    ensures
        rules[i].enabled && names_rule(ids, rules[i]) ==> forall|a: AiAutomationAction| #[trigger]
            rules[i].actions@.contains(a) ==> chosen_actions(rules, ids).contains(a),
        (forall|k: int|
            0 <= k < rules.len() ==> !(#[trigger] rules[k]).enabled || !names_rule(ids, rules[k]))
            ==> chosen_actions(rules, ids).len() == 0,
        taking_part(rules).len() > 0 <==> exists|k: int|
            0 <= k < rules.len() && (#[trigger] rules[k]).enabled && rules[k].actions@.len() > 0,
    decreases rules.len(),
{
    let n = rules.len() - 1;
    let front = rules.drop_last();
    let before = chosen_actions(front, ids);
    let all = chosen_actions(rules, ids);
    assert(forall|k: int| 0 <= k < n ==> front[k] == #[trigger] rules[k]);
    assert(rules[n] == rules.last());
    if front.len() > 0 {
        named_rules_act(front, ids, if i < n {
            i
        } else {
            0
        });
    }
    if rules[i].enabled && names_rule(ids, rules[i]) {
        assert forall|a: AiAutomationAction| #[trigger] rules[i].actions@.contains(
            a,
        ) implies all.contains(a) by {
            if i < n {
                assert(front[i].actions@.contains(a));
                let k = before.index_of(a);
                assert(all[k] == a);
            } else {
                let k = rules[n].actions@.index_of(a);
                assert(all[before.len() + k] == a);
            }
        }
    }
    if taking_part(front).len() > 0 {
        let k = choose|k: int|
            0 <= k < front.len() && (#[trigger] front[k]).enabled && front[k].actions@.len() > 0;
        assert(rules[k].enabled);
    }
}

// ---------------------------------------------------------------------------
// One pass over the waiting threads
// ---------------------------------------------------------------------------

/// What the model is asked about a thread.
#[derive(Debug, Clone, Copy, PartialEq, Eq, Structural)]
pub enum Question {
    /// Which rules match, and the category. A rule may depend on the subject or
    /// the text, so it is asked for every message.
    Rules,
    /// The category of the sender's mail.
    Category,
    /// Nothing: the sender's category is known.
    Nothing,
}

/// What came back.
#[derive(Debug)]
pub enum Reply {
    Rules {
        category: Option<String>,
        rule_ids: Vec<String>,
    },
    Category(Option<String>),
    /// The category was known.
    Known,
    /// The model could not be asked.
    Failed,
}

/// What was decided about a thread.
#[derive(Debug)]
pub struct Resolved {
    pub thread_id: i64,
    /// The keyword of the category.
    pub category: Option<String>,
    pub actions: Vec<AiAutomationAction>,
}

/// One pass over the waiting threads.
#[derive(Debug)]
pub struct Classifier {
    pub rules: Vec<AiAutomationRule>,
    /// The categories of senders from earlier passes.
    pub cache: Dict<Option<String>>,
    /// Those decided in this pass.
    pub decided: Dict<Option<String>>,
    /// What is added to the cache after the pass; no text where there is no
    /// category.
    pub cache_writes: Vec<(String, String)>,
    pub resolved: Vec<Resolved>,
}

impl Classifier {
    pub open spec fn is_compound(self) -> bool {
        taking_part(self.rules@).len() > 0
    }

    pub open spec fn knows(self, domain: Seq<char>) -> bool {
        self.cache@.dom().contains(domain) || self.decided@.dom().contains(domain)
    }

    pub open spec fn known(self, domain: Seq<char>) -> Option<Seq<char>> {
        if self.cache@.dom().contains(domain) {
            opt_text(self.cache@[domain])
        } else {
            opt_text(self.decided@[domain])
        }
    }

    pub open spec fn asks(self, domain: Seq<char>) -> Question {
        if self.is_compound() {
            Question::Rules
        } else if self.knows(domain) {
            Question::Nothing
        } else {
            Question::Category
        }
    }

    /// That the reply is one to the question asked.
    pub open spec fn answers(self, domain: Seq<char>, reply: Reply) -> bool {
        match reply {
            Reply::Rules { .. } => self.asks(domain) is Rules,
            Reply::Category(_) => self.asks(domain) is Category,
            Reply::Known => self.asks(domain) is Nothing,
            Reply::Failed => !(self.asks(domain) is Nothing),
        }
    }

    /// The model is asked about the rules where one of them is enabled and does
    /// something, and else only about a sender that is not known from earlier.
    pub proof fn questions_follow_what_is_known(self, domain: Seq<char>)
        ensures
            self.asks(domain) is Rules <==> exists|k: int|
                0 <= k < self.rules@.len() && (#[trigger] self.rules@[k]).enabled
                    && self.rules@[k].actions@.len() > 0,
            !(self.asks(domain) is Rules) ==> (self.asks(domain) is Nothing <==> (
            self.cache@.dom().contains(domain) || self.decided@.dom().contains(domain))),
            !(self.asks(domain) is Rules) ==> (self.asks(domain) is Category <==> !(
            self.cache@.dom().contains(domain) || self.decided@.dom().contains(domain))),
            self.cache@.dom().contains(domain) ==> self.known(domain) == opt_text(
                self.cache@[domain],
            ),
            !self.cache@.dom().contains(domain) && self.decided@.dom().contains(domain)
                ==> self.known(domain) == opt_text(self.decided@[domain]),
    {
        if self.rules@.len() > 0 {
            named_rules_act(self.rules@, Seq::empty(), 0);
        }
    }

    pub fn begin(rules: Vec<AiAutomationRule>, cache: Dict<Option<String>>) -> (r: Classifier)
        ensures
            r.rules == rules,
            r.cache == cache,
            r.decided@ == Map::<Seq<char>, Option<String>>::empty(),
            r.cache_writes@.len() == 0,
            r.resolved@.len() == 0,
    {
        Classifier {
            rules,
            cache,
            decided: Dict::new(),
            cache_writes: Vec::new(),
            resolved: Vec::new(),
        }
    }

    /// What the model is asked about the next thread.
    pub fn question(&self, domain: &str) -> (r: Question)
        ensures
            r == self.asks(domain@),
    {
        if any_takes_part(&self.rules) {
            Question::Rules
        } else if self.cache.get(domain).is_some() || self.decided.get(domain).is_some() {
            Question::Nothing
        } else {
            Question::Category
        }
    }

    /// Takes in the reply. A failure decides nothing: the thread keeps waiting
    /// and is tried again in the next pass, and the sender's category stays
    /// open.
    pub fn settle(&mut self, thread_id: i64, domain: &str, reply: Reply)
        requires
            old(self).answers(domain@, reply),
        ensures
            final(self).rules == old(self).rules,
            final(self).cache == old(self).cache,
            reply is Failed ==> *final(self) == *old(self),
            !(reply is Failed) ==> {
                &&& final(self).resolved@.len() == old(self).resolved@.len() + 1
                &&& final(self).resolved@.drop_last() == old(self).resolved@
                &&& final(self).resolved@.last().thread_id == thread_id
            },
            !(reply is Category) ==> final(self).decided == old(self).decided,
            !(reply is Category) ==> final(self).cache_writes == old(self).cache_writes,
            reply matches Reply::Rules { category, rule_ids } ==> {
                &&& opt_text(final(self).resolved@.last().category) == opt_text(category)
                &&& final(self).resolved@.last().actions@ == chosen_actions(
                    old(self).rules@,
                    rule_ids@,
                )
            },
            reply is Known ==> {
                &&& opt_text(final(self).resolved@.last().category) == old(self).known(domain@)
                &&& final(self).resolved@.last().actions@.len() == 0
            },
            reply matches Reply::Category(category) ==> {
                &&& opt_text(final(self).resolved@.last().category) == opt_text(category)
                &&& final(self).resolved@.last().actions@.len() == 0
                &&& final(self).decided@ == old(self).decided@.insert(domain@, category)
                &&& final(self).cache_writes@.len() == old(self).cache_writes@.len() + 1
                &&& final(self).cache_writes@.drop_last() == old(self).cache_writes@
                &&& final(self).cache_writes@.last().0@ == domain@
                &&& final(self).cache_writes@.last().1@ == (match category {
                    Some(k) => k@,
                    None => Seq::<char>::empty(),
                })
            },
    {
        match reply {
            Reply::Failed => {},
            Reply::Rules { category, rule_ids } => {
                let actions: Vec<AiAutomationAction> = actions_of_choice(&self.rules, &rule_ids);
                self.resolved.push(Resolved { thread_id, category, actions });
                proof {
                    assert(self.resolved@.drop_last() =~= old(self).resolved@);
                }
            },
            Reply::Known => {
                let category: Option<String> = match self.cache.get(domain) {
                    Some(c) => clone_opt(c),
                    None => match self.decided.get(domain) {
                        Some(c) => clone_opt(c),
                        None => None,
                    },
                };
                self.resolved.push(Resolved { thread_id, category, actions: Vec::new() });
                proof {
                    assert(self.resolved@.drop_last() =~= old(self).resolved@);
                }
            },
            Reply::Category(category) => {
                let keyword: String = match &category {
                    Some(k) => k.clone(),
                    None => String::new(),
                };
                let copy: Option<String> = clone_opt(&category);
                self.decided.insert(owned(domain), category);
                self.cache_writes.push((owned(domain), keyword));
                self.resolved.push(
                    Resolved { thread_id, category: copy, actions: Vec::new() },
                );
                proof {
                    assert(self.resolved@.drop_last() =~= old(self).resolved@);
                    assert(self.cache_writes@.drop_last() =~= old(self).cache_writes@);
                }
            },
        }
    }
}

/// In one pass the category of a sender is asked for once: as soon as it has
/// been answered, it is known.
pub proof fn sender_is_asked_about_once(
    before: Classifier,
    after: Classifier,
    domain: Seq<char>,
    category: Option<String>,
)
    requires
        before.asks(domain) is Category,
        after.rules == before.rules,
        after.cache == before.cache,
        after.decided@ == before.decided@.insert(domain, category),
    ensures
        after.asks(domain) is Nothing,
        after.known(domain) == opt_text(category),
        forall|other: Seq<char>| before.knows(other) ==> #[trigger] after.knows(other),
{
}

// ---------------------------------------------------------------------------
// Carrying out
// ---------------------------------------------------------------------------

/// Where a route leads.
#[derive(Debug, Clone, Copy, PartialEq, Eq, Structural)]
pub enum RouteTarget {
    /// Important or Other, which are always there.
    Builtin,
    Split(i64),
    Label(i64),
    /// No tab at all.
    Nowhere,
}

/// What stands behind a prefix.
pub open spec fn after_prefix(s: Seq<char>, p: Seq<char>) -> Seq<char> {
    s.skip(p.len() as int)
}

/// The tab that a route names.
pub open spec fn route_target(target: Seq<char>) -> RouteTarget {
    if target == "important"@ || target == "other"@ {
        RouteTarget::Builtin
    } else if starts_with(target, "split:"@) {
        match parsed_i64(after_prefix(target, "split:"@)) {
            Some(id) => RouteTarget::Split(id),
            None => RouteTarget::Nowhere,
        }
    } else if starts_with(target, "label:"@) {
        match parsed_i64(after_prefix(target, "label:"@)) {
            Some(id) => RouteTarget::Label(id),
            None => RouteTarget::Nowhere,
        }
    } else {
        RouteTarget::Nowhere
    }
}

fn id_after(target: &str, prefix_len: usize) -> (r: Option<i64>)
    requires
        prefix_len <= target@.len(),
    ensures
        r == parsed_i64(target@.skip(prefix_len as int)),
{
    let cs: Vec<char> = chars_of(target);
    let rest: String = string_of(vstd::slice::slice_subrange(cs.as_slice(), prefix_len, cs.len()));
    proof {
        assert(cs@.subrange(prefix_len as int, cs@.len() as int) =~= target@.skip(
            prefix_len as int,
        ));
    }
    parse_i64(rest.as_str())
}

/// Reads a route. Whether its tab is still there is for the stored rows to
/// say.
pub fn read_route(target: &str) -> (r: RouteTarget)
    ensures
        r == route_target(target@),
{
    if target.eq("important") || target.eq("other") {
        return RouteTarget::Builtin;
    }
    proof {
        reveal_strlit("split:");
        reveal_strlit("label:");
    }
    if starts_with_str(target, "split:") {
        match id_after(target, 6) {
            Some(id) => RouteTarget::Split(id),
            None => RouteTarget::Nowhere,
        }
    } else if starts_with_str(target, "label:") {
        match id_after(target, 6) {
            Some(id) => RouteTarget::Label(id),
            None => RouteTarget::Nowhere,
        }
    } else {
        RouteTarget::Nowhere
    }
}

/// Whether a route may be taken: it leads to a tab, and a tab of the user's is
/// still there. `exists` says so of a split or a label.
pub fn valid_automation_route(target: &str, exists: bool) -> (r: bool)
    ensures
        r == (match route_target(target@) {
            RouteTarget::Builtin => true,
            RouteTarget::Split(_) => exists,
            RouteTarget::Label(_) => exists,
            RouteTarget::Nowhere => false,
        }),
        target@ == "important"@ || target@ == "other"@ ==> r,
        route_target(target@) is Nowhere ==> !r,
        !exists ==> (r <==> route_target(target@) is Builtin),
{
    match read_route(target) {
        RouteTarget::Builtin => true,
        RouteTarget::Split(_) => exists,
        RouteTarget::Label(_) => exists,
        RouteTarget::Nowhere => false,
    }
}

/// The tab of a category, by the id of its label.
pub fn category_tab(label_id: Option<i64>) -> (r: Option<String>)
    ensures
        opt_text(r) == (match label_id {
            Some(id) => Some("label:"@ + decimal_int(id as int)),
            None => None,
        }),
{
    match label_id {
        Some(id) => {
            let number: String = i64_text(id);
            Some(concat2("label:", number.as_str()))
        },
        None => None,
    }
}

/// The routes that actions take, in their order. `valid[i]` says whether the
/// route of action `i` may be taken.
pub open spec fn routes_of(actions: Seq<AiAutomationAction>, valid: Seq<bool>) -> Seq<Seq<char>>
    decreases actions.len(),
{
    if actions.len() == 0 {
        Seq::empty()
    } else {
        let rest = routes_of(actions.drop_last(), valid);
        let a = actions.last();
        if a.kind@ == "route_to"@ && valid[actions.len() - 1] {
            rest.push(a.value@)
        } else {
            rest
        }
    }
}

/// What the actions put before the subject.
pub open spec fn prefixes_of(actions: Seq<AiAutomationAction>) -> Seq<Seq<char>>
    decreases actions.len(),
{
    if actions.len() == 0 {
        Seq::empty()
    } else {
        let rest = prefixes_of(actions.drop_last());
        let a = actions.last();
        if a.kind@ == "subject_prefix"@ && !is_blank(a.value@) {
            rest.push(a.value@)
        } else {
            rest
        }
    }
}

/// What the actions add below the text.
pub open spec fn notes_of(actions: Seq<AiAutomationAction>) -> Seq<Seq<char>>
    decreases actions.len(),
{
    if actions.len() == 0 {
        Seq::empty()
    } else {
        let rest = notes_of(actions.drop_last());
        let a = actions.last();
        if a.kind@ == "body_note"@ && !is_blank(a.value@) {
            rest.push(trim(a.value@))
        } else {
            rest
        }
    }
}

/// Of the actions the routes that may be taken lead to tabs, what stands before the
/// subject is put there, and what says something is noted; nothing is taken for
/// another.
pub proof fn actions_do_what_their_kind_says(
    actions: Seq<AiAutomationAction>,
    valid: Seq<bool>,
    v: Seq<char>,
)
    ensures
        routes_of(actions, valid).contains(v) <==> exists|i: int|
            0 <= i < actions.len() && (#[trigger] actions[i]).kind@ == "route_to"@ && valid[i]
                && actions[i].value@ == v,
        prefixes_of(actions).contains(v) <==> exists|i: int|
            0 <= i < actions.len() && (#[trigger] actions[i]).kind@ == "subject_prefix"@
                && !is_blank(actions[i].value@) && actions[i].value@ == v,
        notes_of(actions).contains(v) <==> exists|i: int|
            0 <= i < actions.len() && (#[trigger] actions[i]).kind@ == "body_note"@ && !is_blank(
                actions[i].value@,
            ) && trim(actions[i].value@) == v,
    decreases actions.len(),
{
    if actions.len() > 0 {
        let n = actions.len() - 1;
        let front = actions.drop_last();
        actions_do_what_their_kind_says(front, valid, v);
        assert(forall|i: int| 0 <= i < n ==> front[i] == #[trigger] actions[i]);
        assert(actions[n] == actions.last());
        lemma_pushed(routes_of(front, valid), actions[n].value@);
        lemma_pushed(prefixes_of(front), actions[n].value@);
        lemma_pushed(notes_of(front), trim(actions[n].value@));
        if routes_of(front, valid).contains(v) {
            let i = choose|i: int|
                0 <= i < front.len() && (#[trigger] front[i]).kind@ == "route_to"@ && valid[i]
                    && front[i].value@ == v;
            assert(actions[i].value@ == v);
        }
        if prefixes_of(front).contains(v) {
            let i = choose|i: int|
                0 <= i < front.len() && (#[trigger] front[i]).kind@ == "subject_prefix"@
                    && !is_blank(front[i].value@) && front[i].value@ == v;
            assert(actions[i].value@ == v);
        }
        if notes_of(front).contains(v) {
            let i = choose|i: int|
                0 <= i < front.len() && (#[trigger] front[i]).kind@ == "body_note"@ && !is_blank(
                    front[i].value@,
                ) && trim(front[i].value@) == v;
            assert(trim(actions[i].value@) == v);
        }
        if exists|i: int|
            0 <= i < actions.len() && (#[trigger] actions[i]).kind@ == "route_to"@ && valid[i]
                && actions[i].value@ == v {
            let i = choose|i: int|
                0 <= i < actions.len() && (#[trigger] actions[i]).kind@ == "route_to"@ && valid[i]
                    && actions[i].value@ == v;
            if i < n {
                assert(front[i].value@ == v);
            }
        }
        if exists|i: int|
            0 <= i < actions.len() && (#[trigger] actions[i]).kind@ == "subject_prefix"@
                && !is_blank(actions[i].value@) && actions[i].value@ == v {
            let i = choose|i: int|
                0 <= i < actions.len() && (#[trigger] actions[i]).kind@ == "subject_prefix"@
                    && !is_blank(actions[i].value@) && actions[i].value@ == v;
            if i < n {
                assert(front[i].value@ == v);
            }
        }
        if exists|i: int|
            0 <= i < actions.len() && (#[trigger] actions[i]).kind@ == "body_note"@ && !is_blank(
                actions[i].value@,
            ) && trim(actions[i].value@) == v {
            let i = choose|i: int|
                0 <= i < actions.len() && (#[trigger] actions[i]).kind@ == "body_note"@ && !is_blank(
                    actions[i].value@,
                ) && trim(actions[i].value@) == v;
            if i < n {
                assert(trim(front[i].value@) == v);
            }
        }
    }
}

/// What is shown beside the newest received message of a thread. The mail
/// itself is never changed.
#[derive(Debug, Clone)]
pub struct Annotation {
    pub subject_prefix: String,
    pub body_note: String,
}

/// What the actions of a thread change locally.
#[derive(Debug)]
pub struct LocalOutcome {
    /// The tabs that the thread is put into, one after the other.
    pub routes: Vec<String>,
    /// None where the stored annotation stays.
    pub annotation: Option<Annotation>,
}

/// What the actions of a thread change locally: its tab, and what is shown
/// beside its newest received message.
pub fn local_outcome(actions: &Vec<AiAutomationAction>, valid: &Vec<bool>) -> (r: LocalOutcome)
    requires
        valid@.len() == actions@.len(),
    ensures
        texts(r.routes@) == routes_of(actions@, valid@),
        r.annotation is Some <==> prefixes_of(actions@).len() > 0 || notes_of(actions@).len() > 0,
        r.annotation matches Some(a) ==> {
            &&& a.subject_prefix@ == join(prefixes_of(actions@), ""@)
            &&& a.body_note@ == join(notes_of(actions@), "\n\n"@)
        },
{
    let mut routes: Vec<String> = Vec::new();
    let mut prefixes: Vec<String> = Vec::new();
    let mut notes: Vec<String> = Vec::new();
    let mut i: usize = 0;
    proof {
        assert(texts(routes@) =~= routes_of(actions@.take(0), valid@));
        assert(texts(prefixes@) =~= prefixes_of(actions@.take(0)));
        assert(texts(notes@) =~= notes_of(actions@.take(0)));
    }
    while i < actions.len()
        invariant
            i <= actions@.len(),
            valid@.len() == actions@.len(),
            texts(routes@) == routes_of(actions@.take(i as int), valid@),
            texts(prefixes@) == prefixes_of(actions@.take(i as int)),
            texts(notes@) == notes_of(actions@.take(i as int)),
        decreases actions@.len() - i,
    {
        let a: &AiAutomationAction = &actions[i];
        let ghost (r0, p0, n0) = (routes@, prefixes@, notes@);
        proof {
            assert(actions@.take(i + 1).drop_last() =~= actions@.take(i as int));
            assert(actions@.take(i + 1).last() == actions@[i as int]);
            reveal_strlit("route_to");
            reveal_strlit("subject_prefix");
            reveal_strlit("body_note");
            assert("route_to"@[0] == 'r' && "subject_prefix"@[0] == 's' && "body_note"@[0] == 'b');
        }
        if a.kind.as_str().eq("route_to") {
            if valid[i] {
                routes.push(a.value.clone());
                proof {
                    assert(texts(routes@) =~= texts(r0).push(a.value@));
                }
            }
        } else if a.kind.as_str().eq("subject_prefix") {
            if !blank(a.value.as_str()) {
                prefixes.push(a.value.clone());
                proof {
                    assert(texts(prefixes@) =~= texts(p0).push(a.value@));
                }
            }
        } else if a.kind.as_str().eq("body_note") {
            if !blank(a.value.as_str()) {
                notes.push(trim_str(a.value.as_str()));
                proof {
                    assert(texts(notes@) =~= texts(n0).push(trim(a.value@)));
                }
            }
        }
        i = i + 1;
    }
    proof {
        assert(actions@.take(actions@.len() as int) =~= actions@);
        assert(texts(prefixes@).len() == prefixes@.len());
        assert(texts(notes@).len() == notes@.len());
    }
    let annotation: Option<Annotation> = if prefixes.len() > 0 || notes.len() > 0 {
        Some(
            Annotation {
                subject_prefix: join_texts(&prefixes, ""),
                body_note: join_texts(&notes, "\n\n"),
            },
        )
    } else {
        None
    };
    LocalOutcome { routes, annotation }
}

/// The mailbox action that an automation stands for. It goes the way of the
/// user's own actions.
pub open spec fn mailbox_step(a: AiAutomationAction) -> Option<(ActionKind, Option<ActionParams>)> {
    let kind = a.kind@;
    if kind == "mark_read"@ {
        Some((ActionKind::MarkRead, None))
    } else if kind == "star"@ {
        Some((ActionKind::Star, None))
    } else if kind == "archive"@ {
        Some((ActionKind::Archive, None))
    } else if kind == "trash"@ {
        Some((ActionKind::Trash, None))
    } else if kind == "add_label"@ || kind == "remove_label"@ {
        match parsed_i64(a.value@) {
            Some(id) => Some(
                (
                    if kind == "add_label"@ {
                        ActionKind::AddLabel
                    } else {
                        ActionKind::RemoveLabel
                    },
                    Some(
                        ActionParams { wake_at: None, target_folder_id: None, label_id: Some(id) },
                    ),
                ),
            ),
            None => None,
        }
    } else {
        None
    }
}

/// An automation does to the mailbox what the user's own action of that name does,
/// on the label that it names; it never sends, snoozes or moves mail elsewhere.
pub proof fn automations_act_under_their_own_name(a: AiAutomationAction)
    ensures
        mailbox_step(a) matches Some((kind, params)) ==> kind.name() == a.kind@ && (kind
            is MarkRead || kind is Star || kind is Archive || kind is Trash || kind is AddLabel
            || kind is RemoveLabel) && (kind is AddLabel || kind is RemoveLabel ==> params is Some
            && params->0.label_id is Some && params->0.label_id == parsed_i64(a.value@)),
        a.kind@ == "mark_read"@ || a.kind@ == "star"@ || a.kind@ == "archive"@ || a.kind@
            == "trash"@ ==> mailbox_step(a) is Some,
        (a.kind@ == "add_label"@ || a.kind@ == "remove_label"@) && parsed_i64(a.value@) is Some
            ==> mailbox_step(a) is Some,
{
}

/// A tab that is written by its number is found again under it.
pub proof fn routes_find_their_tabs(id: i64)
    ensures
        route_target("split:"@ + decimal_int(id as int)) == RouteTarget::Split(id),
        route_target("label:"@ + decimal_int(id as int)) == RouteTarget::Label(id),
        route_target("important"@) is Builtin,
        route_target("other"@) is Builtin,
{
    reveal_strlit("split:");
    reveal_strlit("label:");
    reveal_strlit("important");
    reveal_strlit("other");
    numbers_are_read_back(id);
    let number = decimal_int(id as int);
    let split = "split:"@ + number;
    let label = "label:"@ + number;
    assert(split[0] == 's' && label[0] == 'l');
    assert("important"@[0] == 'i' && "other"@[0] == 'o');
    assert(split.subrange(0, 6) =~= "split:"@);
    assert(label.subrange(0, 6) =~= "label:"@);
    assert(split.skip(6) =~= number);
    assert(label.skip(6) =~= number);
    assert(!starts_with(label, "split:"@)) by {
        if starts_with(label, "split:"@) {
            assert(label.subrange(0, 6)[0] == "split:"@[0]);
        }
    }
}

pub fn mailbox_action(a: &AiAutomationAction) -> (r: Option<(ActionKind, Option<ActionParams>)>)
    ensures
        r == mailbox_step(*a),
{
    let kind: &str = a.kind.as_str();
    if kind.eq("mark_read") {
        return Some((ActionKind::MarkRead, None));
    }
    if kind.eq("star") {
        return Some((ActionKind::Star, None));
    }
    if kind.eq("archive") {
        return Some((ActionKind::Archive, None));
    }
    if kind.eq("trash") {
        return Some((ActionKind::Trash, None));
    }
    let adds: bool = kind.eq("add_label");
    if adds || kind.eq("remove_label") {
        match parse_i64(a.value.as_str()) {
            Some(id) => Some(
                (
                    if adds {
                        ActionKind::AddLabel
                    } else {
                        ActionKind::RemoveLabel
                    },
                    Some(
                        ActionParams { wake_at: None, target_folder_id: None, label_id: Some(id) },
                    ),
                ),
            ),
            None => None,
        }
    } else {
        None
    }
}

pub open spec fn labels(actions: Seq<AiAutomationAction>) -> bool {
    exists|k: int| 0 <= k < actions.len() && (#[trigger] actions[k]).kind@ == "add_label"@
}

/// The threads that may have gained a label, so that a rule for labels may now
/// route them.
pub open spec fn relabeled(resolved: Seq<Resolved>) -> Seq<i64>
    decreases resolved.len(),
{
    if resolved.len() == 0 {
        Seq::empty()
    } else if labels(resolved.last().actions@) {
        relabeled(resolved.drop_last()).push(resolved.last().thread_id)
    } else {
        relabeled(resolved.drop_last())
    }
}

/// The threads that gained a label are those of which an action adds one.
pub proof fn labelled_threads_are_routed_again(resolved: Seq<Resolved>, id: i64)
    ensures
        relabeled(resolved).contains(id) <==> exists|i: int|
            0 <= i < resolved.len() && (#[trigger] resolved[i]).thread_id == id && exists|k: int|
                0 <= k < resolved[i].actions@.len() && (#[trigger] resolved[i].actions@[k]).kind@
                    == "add_label"@,
    decreases resolved.len(),
{
    if resolved.len() > 0 {
        let n = resolved.len() - 1;
        let front = resolved.drop_last();
        labelled_threads_are_routed_again(front, id);
        lemma_pushed(relabeled(front), resolved[n].thread_id);
        assert(forall|i: int| 0 <= i < n ==> front[i] == #[trigger] resolved[i]);
        assert(resolved[n] == resolved.last());
        if relabeled(front).contains(id) {
            let i = choose|i: int|
                0 <= i < front.len() && (#[trigger] front[i]).thread_id == id && labels(
                    front[i].actions@,
                );
            assert(resolved[i].thread_id == id);
        }
        if exists|i: int|
            0 <= i < resolved.len() && (#[trigger] resolved[i]).thread_id == id && labels(
                resolved[i].actions@,
            ) {
            let i = choose|i: int|
                0 <= i < resolved.len() && (#[trigger] resolved[i]).thread_id == id && labels(
                    resolved[i].actions@,
                );
            if i < n {
                assert(front[i].thread_id == id);
            }
        }
    }
}

fn adds_label(actions: &Vec<AiAutomationAction>) -> (r: bool)
    ensures
        r == labels(actions@),
{
    let mut k: usize = 0;
    while k < actions.len()
        invariant
            k <= actions@.len(),
            forall|j: int| 0 <= j < k ==> (#[trigger] actions@[j]).kind@ != "add_label"@,
        decreases actions@.len() - k,
    {
        if actions[k].kind.as_str().eq("add_label") {
            proof {
                assert(actions@[k as int].kind@ == "add_label"@);
            }
            return true;
        }
        k = k + 1;
    }
    false
}

pub fn relabeled_threads(resolved: &Vec<Resolved>) -> (r: Vec<i64>)
    ensures
        r@ == relabeled(resolved@),
{
    let mut out: Vec<i64> = Vec::new();
    let mut i: usize = 0;
    while i < resolved.len()
        invariant
            i <= resolved@.len(),
            out@ == relabeled(resolved@.take(i as int)),
        decreases resolved@.len() - i,
    {
        proof {
            assert(resolved@.take(i + 1).drop_last() =~= resolved@.take(i as int));
        }
        if adds_label(&resolved[i].actions) {
            out.push(resolved[i].thread_id);
        }
        i = i + 1;
    }
    proof {
        assert(resolved@.take(resolved@.len() as int) =~= resolved@);
    }
    out
}

// ---------------------------------------------------------------------------
// Tabs
// ---------------------------------------------------------------------------

/// Which row of a tab gets a new position.
#[derive(Debug, Clone, Copy, PartialEq, Eq, Structural)]
pub enum TabRow {
    Split(i64),
    Label(i64),
}

pub open spec fn tab_row(kind: Seq<char>, id: i64) -> Option<TabRow> {
    if kind == "split"@ {
        Some(TabRow::Split(id))
    } else if kind == "label"@ {
        Some(TabRow::Label(id))
    } else {
        None
    }
}

/// The rows and their positions: the place in the order is the position. What
/// is neither a split nor a label has no row, but keeps its place.
pub open spec fn tab_positions(order: Seq<(String, i64)>) -> Seq<(TabRow, i64)>
    decreases order.len(),
{
    if order.len() == 0 {
        Seq::empty()
    } else {
        let rest = tab_positions(order.drop_last());
        match tab_row(order.last().0@, order.last().1) {
            Some(row) => rest.push((row, (order.len() - 1) as i64)),
            None => rest,
        }
    }
}

/// Each split and each label gets its own place in the order as its position.
pub proof fn tabs_get_their_places(order: Seq<(String, i64)>)
    requires
        order.len() <= i64::MAX,
    ensures
        forall|row: TabRow, at: i64| #[trigger]
            tab_positions(order).contains((row, at)) <==> 0 <= at < order.len() && ((
            order[at as int].0@ == "split"@ && row == TabRow::Split(order[at as int].1)) || (
            order[at as int].0@ == "label"@ && row == TabRow::Label(order[at as int].1))),
    decreases order.len(),
{
    reveal_strlit("split");
    reveal_strlit("label");
    assert("split"@[0] == 's' && "label"@[0] == 'l');
    if order.len() > 0 {
        let n = order.len() - 1;
        let front = order.drop_last();
        tabs_get_their_places(front);
        assert(forall|i: int| 0 <= i < n ==> front[i] == #[trigger] order[i]);
        if let Some(row) = tab_row(order[n].0@, order[n].1) {
            lemma_pushed(tab_positions(front), (row, n as i64));
        }
    }
}

/// The positions that a new order of the tabs gives. One order is shared by
/// splits and labels.
pub fn reorder_tabs(order: &Vec<(String, i64)>) -> (r: Vec<(TabRow, i64)>)
    requires
        order@.len() <= i64::MAX,
    ensures
        r@ == tab_positions(order@),
{
    let mut out: Vec<(TabRow, i64)> = Vec::new();
    let mut i: usize = 0;
    while i < order.len()
        invariant
            i <= order@.len() <= i64::MAX,
            out@ == tab_positions(order@.take(i as int)),
        decreases order@.len() - i,
    {
        proof {
            assert(order@.take(i + 1).drop_last() =~= order@.take(i as int));
            assert(order@.take(i + 1).last() == order@[i as int]);
        }
        let kind: &str = order[i].0.as_str();
        let id: i64 = order[i].1;
        let at: i64 = i as i64;
        if kind.eq("split") {
            out.push((TabRow::Split(id), at));
        } else if kind.eq("label") {
            out.push((TabRow::Label(id), at));
        }
        i = i + 1;
    }
    proof {
        assert(order@.take(order@.len() as int) =~= order@);
    }
    out
}

/// Whether the routing is resolved anew after the tabs were ordered: where the
/// splits stand in another order than before. Moving a label changes nothing,
/// since the first split that matches wins.
pub fn splits_moved(before: &Vec<i64>, after: &Vec<i64>) -> (r: bool)
    ensures
        r == (before@ != after@),
{
    if before.len() != after.len() {
        return true;
    }
    let mut i: usize = 0;
    while i < before.len()
        invariant
            i <= before@.len() == after@.len(),
            forall|k: int| 0 <= k < i ==> before@[k] == #[trigger] after@[k],
        decreases before@.len() - i,
    {
        if before[i] != after[i] {
            return true;
        }
        i = i + 1;
    }
    proof {
        assert(before@ =~= after@);
    }
    false
}

} // verus!
