//! Reading one message that the user has opened: its sections where they can
//! be had, the whole message where not.

use vstd::prelude::*;

use crate::error::{CoreError, ErrorView};
use crate::mime::{readable_plan, supported_plan, MimePlan};
use crate::sync::batches::PlannedBodyFetch;
use crate::sync::bodies::{
    content_fault, decode_selective_content, is_content_of, DecodedSelectiveContent, FetchedText,
};
use crate::sync::reader::RequestRow;
use crate::text::{concat2, decimal, owned, u64_text};

verus! {

/// Where a message that was opened is read from; nothing where its body is
/// there already or the server does not have it.
pub fn fetch_one_body(row: Option<&RequestRow>, folder_known: bool) -> (r: Result<
    Option<(i64, i64)>,
    CoreError,
>)
    ensures
        match row {
            None => r is Err && r->Err_0@ == ErrorView::NotFound("message"@),
            Some(q) => if q.body_state@ == "cached"@ || q.folder_id is None || q.uid is None {
                r == Ok::<Option<(i64, i64)>, CoreError>(None)
            } else if !folder_known {
                r is Err && r->Err_0@ == ErrorView::NotFound("folder"@)
            } else {
                r == Ok::<Option<(i64, i64)>, CoreError>(Some((q.folder_id->0, q.uid->0)))
            },
        },
{
    let q: &RequestRow = match row {
        Some(q) => q,
        None => return Err(CoreError::NotFound(owned("message"))),
    };
    if q.body_state.as_str().eq("cached") {
        return Ok(None);
    }
    match (q.folder_id, q.uid) {
        (Some(folder_id), Some(uid)) => if folder_known {
            Ok(Some((folder_id, uid)))
        } else {
            Err(CoreError::NotFound(owned("folder")))
        },
        _ => Ok(None),
    }
}

/// What is done next for the message.
#[derive(Debug)]
pub enum OpenStage {
    /// Ask the server for the plan.
    Plan,
    /// Ask for the sections of the plan.
    Sections(MimePlan),
    /// Ask for the whole message.
    Whole,
    StoreContent(DecodedSelectiveContent),
    StoreWhole,
    Failed(CoreError),
}

/// A stage without what is stored in it.
pub enum StageView {
    Plan,
    Sections(MimePlan),
    Whole,
    StoreContent,
    StoreWhole,
    Failed(ErrorView),
}

impl View for OpenStage {
    type V = StageView;

    open spec fn view(&self) -> StageView {
        match *self {
            OpenStage::Plan => StageView::Plan,
            OpenStage::Sections(p) => StageView::Sections(p),
            OpenStage::Whole => StageView::Whole,
            OpenStage::StoreContent(_) => StageView::StoreContent,
            OpenStage::StoreWhole => StageView::StoreWhole,
            OpenStage::Failed(e) => StageView::Failed(e@),
        }
    }
}

/// How it went.
#[derive(Debug)]
pub enum OpenEvent {
    /// The message was no longer in its place, so the server was not asked.
    Moved,
    Plan(Option<MimePlan>),
    Sections(Vec<FetchedText>),
    Whole { found: bool },
    Failed(CoreError),
}

#[derive(Debug)]
pub struct OpenFetch {
    pub message_id: i64,
    pub uid: u32,
    /// The user has asked for the bytes, so the whole message may be fetched.
    pub allow_whole: bool,
    pub stage: OpenStage,
}

/// What follows when a message's sections could not be read.
pub open spec fn without_sections(allow_whole: bool, e: ErrorView) -> StageView {
    if allow_whole {
        StageView::Whole
    } else {
        StageView::Failed(e)
    }
}

impl OpenFetch {
    /// The message with its plan.
    pub open spec fn item(self) -> PlannedBodyFetch {
        PlannedBodyFetch { message_id: self.message_id, uid: self.uid, plan: self.stage->Sections_0 }
    }

    /// The event is an answer to what is done.
    pub open spec fn awaits(self, e: OpenEvent) -> bool {
        match self.stage {
            OpenStage::Plan => e is Moved || e is Plan || e is Failed,
            OpenStage::Sections(_) => e is Moved || e is Sections || e is Failed,
            OpenStage::Whole => e is Moved || e is Whole || e is Failed,
            _ => false,
        }
    }

    pub open spec fn next(self, e: OpenEvent) -> StageView {
        match self.stage {
            OpenStage::Plan => match e {
                OpenEvent::Plan(Some(p)) => StageView::Sections(p),
                OpenEvent::Plan(None) => without_sections(
                    self.allow_whole,
                    ErrorView::Mime("server did not provide a usable BODYSTRUCTURE"@),
                ),
                OpenEvent::Failed(e) => StageView::Failed(e@),
                _ => StageView::Failed(
                    ErrorView::NotFound("message remote location changed before MIME-plan fetch"@),
                ),
            },
            OpenStage::Sections(_) => match e {
                OpenEvent::Sections(fetched) => match content_fault(self.item(), fetched@) {
                    None => StageView::StoreContent,
                    Some(e) => without_sections(self.allow_whole, e),
                },
                OpenEvent::Failed(e) => without_sections(self.allow_whole, e@),
                _ => without_sections(
                    self.allow_whole,
                    ErrorView::NotFound("message remote location changed before content fetch"@),
                ),
            },
            OpenStage::Whole => match e {
                OpenEvent::Whole { found: true } => StageView::StoreWhole,
                OpenEvent::Whole { found: false } => StageView::Failed(
                    ErrorView::NotFound("remote message UID "@ + decimal(self.uid as nat)),
                ),
                OpenEvent::Failed(e) => StageView::Failed(e@),
                _ => StageView::Failed(
                    ErrorView::NotFound(
                        "message remote location changed before full content fetch"@,
                    ),
                ),
            },
            s => s@,
        }
    }

    /// A stored plan is used where it can be read. A newer schema may assign
    /// different semantics to its fields, so any other is asked for anew.
    pub fn begin(message_id: i64, uid: u32, stored: Option<MimePlan>, allow_whole: bool) -> (r:
        OpenFetch)
        ensures
            r.message_id == message_id,
            r.uid == uid,
            r.allow_whole == allow_whole,
            r.stage == (match readable_plan(stored) {
                Some(p) => OpenStage::Sections(p),
                None => OpenStage::Plan,
            }),
            r.stage is Sections <==> stored is Some && stored->0.version == 2,
            r.stage is Plan <==> stored is None || stored->0.version != 2,
    {
        let stage: OpenStage = match supported_plan(stored) {
            Some(p) => OpenStage::Sections(p),
            None => OpenStage::Plan,
        };
        OpenFetch { message_id, uid, allow_whole, stage }
    }

    fn fall_back(allow_whole: bool, error: CoreError) -> (r: OpenStage)
        ensures
            r@ == without_sections(allow_whole, error@),
            !(r is StoreContent),
    {
        if allow_whole {
            OpenStage::Whole
        } else {
            OpenStage::Failed(error)
        }
    }

    /// Takes in how it went. Only failures to get at the sections are eligible
    /// for the whole message.
    pub fn step(self, e: OpenEvent) -> (r: OpenFetch)
        requires
            self.awaits(e),
        ensures
            r.message_id == self.message_id,
            r.uid == self.uid,
            r.allow_whole == self.allow_whole,
            r.stage@ == self.next(e),
            r.stage matches OpenStage::StoreContent(c) ==> is_content_of(
                self.item(),
                e->Sections_0@,
                c,
            ),
    {
        let OpenFetch { message_id, uid, allow_whole, stage } = self;
        let next: OpenStage = match stage {
            OpenStage::Plan => match e {
                OpenEvent::Plan(Some(p)) => OpenStage::Sections(p),
                OpenEvent::Plan(None) => OpenFetch::fall_back(
                    allow_whole,
                    CoreError::Mime(owned("server did not provide a usable BODYSTRUCTURE")),
                ),
                OpenEvent::Failed(e) => OpenStage::Failed(e),
                _ => OpenStage::Failed(
                    CoreError::NotFound(
                        owned("message remote location changed before MIME-plan fetch"),
                    ),
                ),
            },
            OpenStage::Sections(plan) => match e {
                OpenEvent::Sections(fetched) => {
                    let item: PlannedBodyFetch = PlannedBodyFetch { message_id, uid, plan };
                    match decode_selective_content(item, &fetched) {
                        Ok(content) => OpenStage::StoreContent(content),
                        Err(e) => OpenFetch::fall_back(allow_whole, e),
                    }
                },
                OpenEvent::Failed(e) => OpenFetch::fall_back(allow_whole, e),
                _ => OpenFetch::fall_back(
                    allow_whole,
                    CoreError::NotFound(
                        owned("message remote location changed before content fetch"),
                    ),
                ),
            },
            OpenStage::Whole => match e {
                OpenEvent::Whole { found } => if found {
                    OpenStage::StoreWhole
                } else {
                    let number: String = u64_text(uid as u64);
                    OpenStage::Failed(
                        CoreError::NotFound(concat2("remote message UID ", number.as_str())),
                    )
                },
                OpenEvent::Failed(e) => OpenStage::Failed(e),
                _ => OpenStage::Failed(
                    CoreError::NotFound(
                        owned("message remote location changed before full content fetch"),
                    ),
                ),
            },
            s => s,
        };
        OpenFetch { message_id, uid, allow_whole, stage: next }
    }
}

/// How much may still be asked of the server.
pub open spec fn requests_left(s: StageView) -> int {
    match s {
        StageView::Plan => 3,
        StageView::Sections(_) => 2,
        StageView::Whole => 1,
        _ => 0,
    }
}

/// Opening ends after three requests at most.
pub proof fn opening_ends(f: OpenFetch, e: OpenEvent)
    requires
        f.awaits(e),
    ensures
        requests_left(f.next(e)) < requests_left(f.stage@) <= 3,
{
}

/// What opening a message does in turn: it asks for the layout, then for the
/// sections that the layout names, and stores them where they can be read. The
/// whole message is stored where the server has it. What fails ends it, with the
/// failure that the server gave.
pub proof fn opening_runs_in_order(f: OpenFetch, e: OpenEvent)
    requires
        f.awaits(e),
    ensures
        f.stage is Plan ==> (e matches OpenEvent::Plan(Some(p)) ==> f.next(e)
            == StageView::Sections(p)),
        f.stage is Sections ==> (e matches OpenEvent::Sections(fetched) ==> (content_fault(
            f.item(),
            fetched@,
        ) is None ==> f.next(e) is StoreContent)),
        f.next(e) is StoreContent ==> f.stage is Sections && (e matches OpenEvent::Sections(fetched)
            && content_fault(f.item(), fetched@) is None),
        f.next(e) is StoreWhole <==> f.stage is Whole && e == (OpenEvent::Whole { found: true }),
        f.stage is Whole && e == (OpenEvent::Whole { found: false }) ==> f.next(e) is Failed,
        f.stage is Plan || f.stage is Whole ==> (e matches OpenEvent::Failed(why) ==> f.next(e)
            == StageView::Failed(why@)),
        !f.allow_whole && f.stage is Sections ==> (e matches OpenEvent::Failed(why) ==> f.next(e)
            == StageView::Failed(why@)),
        !f.allow_whole && f.stage is Plan && (e matches OpenEvent::Plan(None)) ==> f.next(e)
            is Failed,
        e is Moved && (!f.allow_whole || f.stage is Plan || f.stage is Whole) ==> (f.next(e)
            matches StageView::Failed(why) && why is NotFound),
{
}

/// An explicit open does not fail because sections cannot be had: the whole
/// message is asked for. Background work never asks for it.
pub proof fn opened_mail_is_asked_for_whole(f: OpenFetch, e: OpenEvent)
    requires
        f.awaits(e),
    ensures
        f.allow_whole && f.stage is Sections ==> f.next(e) is StoreContent || f.next(e) is Whole,
        f.allow_whole && f.stage is Plan && e is Plan ==> f.next(e) is Sections
            || f.next(e) is Whole,
        !f.allow_whole && !(f.stage is Whole) ==> !(f.next(e) is Whole)
            && !(f.next(e) is StoreWhole),
{
}

} // verus!
