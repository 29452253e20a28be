//! What a message's BODYSTRUCTURE says about its parts: the sections that make
//! it readable, and the attachments that stay on the server.

use vstd::prelude::*;

use crate::text::{clone_opt, eq_ignore_case, lower, texts};

verus! {

/// The version of the plans that this build reads and writes.
pub const MIME_PLAN_VERSION: u32 = 2;

#[derive(Debug, Clone, Copy, PartialEq, Eq, Structural)]
pub enum TextSectionKind {
    Plain,
    Html,
    Calendar,
}

/// A section of readable text.
#[derive(Debug, Clone, PartialEq, Eq)]
pub struct PlannedTextSection {
    pub section: String,
    pub kind: TextSectionKind,
    pub mime_type: String,
    pub charset: Option<String>,
    pub transfer_encoding: String,
    pub size: u32,
}

/// An attachment as BODYSTRUCTURE describes it.
#[derive(Debug, Clone, PartialEq, Eq)]
pub struct PlannedAttachment {
    pub section: String,
    pub filename: Option<String>,
    pub mime_type: String,
    pub size: u32,
    pub content_id: Option<String>,
    pub is_inline: bool,
    pub transfer_encoding: String,
}

#[derive(Debug, Clone, PartialEq, Eq)]
pub struct MimePlan {
    pub version: u32,
    pub text_sections: Vec<PlannedTextSection>,
    pub attachments: Vec<PlannedAttachment>,
}

/// The section numbers of a list of text sections, in order.
pub open spec fn section_ids(sections: Seq<PlannedTextSection>) -> Seq<Seq<char>> {
    sections.map_values(|s: PlannedTextSection| s.section@)
}

impl MimePlan {
    /// The layout of the readable text: the section numbers in order.
    pub open spec fn layout(self) -> Seq<Seq<char>> {
        section_ids(self.text_sections@)
    }

    pub fn text_section_ids(&self) -> (r: Vec<String>)
        ensures
            texts(r@) == self.layout(),
    {
        let mut out: Vec<String> = Vec::new();
        let mut i: usize = 0;
        let ghost all = self.text_sections@;
        while i < self.text_sections.len()
            invariant
                i <= self.text_sections@.len(),
                all == self.text_sections@,
                texts(out@) == section_ids(all.take(i as int)),
            decreases self.text_sections@.len() - i,
        {
            let ghost before = out@;
            out.push(self.text_sections[i].section.clone());
            i = i + 1;
            proof {
                assert(texts(out@) =~= texts(before).push(all[i - 1].section@));
                assert(section_ids(all.take(i as int)) =~= section_ids(all.take(i - 1)).push(
                    all[i - 1].section@,
                ));
            }
        }
        proof {
            assert(all.take(all.len() as int) =~= all);
        }
        out
    }

    /// The two plans say the same.
    pub open spec fn same_as(self, other: MimePlan) -> bool {
        self.version == other.version && self.text_sections@ == other.text_sections@
            && self.attachments@ == other.attachments@
    }

    /// The same plan once more.
    pub fn copy(&self) -> (r: MimePlan)
        ensures
            r.same_as(*self),
    {
        let mut text_sections: Vec<PlannedTextSection> = Vec::new();
        let mut i: usize = 0;
        while i < self.text_sections.len()
            invariant
                i <= self.text_sections@.len(),
                text_sections@ == self.text_sections@.take(i as int),
            decreases self.text_sections@.len() - i,
        {
            let s: &PlannedTextSection = &self.text_sections[i];
            text_sections.push(
                PlannedTextSection {
                    section: s.section.clone(),
                    kind: s.kind,
                    mime_type: s.mime_type.clone(),
                    charset: clone_opt(&s.charset),
                    transfer_encoding: s.transfer_encoding.clone(),
                    size: s.size,
                },
            );
            i = i + 1;
            proof {
                assert(text_sections@ =~= self.text_sections@.take(i as int));
            }
        }
        let mut attachments: Vec<PlannedAttachment> = Vec::new();
        let mut k: usize = 0;
        while k < self.attachments.len()
            invariant
                k <= self.attachments@.len(),
                attachments@ == self.attachments@.take(k as int),
            decreases self.attachments@.len() - k,
        {
            let a: &PlannedAttachment = &self.attachments[k];
            attachments.push(
                PlannedAttachment {
                    section: a.section.clone(),
                    filename: clone_opt(&a.filename),
                    mime_type: a.mime_type.clone(),
                    size: a.size,
                    content_id: clone_opt(&a.content_id),
                    is_inline: a.is_inline,
                    transfer_encoding: a.transfer_encoding.clone(),
                },
            );
            k = k + 1;
            proof {
                assert(attachments@ =~= self.attachments@.take(k as int));
            }
        }
        proof {
            assert(self.text_sections@.take(self.text_sections@.len() as int)
                =~= self.text_sections@);
            assert(self.attachments@.take(self.attachments@.len() as int) =~= self.attachments@);
        }
        MimePlan { version: self.version, text_sections, attachments }
    }

    /// Some attachment is a file of its own, not an inline image.
    pub open spec fn has_files(self) -> bool {
        exists|i: int| 0 <= i < self.attachments@.len() && !(#[trigger] self.attachments@[i]).is_inline
    }

    pub fn has_file_attachments(&self) -> (r: bool)
        ensures
            r == self.has_files(),
            !r <==> forall|i: int|
                0 <= i < self.attachments@.len() ==> (#[trigger] self.attachments@[i]).is_inline,
    {
        let mut i: usize = 0;
        while i < self.attachments.len()
            invariant
                i <= self.attachments@.len(),
                forall|j: int| 0 <= j < i ==> (#[trigger] self.attachments@[j]).is_inline,
            decreases self.attachments@.len() - i,
        {
            if !self.attachments[i].is_inline {
                return true;
            }
            i = i + 1;
        }
        false
    }

    /// Some text section has this transfer encoding, in any spelling of case;
    /// where `kind` is given, a section of that kind.
    pub open spec fn encodes(self, kind: Option<TextSectionKind>, encoding: Seq<char>) -> bool {
        exists|i: int|
            0 <= i < self.text_sections@.len() && (kind is None || (
            #[trigger] self.text_sections@[i]).kind == kind->0) && lower(
                self.text_sections@[i].transfer_encoding@,
            ) == lower(encoding)
    }

    pub fn has_encoding(&self, kind: Option<TextSectionKind>, encoding: &str) -> (r: bool)
        ensures
            r == self.encodes(kind, encoding@),
    {
        let mut i: usize = 0;
        while i < self.text_sections.len()
            invariant
                i <= self.text_sections@.len(),
                forall|j: int|
                    0 <= j < i && (kind is None || (#[trigger] self.text_sections@[j]).kind
                        == kind->0) ==> lower(self.text_sections@[j].transfer_encoding@) != lower(
                        encoding@,
                    ),
            decreases self.text_sections@.len() - i,
        {
            let s: &PlannedTextSection = &self.text_sections[i];
            let kind_fits: bool = match kind {
                None => true,
                Some(k) => s.kind == k,
            };
            if kind_fits && eq_ignore_case(s.transfer_encoding.as_str(), encoding) {
                return true;
            }
            i = i + 1;
        }
        false
    }
}

/// A plan that this build can read. A newer schema may assign different
/// semantics to its fields, so a plan of another version is rebuilt rather than
/// interpreted.
pub open spec fn readable_plan(plan: Option<MimePlan>) -> Option<MimePlan> {
    match plan {
        Some(p) if p.version == MIME_PLAN_VERSION => Some(p),
        _ => None,
    }
}

pub fn supported_plan(plan: Option<MimePlan>) -> (r: Option<MimePlan>)
    ensures
        r == readable_plan(plan),
        r is Some <==> plan is Some && plan->0.version == 2,
        r is Some ==> r == plan,
{
    match plan {
        Some(p) => if p.version == MIME_PLAN_VERSION {
            Some(p)
        } else {
            None
        },
        None => None,
    }
}

} // verus!
