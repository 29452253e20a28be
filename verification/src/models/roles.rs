//! Standard IMAP folder roles.

use vstd::prelude::*;

verus! {

pub const INBOX: &'static str = "inbox";

pub const ARCHIVE: &'static str = "archive";

pub const SENT: &'static str = "sent";

pub const DRAFTS: &'static str = "drafts";

pub const TRASH: &'static str = "trash";

pub const SPAM: &'static str = "spam";

pub const ALL: &'static str = "all";

pub const SNOOZED: &'static str = "snoozed";

} // verus!
