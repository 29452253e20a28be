//! The decisions of a mail client.

pub mod accounts;
pub mod actions;
pub mod ai;
pub mod attachments;
pub mod automation;
pub mod bytes;
pub mod calendar;
pub mod compose;
pub mod dict;
pub mod error;
pub mod files;
pub mod host;
pub mod json;
pub mod lists;
pub mod messages;
pub mod mime;
pub mod models;
pub mod queue;
pub mod reading;
pub mod routing;
pub mod sort;
pub mod startup;
pub mod store;
pub mod sync;
pub mod text;
pub mod unsubscribe;
