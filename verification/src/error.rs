//! What can go wrong.

use vstd::prelude::*;

verus! {

/// The failures that the client tells apart. The text says what happened.
#[derive(Debug, Clone, PartialEq, Eq)]
pub enum CoreError {
    /// The server did not accept the credentials, or a sign-in was refused.
    Auth(String),
    /// The account has to be signed in again before it can go on.
    NeedsReauth,
    Imap(String),
    Smtp(String),
    Network(String),
    Offline,
    Mime(String),
    CalDav(String),
    NotFound(String),
    AiNotConfigured,
    Io(String),
    Other(String),
}

/// A failure by what its text holds.
pub enum ErrorView {
    Auth(Seq<char>),
    NeedsReauth,
    Imap(Seq<char>),
    Smtp(Seq<char>),
    Network(Seq<char>),
    Offline,
    Mime(Seq<char>),
    CalDav(Seq<char>),
    NotFound(Seq<char>),
    AiNotConfigured,
    Io(Seq<char>),
    Other(Seq<char>),
}

impl View for CoreError {
    type V = ErrorView;

    open spec fn view(&self) -> ErrorView {
        match *self {
            CoreError::Auth(s) => ErrorView::Auth(s@),
            CoreError::NeedsReauth => ErrorView::NeedsReauth,
            CoreError::Imap(s) => ErrorView::Imap(s@),
            CoreError::Smtp(s) => ErrorView::Smtp(s@),
            CoreError::Network(s) => ErrorView::Network(s@),
            CoreError::Offline => ErrorView::Offline,
            CoreError::Mime(s) => ErrorView::Mime(s@),
            CoreError::CalDav(s) => ErrorView::CalDav(s@),
            CoreError::NotFound(s) => ErrorView::NotFound(s@),
            CoreError::AiNotConfigured => ErrorView::AiNotConfigured,
            CoreError::Io(s) => ErrorView::Io(s@),
            CoreError::Other(s) => ErrorView::Other(s@),
        }
    }
}

impl CoreError {
    /// The failures that signing in again may mend.
    pub open spec fn wants_sign_in(self) -> bool {
        self is NeedsReauth || self is Auth
    }

    /// The same failure once more.
    pub fn copy(&self) -> (r: CoreError)
        ensures
            r@ == self@,
    {
        match self {
            CoreError::Auth(s) => CoreError::Auth(s.clone()),
            CoreError::NeedsReauth => CoreError::NeedsReauth,
            CoreError::Imap(s) => CoreError::Imap(s.clone()),
            CoreError::Smtp(s) => CoreError::Smtp(s.clone()),
            CoreError::Network(s) => CoreError::Network(s.clone()),
            CoreError::Offline => CoreError::Offline,
            CoreError::Mime(s) => CoreError::Mime(s.clone()),
            CoreError::CalDav(s) => CoreError::CalDav(s.clone()),
            CoreError::NotFound(s) => CoreError::NotFound(s.clone()),
            CoreError::AiNotConfigured => CoreError::AiNotConfigured,
            CoreError::Io(s) => CoreError::Io(s.clone()),
            CoreError::Other(s) => CoreError::Other(s.clone()),
        }
    }

    pub fn needs_sign_in(&self) -> (r: bool)
        ensures
            r == self.wants_sign_in(),
    {
        match self {
            CoreError::NeedsReauth => true,
            CoreError::Auth(_) => true,
            _ => false,
        }
    }
}

} // verus!
