//! The notification data model: what a message holds before it is
//! handed to the delivery backend.
//!
//! The delivery service itself is an external collaborator; the library
//! builds messages as plain values and the surrounding program converts
//! and sends them.

use vstd::prelude::*;

verus! {

/// Rendering style of a piece of formatted text.
#[derive(Clone, Copy, Debug, PartialEq, Eq, Structural)]
pub enum Style {
    Plain,
    Monospace,
}

/// A styled piece of text.
#[derive(Clone, Debug)]
pub struct FormattedString {
    pub text: String,
    pub style: Style,
}

impl FormattedString {
    pub fn plain(text: String) -> (r: FormattedString)
        ensures
            r.text@ == text@,
            r.style == Style::Plain,
    {
        FormattedString { text, style: Style::Plain }
    }

    pub fn monospace(text: String) -> (r: FormattedString)
        ensures
            r.text@ == text@,
            r.style == Style::Monospace,
    {
        FormattedString { text, style: Style::Monospace }
    }
}

/// One element of a formatted message body.
#[derive(Clone, Debug)]
pub enum DetailElement {
    /// Free-standing text.
    Text(Vec<FormattedString>),
    /// A titled section.
    Section { title: String, parts: Vec<FormattedString> },
}

/// The body of a notification: either a bare string or a formatted
/// body, optionally carrying a raw fallback rendering.
#[derive(Clone, Debug)]
pub enum MessageDetail {
    Raw(String),
    Formatted { raw: Option<String>, elements: Vec<DetailElement> },
}

/// Severity of a notification.
#[derive(Clone, Copy, Debug, PartialEq, Eq, Structural)]
pub enum Level {
    Info,
    Error,
    SelfError,
}

/// A notification ready for delivery.
#[derive(Clone, Debug)]
pub struct Message {
    pub level: Level,
    pub title: Option<String>,
    pub detail: MessageDetail,
    pub component: Option<String>,
    pub author: String,
    pub timestamp_millis: i64,
}

} // verus!
