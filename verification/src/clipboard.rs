//! Reading the text on the clipboard, as a state machine. The reader names
//! the step that it wants taken; its caller takes it and reports what the
//! operating system said; the reader decides what comes next.

use crate::platform::Platform;
use crate::utf16::{decode_terminated, decode_utf16_lossy, terminated_text};
use vstd::prelude::*;
use vstd::string::*;

verus! {

/// The most code units that are ever read of a clipboard text.
pub const MAX_TEXT_UNITS: usize = 0x100_0000;

/// Why the clipboard could not be read.
#[derive(Clone, Copy, Debug, PartialEq, Eq, Structural)]
pub enum ClipboardError {
    /// The clipboard could not be opened.
    AccessDenied,
}

impl ClipboardError {
    /// The error in words.
    pub fn message(&self) -> (text: String)
        ensures
            text@ == "Failed to open clipboard"@,
    {
        "Failed to open clipboard".to_string()
    }
}

/// A step that the reader wants taken.
#[derive(Clone, Copy, Debug, PartialEq, Eq, Structural)]
pub enum ClipboardRequest {
    /// Ask whether the clipboard holds Unicode text.
    QueryTextFormat,
    /// Open the clipboard.
    Open,
    /// Fetch the Unicode text of the open clipboard.
    ReadText,
    /// Close the clipboard.
    Close,
}

/// What the operating system said to a step.
#[derive(Clone, Debug, PartialEq, Eq)]
pub enum ClipboardReply {
    /// Whether the clipboard holds Unicode text.
    TextFormat { available: bool },
    /// Whether the clipboard was opened.
    Opened { granted: bool },
    /// The code units of the text, or nothing where the text could not be
    /// fetched.
    Text { units: Option<Vec<u16>> },
    /// The clipboard was closed.
    Closed,
}

/// A reply as a plain value.
pub enum ReplyView {
    TextFormat { available: bool },
    Opened { granted: bool },
    Text { units: Option<Seq<u16>> },
    Closed,
}

impl View for ClipboardReply {
    type V = ReplyView;

    open spec fn view(&self) -> ReplyView {
        match self {
            ClipboardReply::TextFormat { available } => ReplyView::TextFormat {
                available: *available,
            },
            ClipboardReply::Opened { granted } => ReplyView::Opened { granted: *granted },
            ClipboardReply::Text { units } => ReplyView::Text {
                units: match units {
                    Some(u) => Some(u@),
                    None => None,
                },
            },
            ClipboardReply::Closed => ReplyView::Closed,
        }
    }
}

/// A read of the clipboard in progress.
#[derive(Debug, PartialEq, Eq)]
pub enum ClipboardRead {
    /// Waits to hear whether the clipboard holds text.
    AwaitingFormat,
    /// Waits to hear whether the clipboard was opened.
    AwaitingOpen,
    /// The clipboard is open; waits for its text.
    AwaitingText,
    /// The clipboard is open; waits for it to be closed.
    AwaitingClose { text: String },
    /// Finished, with the result of the read.
    Done { outcome: Result<String, ClipboardError> },
}

/// The state of a read as a plain value.
pub enum ReadView {
    AwaitingFormat,
    AwaitingOpen,
    AwaitingText,
    AwaitingClose { text: Seq<char> },
    Done { outcome: Result<Seq<char>, ClipboardError> },
}

/// The value of a result of a read.
pub open spec fn outcome_view(outcome: Result<String, ClipboardError>) -> Result<
    Seq<char>,
    ClipboardError,
> {
    match outcome {
        Ok(text) => Ok(text@),
        Err(e) => Err(e),
    }
}

impl View for ClipboardRead {
    type V = ReadView;

    open spec fn view(&self) -> ReadView {
        match self {
            ClipboardRead::AwaitingFormat => ReadView::AwaitingFormat,
            ClipboardRead::AwaitingOpen => ReadView::AwaitingOpen,
            ClipboardRead::AwaitingText => ReadView::AwaitingText,
            ClipboardRead::AwaitingClose { text } => ReadView::AwaitingClose { text: text@ },
            ClipboardRead::Done { outcome } => ReadView::Done { outcome: outcome_view(*outcome) },
        }
    }
}

/// The text that a fetch of the clipboard's text gives: what the code units
/// say up to their first zero unit, and nothing where the fetch failed.
pub open spec fn fetched_text(units: Option<Seq<u16>>) -> Seq<char> {
    match units {
        Some(u) => decode_utf16_lossy(terminated_text(u, MAX_TEXT_UNITS as nat)),
        None => Seq::empty(),
    }
}

impl ReadView {
    /// The state in which a read begins. A platform without a clipboard
    /// reader of its own is finished at once, with an empty text.
    pub open spec fn started(platform: Platform) -> ReadView {
        if platform.has_native_backend() {
            ReadView::AwaitingFormat
        } else {
            ReadView::Done { outcome: Ok(Seq::empty()) }
        }
    }

    /// The step that the read wants taken, or nothing where it is finished.
    pub open spec fn request(self) -> Option<ClipboardRequest> {
        match self {
            ReadView::AwaitingFormat => Some(ClipboardRequest::QueryTextFormat),
            ReadView::AwaitingOpen => Some(ClipboardRequest::Open),
            ReadView::AwaitingText => Some(ClipboardRequest::ReadText),
            ReadView::AwaitingClose { .. } => Some(ClipboardRequest::Close),
            ReadView::Done { .. } => None,
        }
    }

    /// Whether the clipboard is open in this state.
    pub open spec fn holds_clipboard(self) -> bool {
        self is AwaitingText || self is AwaitingClose
    }

    /// The state after a reply.
    ///
    /// No text on the clipboard ends the read with an empty text. A clipboard
    /// that cannot be opened ends it with an error. Once the clipboard is
    /// open, whatever the fetch of its text gives, the clipboard is closed
    /// before the read ends. A reply to a step that was not asked for changes
    /// nothing.
    pub open spec fn advanced(self, reply: ReplyView) -> ReadView {
        match (self, reply) {
            (ReadView::AwaitingFormat, ReplyView::TextFormat { available }) => if available {
                ReadView::AwaitingOpen
            } else {
                ReadView::Done { outcome: Ok(Seq::empty()) }
            },
            (ReadView::AwaitingOpen, ReplyView::Opened { granted }) => if granted {
                ReadView::AwaitingText
            } else {
                ReadView::Done { outcome: Err(ClipboardError::AccessDenied) }
            },
            (ReadView::AwaitingText, ReplyView::Text { units }) => ReadView::AwaitingClose {
                text: fetched_text(units),
            },
            (ReadView::AwaitingClose { text }, ReplyView::Closed) => ReadView::Done {
                outcome: Ok(text),
            },
            _ => self,
        }
    }
}

/// The clipboard is released on every way through a read: while it is open
/// the read is not finished; it becomes open only by an open that was
/// granted; and it stops being open only by a close that was done.
pub proof fn lemma_clipboard_released(state: ReadView, reply: ReplyView)
    ensures
        state.holds_clipboard() ==> state.request() is Some,
        state.advanced(reply) is Done ==> !state.advanced(reply).holds_clipboard(),
        !state.holds_clipboard() && state.advanced(reply).holds_clipboard() ==> state.request()
            == Some(ClipboardRequest::Open) && reply == (ReplyView::Opened { granted: true }),
        state.holds_clipboard() && !state.advanced(reply).holds_clipboard() ==> state.request()
            == Some(ClipboardRequest::Close) && reply == ReplyView::Closed,
        state.holds_clipboard() && !state.advanced(reply).holds_clipboard() ==> state.advanced(
            reply,
        ) is Done,
{
}

impl ClipboardRead {
    /// Begins a read of the clipboard.
    pub fn start(platform: Platform) -> (read: ClipboardRead)
        ensures
            read@ == ReadView::started(platform),
    {
        if platform.is_native() {
            ClipboardRead::AwaitingFormat
        } else {
            ClipboardRead::Done { outcome: Ok(String::new()) }
        }
    }

    /// The step that the read wants taken next, or nothing where it is
    /// finished.
    pub fn request(&self) -> (step: Option<ClipboardRequest>)
        ensures
            step == self@.request(),
    {
        match self {
            ClipboardRead::AwaitingFormat => Some(ClipboardRequest::QueryTextFormat),
            ClipboardRead::AwaitingOpen => Some(ClipboardRequest::Open),
            ClipboardRead::AwaitingText => Some(ClipboardRequest::ReadText),
            ClipboardRead::AwaitingClose { .. } => Some(ClipboardRequest::Close),
            ClipboardRead::Done { .. } => None,
        }
    }

    /// Whether the clipboard is open in this state.
    pub fn holds_clipboard(&self) -> (held: bool)
        ensures
            held == self@.holds_clipboard(),
    {
        match self {
            ClipboardRead::AwaitingText => true,
            ClipboardRead::AwaitingClose { .. } => true,
            _ => false,
        }
    }

    /// Takes what the operating system said to the step that was asked for.
    pub fn advance(self, reply: ClipboardReply) -> (next: ClipboardRead)
        ensures
            next@ == self@.advanced(reply@),
    {
        match (self, reply) {
            (ClipboardRead::AwaitingFormat, ClipboardReply::TextFormat { available }) => {
                if available {
                    ClipboardRead::AwaitingOpen
                } else {
                    ClipboardRead::Done { outcome: Ok(String::new()) }
                }
            },
            (ClipboardRead::AwaitingOpen, ClipboardReply::Opened { granted }) => {
                if granted {
                    ClipboardRead::AwaitingText
                } else {
                    ClipboardRead::Done { outcome: Err(ClipboardError::AccessDenied) }
                }
            },
            (ClipboardRead::AwaitingText, ClipboardReply::Text { units }) => {
                let text = match units {
                    Some(units) => decode_terminated(units.as_slice(), MAX_TEXT_UNITS),
                    None => String::new(),
                };
                ClipboardRead::AwaitingClose { text }
            },
            (ClipboardRead::AwaitingClose { text }, ClipboardReply::Closed) => {
                ClipboardRead::Done { outcome: Ok(text) }
            },
            (state, _) => state,
        }
    }

    /// The result of the read, or nothing where it is not finished.
    pub fn outcome(self) -> (result: Option<Result<String, ClipboardError>>)
        ensures
            match result {
                Some(r) => self@ == (ReadView::Done { outcome: outcome_view(r) }),
                None => !(self@ is Done),
            },
    {
        match self {
            ClipboardRead::Done { outcome } => Some(outcome),
            _ => None,
        }
    }
}

/// The condition of a clipboard: what the operating system would say to
/// each step of a read.
#[derive(Clone, Debug, PartialEq, Eq)]
pub struct ClipboardSnapshot {
    /// Whether the clipboard holds Unicode text.
    pub text_available: bool,
    /// Whether the clipboard can be opened.
    pub can_open: bool,
    /// The code units of the text, or nothing where they cannot be fetched.
    pub text: Option<Vec<u16>>,
}

/// The result of reading a clipboard in a given condition.
///
/// Without a clipboard reader for the platform, or without text on the
/// clipboard, the text is empty. A clipboard that cannot be opened is an
/// error. An open clipboard gives its text up to the first zero unit, or an
/// empty text where the text cannot be fetched.
pub open spec fn selected_text(
    platform: Platform,
    text_available: bool,
    can_open: bool,
    text: Option<Seq<u16>>,
) -> Result<Seq<char>, ClipboardError> {
    if !platform.has_native_backend() || !text_available {
        Ok(Seq::empty())
    } else if !can_open {
        Err(ClipboardError::AccessDenied)
    } else {
        Ok(fetched_text(text))
    }
}

/// Reads the text of a clipboard in the given condition, by taking each step
/// that the reader asks for.
pub fn get_selected_text(platform: Platform, clipboard: ClipboardSnapshot) -> (result: Result<
    String,
    ClipboardError,
>)
    ensures
        outcome_view(result) == selected_text(
            platform,
            clipboard.text_available,
            clipboard.can_open,
            match clipboard.text {
                Some(u) => Some(u@),
                None => None,
            },
        ),
{
    let ClipboardSnapshot { text_available, can_open, text } = clipboard;
    let read = ClipboardRead::start(platform);
    let read = match read.request() {
        Some(ClipboardRequest::QueryTextFormat) => read.advance(
            ClipboardReply::TextFormat { available: text_available },
        ),
        _ => read,
    };
    let read = match read.request() {
        Some(ClipboardRequest::Open) => read.advance(ClipboardReply::Opened { granted: can_open }),
        _ => read,
    };
    let read = match read.request() {
        Some(ClipboardRequest::ReadText) => read.advance(ClipboardReply::Text { units: text }),
        _ => read,
    };
    let read = match read.request() {
        Some(ClipboardRequest::Close) => read.advance(ClipboardReply::Closed),
        _ => read,
    };
    match read.outcome() {
        Some(result) => result,
        None => Ok(String::new()),
    }
}

} // verus!
