//! The error value that runs through the library: a short summary (what
//! `Display` shows) and the full chain of causes (what the alternate
//! form shows).
use vstd::prelude::*;
use vstd::string::*;

verus! {

/// The message of `TryFromIntError`, the cause of a failed integer
/// conversion.
pub open spec fn out_of_range_message() -> Seq<char> {
    "out of range integral type conversion attempted"@
}

/// An error with a one-line summary and a detailed chain of causes.
/// An error made from one message has the same summary and detail;
/// adding context puts the context in front of the detail.
#[derive(Debug)]
pub struct AppError {
    pub summary: String,
    pub detail: String,
}

impl AppError {
    /// An error whose summary and detail are both `text`.
    pub fn msg(text: &str) -> (e: AppError)
        ensures
            e.summary@ == text@,
            e.detail@ == text@,
    {
        AppError { summary: String::from_str(text), detail: String::from_str(text) }
    }

    /// An error whose summary and detail are both the given owned text.
    pub fn from_text(text: String) -> (e: AppError)
        ensures
            e.summary@ == text@,
            e.detail@ == text@,
    {
        let detail = text.clone();
        AppError { summary: text, detail }
    }

    /// Puts `context` in front: the summary becomes the context, and the
    /// detail becomes `context: detail`.
    pub fn context(self, context: &str) -> (e: AppError)
        ensures
            e.summary@ == context@,
            e.detail@ == context@ + ": "@ + self.detail@,
    {
        let mut detail = String::from_str(context);
        detail.append(": ");
        detail.append(self.detail.as_str());
        AppError { summary: String::from_str(context), detail }
    }

    /// Puts the text of `self` in front of `cause`: the summary stays,
    /// and the detail becomes `summary: cause detail`.
    pub fn context_text(self, cause: AppError) -> (e: AppError)
        ensures
            e.summary@ == self.summary@,
            e.detail@ == self.summary@ + ": "@ + cause.detail@,
    {
        let mut detail = self.summary.clone();
        detail.append(": ");
        detail.append(cause.detail.as_str());
        AppError { summary: self.summary, detail }
    }

    /// The summary, as `Display` would show it.
    pub fn to_string(&self) -> (s: String)
        ensures
            s@ == self.summary@,
    {
        self.summary.clone()
    }

    /// The summary followed by every cause.
    pub fn detail_text(&self) -> (s: String)
        ensures
            s@ == self.detail@,
    {
        self.detail.clone()
    }
}

} // verus!
