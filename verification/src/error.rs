//! Everything that can go wrong before a command runs, and its wording.

use vstd::prelude::*;

use crate::text::concat3;

verus! {

/// Everything that can go wrong before we shell out.
#[derive(Debug, PartialEq, Eq)]
pub enum ParseError {
    UnknownCommand { command: String },
    MissingSeparator,
    MissingCommand,
    MissingArgument { action: String },
    UnexpectedArgument { action: String },
    InvalidPrefix { value: String },
    /// A persisted job was given an override that no unit file can hold.
    UnsupportedOverride { value: String },
    /// Neither `$XDG_CONFIG_HOME` nor `$HOME` says where unit files live.
    NoUnitDirectory,
}

/// The model of a [`ParseError`].
pub enum ParseErrorView {
    UnknownCommand { command: Seq<char> },
    MissingSeparator,
    MissingCommand,
    MissingArgument { action: Seq<char> },
    UnexpectedArgument { action: Seq<char> },
    InvalidPrefix { value: Seq<char> },
    UnsupportedOverride { value: Seq<char> },
    NoUnitDirectory,
}

impl View for ParseError {
    type V = ParseErrorView;

    open spec fn view(&self) -> ParseErrorView {
        match self {
            ParseError::UnknownCommand { command } => ParseErrorView::UnknownCommand {
                command: command@,
            },
            ParseError::MissingSeparator => ParseErrorView::MissingSeparator,
            ParseError::MissingCommand => ParseErrorView::MissingCommand,
            ParseError::MissingArgument { action } => ParseErrorView::MissingArgument {
                action: action@,
            },
            ParseError::UnexpectedArgument { action } => ParseErrorView::UnexpectedArgument {
                action: action@,
            },
            ParseError::InvalidPrefix { value } => ParseErrorView::InvalidPrefix { value: value@ },
            ParseError::UnsupportedOverride { value } => ParseErrorView::UnsupportedOverride {
                value: value@,
            },
            ParseError::NoUnitDirectory => ParseErrorView::NoUnitDirectory,
        }
    }
}

/// The text that the `{:?}` formatting of a string gives: the string in double
/// quotes, with escapes.
pub uninterp spec fn debug_text(s: Seq<char>) -> Seq<char>;

/// A string as `{:?}` shows it.
///
/// Trusted: `format!("{:?}", s)` depends on the characters of `s` alone. Which
/// characters it escapes, and how, is left to [`debug_text`].
#[verifier::external_body]
fn debug_quoted(s: &str) -> (res: String)
    ensures
        res@ == debug_text(s@),
{
    format!("{:?}", s)
}

/// The wording of a rejected prefix, which is given as it is to be shown.
pub open spec fn invalid_prefix_text(shown: Seq<char>) -> Seq<char> {
    "invalid BGRUN_PREFIX "@ + shown + ": use only ASCII letters, digits, '-' and '_'"@
}

/// The wording of an error.
pub open spec fn error_text(error: ParseErrorView) -> Seq<char> {
    match error {
        ParseErrorView::UnknownCommand { command } => "unknown command '"@ + command
            + "' (run 'bgrun help' for usage)"@,
        ParseErrorView::MissingSeparator =>
        "missing '--' before the command (usage: bgrun add [NAME] [opts] -- <cmd> [args])"@,
        ParseErrorView::MissingCommand => "missing command after '--'"@,
        ParseErrorView::MissingArgument { action } => action + ": missing job name"@,
        ParseErrorView::UnexpectedArgument { action } => action
            + ": unexpected extra arguments"@,
        ParseErrorView::InvalidPrefix { value } => invalid_prefix_text(debug_text(value)),
        ParseErrorView::UnsupportedOverride { value } => "cannot persist '"@ + value
            + "': only -p KEY=VALUE overrides can be written to a unit file"@,
        ParseErrorView::NoUnitDirectory =>
        "no user unit directory: neither XDG_CONFIG_HOME nor HOME is set"@,
    }
}

impl ParseError {
    /// The wording of a rejected prefix, which is given as it is to be shown.
    pub fn invalid_prefix(shown: &str) -> (res: String)
        ensures
            res@ == invalid_prefix_text(shown@),
    {
        concat3("invalid BGRUN_PREFIX ", shown, ": use only ASCII letters, digits, '-' and '_'")
    }

    /// The wording of the error.
    pub fn to_string(&self) -> (res: String)
        ensures
            res@ == error_text(self@),
    {
        match self {
            ParseError::UnknownCommand { command } => concat3(
                "unknown command '",
                command.as_str(),
                "' (run 'bgrun help' for usage)",
            ),
            ParseError::MissingSeparator =>
            "missing '--' before the command (usage: bgrun add [NAME] [opts] -- <cmd> [args])".to_owned(),
            ParseError::MissingCommand => "missing command after '--'".to_owned(),
            ParseError::MissingArgument { action } => {
                let mut res = action.clone();
                res.append(": missing job name");
                res
            },
            ParseError::UnexpectedArgument { action } => {
                let mut res = action.clone();
                res.append(": unexpected extra arguments");
                res
            },
            ParseError::InvalidPrefix { value } => Self::invalid_prefix(
                debug_quoted(value.as_str()).as_str(),
            ),
            ParseError::UnsupportedOverride { value } => concat3(
                "cannot persist '",
                value.as_str(),
                "': only -p KEY=VALUE overrides can be written to a unit file",
            ),
            ParseError::NoUnitDirectory =>
            "no user unit directory: neither XDG_CONFIG_HOME nor HOME is set".to_owned(),
        }
    }
}

/// What each error says.
pub proof fn errors_are_spelled_out(text: Seq<char>)
    ensures
        error_text(ParseErrorView::UnknownCommand { command: text }) == "unknown command '"@ + text
            + "' (run 'bgrun help' for usage)"@,
        error_text(ParseErrorView::MissingSeparator)
            == "missing '--' before the command (usage: bgrun add [NAME] [opts] -- <cmd> [args])"@,
        error_text(ParseErrorView::MissingCommand) == "missing command after '--'"@,
        error_text(ParseErrorView::MissingArgument { action: text }) == text
            + ": missing job name"@,
        error_text(ParseErrorView::UnexpectedArgument { action: text }) == text
            + ": unexpected extra arguments"@,
        error_text(ParseErrorView::InvalidPrefix { value: text }) == "invalid BGRUN_PREFIX "@
            + debug_text(text) + ": use only ASCII letters, digits, '-' and '_'"@,
        error_text(ParseErrorView::UnsupportedOverride { value: text }) == "cannot persist '"@
            + text + "': only -p KEY=VALUE overrides can be written to a unit file"@,
        error_text(ParseErrorView::NoUnitDirectory)
            == "no user unit directory: neither XDG_CONFIG_HOME nor HOME is set"@,
{
}

} // verus!
