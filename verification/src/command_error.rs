use vstd::prelude::*;
use vstd::string::StringExecFns;

verus! {

/// Whose fault an error is.
#[derive(Clone, Copy, Debug, PartialEq, Eq, Structural)]
pub enum CommandErrorKind {
    /// The user asked for something that cannot be done.
    User,
    /// A step of the command failed.
    Internal,
}

/// Why a command ended without doing its work.
pub struct CommandError {
    pub kind: CommandErrorKind,
    pub message: String,
    /// What the failing step reported.
    pub source: Option<String>,
    /// What the user may do instead.
    pub hint: Option<String>,
}

/// A command error as mathematics.
pub struct CommandErrorView {
    pub kind: CommandErrorKind,
    pub message: Seq<char>,
    pub source: Option<Seq<char>>,
    pub hint: Option<Seq<char>>,
}

pub open spec fn option_text(t: Option<String>) -> Option<Seq<char>> {
    match t {
        Some(s) => Some(s@),
        None => None,
    }
}

impl View for CommandError {
    type V = CommandErrorView;

    open spec fn view(&self) -> CommandErrorView {
        CommandErrorView {
            kind: self.kind,
            message: self.message@,
            source: option_text(self.source),
            hint: option_text(self.hint),
        }
    }
}

pub open spec fn error_view(
    kind: CommandErrorKind,
    message: Seq<char>,
    source: Option<Seq<char>>,
    hint: Option<Seq<char>>,
) -> CommandErrorView {
    CommandErrorView { kind, message, source, hint }
}

/// What the user reads of an error: the message, then the cause and the
/// hint if there are any, each on a line of its own.
pub open spec fn rendered(e: CommandErrorView) -> Seq<char> {
    (match e.kind {
        CommandErrorKind::User => "Error: "@,
        CommandErrorKind::Internal => "Internal error: "@,
    }) + e.message + "\n"@ + (match e.source {
        Some(s) => "Caused by: "@ + s + "\n"@,
        None => Seq::empty(),
    }) + (match e.hint {
        Some(h) => "Hint: "@ + h + "\n"@,
        None => Seq::empty(),
    })
}

pub fn user_error(message: &str) -> (e: CommandError)
    ensures
        e@ == error_view(CommandErrorKind::User, message@, None, None),
{
    CommandError {
        kind: CommandErrorKind::User,
        message: String::from_str(message),
        source: None,
        hint: None,
    }
}

pub fn user_error_with_hint(message: String, hint: &str) -> (e: CommandError)
    ensures
        e@ == error_view(CommandErrorKind::User, message@, None, Some(hint@)),
{
    CommandError {
        kind: CommandErrorKind::User,
        message,
        source: None,
        hint: Some(String::from_str(hint)),
    }
}

pub fn user_error_with_message(message: &str, source: String) -> (e: CommandError)
    ensures
        e@ == error_view(CommandErrorKind::User, message@, Some(source@), None),
{
    CommandError {
        kind: CommandErrorKind::User,
        message: String::from_str(message),
        source: Some(source),
        hint: None,
    }
}

pub fn internal_error_with_message(message: &str, source: String) -> (e: CommandError)
    ensures
        e@ == error_view(CommandErrorKind::Internal, message@, Some(source@), None),
{
    CommandError {
        kind: CommandErrorKind::Internal,
        message: String::from_str(message),
        source: Some(source),
        hint: None,
    }
}

impl CommandError {
    /// The text that is shown to the user.
    pub fn render(&self) -> (text: String)
        ensures
            text@ == rendered(self@),
    {
        let mut text = match self.kind {
            CommandErrorKind::User => String::from_str("Error: "),
            CommandErrorKind::Internal => String::from_str("Internal error: "),
        };
        text.append(self.message.as_str());
        text.append("\n");
        match &self.source {
            Some(s) => {
                let ghost before = text@;
                text.append("Caused by: ");
                text.append(s.as_str());
                text.append("\n");
                assert(text@ =~= before + ("Caused by: "@ + s@ + "\n"@));
            },
            None => {
                assert(text@ =~= text@ + Seq::<char>::empty());
            },
        }
        match &self.hint {
            Some(h) => {
                let ghost before = text@;
                text.append("Hint: ");
                text.append(h.as_str());
                text.append("\n");
                assert(text@ =~= before + ("Hint: "@ + h@ + "\n"@));
            },
            None => {
                assert(text@ =~= text@ + Seq::<char>::empty());
            },
        }
        text
    }
}

} // verus!
