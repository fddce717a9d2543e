//! The errors that end the program, their exit statuses and what the user is
//! told about them.

use vstd::prelude::*;

verus! {

/// An error that ends the program.
#[derive(Clone, Copy, Debug, PartialEq, Eq, Structural)]
pub enum ExitError {
    /// The wrong number of arguments.
    Usage,
    /// The height or the width is no number from 2 to 999.
    Dimensions,
    /// The number of players is no number from 2 to 100.
    PlayerCount,
    /// The saved game cannot be opened.
    SaveFile,
    /// The saved game cannot be read or is not a saved game of this board.
    SaveContents,
    /// The input ended before the game did.
    EndOfInput,
    /// The system failed to do what it was asked, or the game cannot be
    /// written.
    SystemCall,
}

impl ExitError {
    /// The exit status of the error.
    pub open spec fn status(self) -> u8 {
        match self {
            ExitError::Usage => 1,
            ExitError::Dimensions => 2,
            ExitError::PlayerCount => 3,
            ExitError::SaveFile => 4,
            ExitError::SaveContents => 5,
            ExitError::EndOfInput => 6,
            ExitError::SystemCall => 9,
        }
    }

    /// The exit status of the error.
    pub fn code(&self) -> (c: u8)
        ensures
            c == self.status(),
    {
        match self {
            ExitError::Usage => 1,
            ExitError::Dimensions => 2,
            ExitError::PlayerCount => 3,
            ExitError::SaveFile => 4,
            ExitError::SaveContents => 5,
            ExitError::EndOfInput => 6,
            ExitError::SystemCall => 9,
        }
    }

    /// No two errors share an exit status.
    pub proof fn lemma_statuses_differ(self, other: ExitError)
        ensures
            self.status() == other.status() ==> self == other,
    {
    }

    /// The error with the exit status `code`, if there is one.
    pub fn from_code(code: u8) -> (e: Option<ExitError>)
        ensures
            match e {
                Some(x) => x.status() == code,
                None => forall|x: ExitError| x.status() != code,
            },
    {
        match code {
            1 => Some(ExitError::Usage),
            2 => Some(ExitError::Dimensions),
            3 => Some(ExitError::PlayerCount),
            4 => Some(ExitError::SaveFile),
            5 => Some(ExitError::SaveContents),
            6 => Some(ExitError::EndOfInput),
            9 => Some(ExitError::SystemCall),
            _ => None,
        }
    }
}

/// What the user is told about the error with the exit status `error`.
pub open spec fn message_of(error: u8) -> Seq<char> {
    if error == 1 {
        "Usage: boxes height width playercount [filename]"@
    } else if error == 2 {
        "Invalid grid dimensions"@
    } else if error == 3 {
        "Invalid player count"@
    } else if error == 4 {
        "Invalid grid file"@
    } else if error == 5 {
        "Error reading grid contents"@
    } else if error == 6 {
        "End of user input"@
    } else if error == 9 {
        "System call failure"@
    } else {
        "Unhandled error!"@
    }
}

/// No two errors share a message.
pub proof fn lemma_messages_differ(a: ExitError, b: ExitError)
    ensures
        message_of(a.status()) == message_of(b.status()) ==> a == b,
{
    reveal_strlit("Usage: boxes height width playercount [filename]");
    reveal_strlit("Invalid grid dimensions");
    reveal_strlit("Invalid player count");
    reveal_strlit("Invalid grid file");
    reveal_strlit("Error reading grid contents");
    reveal_strlit("End of user input");
    reveal_strlit("System call failure");
    if a != b && message_of(a.status()) == message_of(b.status()) {
        assert(message_of(a.status()).len() == message_of(b.status()).len());
        assert(message_of(a.status())[0] == message_of(b.status())[0]);
    }
}

/// The line to print for the error with the exit status `error`. The caller
/// prints it and ends the program with that status.
pub fn handle_error(error: u8) -> (message: &'static str)
    ensures
        message@ == message_of(error),
{
    match error {
        1 => "Usage: boxes height width playercount [filename]",
        2 => "Invalid grid dimensions",
        3 => "Invalid player count",
        4 => "Invalid grid file",
        5 => "Error reading grid contents",
        6 => "End of user input",
        9 => "System call failure",
        _ => "Unhandled error!",
    }
}

} // verus!
