//! Error types exposed by the library.
//!
//! Each carries a rendered message; `message()` returns it, and the
//! contracts pin down exactly how it is composed.

use vstd::prelude::*;

use crate::json::JsonValue;
use vstd::string::{StrSliceExecFns, StringExecFns};

verus! {

/// Message text for a process failure: the base text, then the exit code,
/// then the captured error output, when present.
pub open spec fn spec_process_message(
    base: Seq<char>,
    exit_code: Option<i32>,
    stderr: Option<Seq<char>>,
) -> Seq<char> {
    let with_code = match exit_code {
        Some(code) => base + " (exit code: "@ + crate::text::int_lexeme(code as int) + ")"@,
        None => base,
    };
    match stderr {
        Some(err) => if err.len() > 0 {
            with_code + "\nError output: "@ + err
        } else {
            with_code
        },
        None => with_code,
    }
}

/// Message text for a missing executable: the base text, then the path that
/// was tried, when one was given.
pub open spec fn spec_not_found_message(base: Seq<char>, cli_path: Option<Seq<char>>) -> Seq<
    char,
> {
    match cli_path {
        Some(p) => base + ": "@ + p,
        None => base,
    }
}

/// The leading portion of a line kept as a diagnostic snippet.
pub open spec fn spec_snippet(line: Seq<char>) -> Seq<char> {
    if line.len() <= 100 {
        line
    } else {
        line.subrange(0, 100)
    }
}

/// Raised when the child process cannot be reached or used.
#[derive(Debug)]
pub struct CliConnectionError {
    message: String,
}

impl CliConnectionError {
    pub closed spec fn spec_message(&self) -> Seq<char> {
        self.message@
    }

    pub fn new(message: &str) -> (r: CliConnectionError)
        ensures
            r.spec_message() == message@,
    {
        CliConnectionError { message: String::from_str(message) }
    }

    pub fn message<'a>(&'a self) -> (r: &'a str)
        ensures
            r@ == self.spec_message(),
    {
        self.message.as_str()
    }

    pub fn dup(&self) -> (r: CliConnectionError)
        ensures
            r.spec_message() == self.spec_message(),
    {
        CliConnectionError { message: self.message.clone() }
    }
}

/// Raised when the agent executable cannot be located.
#[derive(Debug)]
pub struct CliNotFoundError {
    message: String,
    cli_path: Option<String>,
}

impl CliNotFoundError {
    pub closed spec fn spec_message(&self) -> Seq<char> {
        self.message@
    }

    pub closed spec fn spec_cli_path(&self) -> Option<Seq<char>> {
        match self.cli_path {
            Some(p) => Some(p@),
            None => None,
        }
    }

    pub fn new(message: &str, cli_path: Option<String>) -> (r: CliNotFoundError)
        ensures
            r.spec_message() == spec_not_found_message(
                message@,
                match cli_path {
                    Some(p) => Some(p@),
                    None => None::<Seq<char>>,
                },
            ),
            r.spec_cli_path() == (match cli_path {
                Some(p) => Some(p@),
                None => None::<Seq<char>>,
            }),
    {
        match cli_path {
            Some(p) => {
                let mut message = String::from_str(message);
                message.append(": ");
                message.append(p.as_str());
                proof {
                    reveal_strlit(": ");
                }
                CliNotFoundError { message, cli_path: Some(p) }
            },
            None => CliNotFoundError { message: String::from_str(message), cli_path: None },
        }
    }

    pub fn cli_path<'a>(&'a self) -> (r: Option<&'a String>)
        ensures
            match r {
                Some(p) => self.spec_cli_path() == Some(p@),
                None => self.spec_cli_path() is None,
            },
    {
        match &self.cli_path {
            Some(p) => Some(p),
            None => None,
        }
    }

    pub fn message<'a>(&'a self) -> (r: &'a str)
        ensures
            r@ == self.spec_message(),
    {
        self.message.as_str()
    }

    pub fn dup(&self) -> (r: CliNotFoundError)
        ensures
            r.spec_message() == self.spec_message(),
            r.spec_cli_path() == self.spec_cli_path(),
    {
        CliNotFoundError {
            message: self.message.clone(),
            cli_path: match &self.cli_path {
                Some(p) => Some(p.clone()),
                None => None,
            },
        }
    }
}

/// Raised when the child process exits with a failure.
#[derive(Debug)]
pub struct ProcessError {
    message: String,
    exit_code: Option<i32>,
    stderr: Option<String>,
}

impl ProcessError {
    pub closed spec fn spec_message(&self) -> Seq<char> {
        self.message@
    }

    pub closed spec fn spec_exit_code(&self) -> Option<i32> {
        self.exit_code
    }

    pub closed spec fn spec_stderr(&self) -> Option<Seq<char>> {
        match self.stderr {
            Some(e) => Some(e@),
            None => None,
        }
    }

    pub fn new(message: &str, exit_code: Option<i32>, stderr: Option<String>) -> (r:
        ProcessError)
        ensures
            r.spec_message() == spec_process_message(
                message@,
                exit_code,
                match stderr {
                    Some(e) => Some(e@),
                    None => None::<Seq<char>>,
                },
            ),
            r.spec_exit_code() == exit_code,
            r.spec_stderr() == (match stderr {
                Some(e) => Some(e@),
                None => None::<Seq<char>>,
            }),
    {
        let mut text = String::from_str(message);
        if let Some(code) = exit_code {
            text.append(" (exit code: ");
            let rendered = crate::text::i64_to_string(code as i64);
            text.append(rendered.as_str());
            text.append(")");
            proof {
                reveal_strlit(" (exit code: ");
                reveal_strlit(")");
            }
        }
        if let Some(err) = &stderr {
            if !err.as_str().is_empty() {
                text.append("\nError output: ");
                text.append(err.as_str());
                proof {
                    reveal_strlit("\nError output: ");
                }
            }
        }
        ProcessError { message: text, exit_code, stderr }
    }

    pub fn exit_code(&self) -> (r: Option<i32>)
        ensures
            r == self.spec_exit_code(),
    {
        self.exit_code
    }

    pub fn stderr<'a>(&'a self) -> (r: Option<&'a str>)
        ensures
            match r {
                Some(e) => self.spec_stderr() == Some(e@),
                None => self.spec_stderr() is None,
            },
    {
        match &self.stderr {
            Some(e) => Some(e.as_str()),
            None => None,
        }
    }

    pub fn message<'a>(&'a self) -> (r: &'a str)
        ensures
            r@ == self.spec_message(),
    {
        self.message.as_str()
    }

    pub fn dup(&self) -> (r: ProcessError)
        ensures
            r.spec_message() == self.spec_message(),
            r.spec_exit_code() == self.spec_exit_code(),
            r.spec_stderr() == self.spec_stderr(),
    {
        ProcessError {
            message: self.message.clone(),
            exit_code: self.exit_code,
            stderr: match &self.stderr {
                Some(e) => Some(e.clone()),
                None => None,
            },
        }
    }
}

/// Raised when a line from the child cannot be decoded as one JSON value.
#[derive(Debug)]
pub struct CliJsonDecodeError {
    line: String,
    snippet: String,
}

impl CliJsonDecodeError {
    pub closed spec fn spec_line(&self) -> Seq<char> {
        self.line@
    }

    pub closed spec fn spec_snippet(&self) -> Seq<char> {
        self.snippet@
    }

    pub closed spec fn wf(&self) -> bool {
        self.snippet@ == spec_snippet(self.line@)
    }

    pub fn new(line: String) -> (r: CliJsonDecodeError)
        ensures
            r.spec_line() == line@,
            r.wf(),
    {
        let n = line.as_str().unicode_len();
        let snippet = if n <= 100 {
            line.clone()
        } else {
            String::from_str(line.as_str().substring_char(0, 100))
        };
        CliJsonDecodeError { line, snippet }
    }

    pub fn line<'a>(&'a self) -> (r: &'a str)
        ensures
            r@ == self.spec_line(),
    {
        self.line.as_str()
    }

    /// The rendered message: a fixed prefix, the snippet, and an ellipsis.
    pub fn message(&self) -> (r: String)
        ensures
            r@ == "Failed to decode JSON: "@ + self.spec_snippet() + "..."@,
    {
        let mut text = String::from_str("Failed to decode JSON: ");
        text.append(self.snippet.as_str());
        text.append("...");
        text
    }

    pub fn dup(&self) -> (r: CliJsonDecodeError)
        ensures
            r.spec_line() == self.spec_line(),
            r.spec_snippet() == self.spec_snippet(),
    {
        CliJsonDecodeError { line: self.line.clone(), snippet: self.snippet.clone() }
    }
}

/// Raised when a decoded frame cannot be interpreted as a typed message.
#[derive(Debug)]
pub struct MessageParseError {
    message: String,
    data: Option<JsonValue>,
}

impl MessageParseError {
    pub closed spec fn spec_message(&self) -> Seq<char> {
        self.message@
    }

    pub closed spec fn spec_data(&self) -> Option<crate::json::JsonV> {
        match self.data {
            Some(d) => Some(d@),
            None => None,
        }
    }

    pub fn new(message: String, data: Option<JsonValue>) -> (r: MessageParseError)
        ensures
            r.spec_message() == message@,
            r.spec_data() == (match data {
                Some(d) => Some(d@),
                None => None::<crate::json::JsonV>,
            }),
    {
        MessageParseError { message, data }
    }

    pub fn data<'a>(&'a self) -> (r: Option<&'a JsonValue>)
        ensures
            match r {
                Some(d) => self.spec_data() == Some(d@),
                None => self.spec_data() is None,
            },
    {
        match &self.data {
            Some(d) => Some(d),
            None => None,
        }
    }

    pub fn message<'a>(&'a self) -> (r: &'a str)
        ensures
            r@ == self.spec_message(),
    {
        self.message.as_str()
    }

    pub fn dup(&self) -> (r: MessageParseError)
        ensures
            r.spec_message() == self.spec_message(),
            r.spec_data() == self.spec_data(),
    {
        MessageParseError {
            message: self.message.clone(),
            data: match &self.data {
                Some(d) => Some(d.deep_clone()),
                None => None,
            },
        }
    }
}

/// Top-level error union for all library operations.
#[derive(Debug)]
pub enum SdkError {
    /// Placeholder for unimplemented functionality.
    NotImplemented,
    /// Generic error message.
    Message(String),
    CliConnection(CliConnectionError),
    CliNotFound(CliNotFoundError),
    Process(ProcessError),
    CliJsonDecode(CliJsonDecodeError),
    MessageParse(MessageParseError),
    /// A control request went unanswered within the configured bound.
    Timeout,
}

impl SdkError {
    /// The rendered message of whichever error this is.
    pub open spec fn spec_message(&self) -> Seq<char> {
        match self {
            SdkError::NotImplemented => "not implemented"@,
            SdkError::Message(m) => m@,
            SdkError::CliConnection(e) => e.spec_message(),
            SdkError::CliNotFound(e) => e.spec_message(),
            SdkError::Process(e) => e.spec_message(),
            SdkError::CliJsonDecode(e) => "Failed to decode JSON: "@ + e.spec_snippet()
                + "..."@,
            SdkError::MessageParse(e) => e.spec_message(),
            SdkError::Timeout => "deadline has elapsed"@,
        }
    }

    pub fn message(&self) -> (r: String)
        ensures
            r@ == self.spec_message(),
    {
        match self {
            SdkError::NotImplemented => String::from_str("not implemented"),
            SdkError::Message(m) => m.clone(),
            SdkError::CliConnection(e) => String::from_str(e.message()),
            SdkError::CliNotFound(e) => String::from_str(e.message()),
            SdkError::Process(e) => String::from_str(e.message()),
            SdkError::CliJsonDecode(e) => e.message(),
            SdkError::MessageParse(e) => String::from_str(e.message()),
            SdkError::Timeout => String::from_str("deadline has elapsed"),
        }
    }

    /// A copy carrying the same message.
    pub fn dup(&self) -> (r: SdkError)
        ensures
            r.spec_message() == self.spec_message(),
    {
        match self {
            SdkError::NotImplemented => SdkError::NotImplemented,
            SdkError::Message(m) => SdkError::Message(m.clone()),
            SdkError::CliConnection(e) => SdkError::CliConnection(e.dup()),
            SdkError::CliNotFound(e) => SdkError::CliNotFound(e.dup()),
            SdkError::Process(e) => SdkError::Process(e.dup()),
            SdkError::CliJsonDecode(e) => SdkError::CliJsonDecode(e.dup()),
            SdkError::MessageParse(e) => SdkError::MessageParse(e.dup()),
            SdkError::Timeout => SdkError::Timeout,
        }
    }
}

/// Raised while loading environment configuration.
#[derive(Debug)]
pub enum EnvError {
    Io(String),
    Parse(String),
}

impl EnvError {
    pub open spec fn spec_message(&self) -> Seq<char> {
        match self {
            EnvError::Io(m) => "IO error: "@ + m@,
            EnvError::Parse(m) => "Parse error: "@ + m@,
        }
    }

    pub fn message(&self) -> (r: String)
        ensures
            r@ == self.spec_message(),
    {
        match self {
            EnvError::Io(m) => {
                let mut text = String::from_str("IO error: ");
                text.append(m.as_str());
                text
            },
            EnvError::Parse(m) => {
                let mut text = String::from_str("Parse error: ");
                text.append(m.as_str());
                text
            },
        }
    }
}

} // verus!
