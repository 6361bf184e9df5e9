//! The error value of the front end: a kind, an optional message and an
//! optional anchor in a source file, with its renderings.
use crate::text::{decimal, push_decimal, push_repeated, repeat};
use vstd::prelude::*;
use vstd::string::StringExecFns;

verus! {

/// The kind of a failure.
#[derive(Debug, Clone, Copy, PartialEq, Eq)]
pub enum ErrorType {
    MissingArgument,
    IoError,
    LexingError,
    ParsingError,
}

/// The name under which a kind is rendered.
pub open spec fn kind_name(kind: ErrorType) -> Seq<char> {
    match kind {
        ErrorType::MissingArgument => "MissingArgument"@,
        ErrorType::IoError => "IoError"@,
        ErrorType::LexingError => "LexingError"@,
        ErrorType::ParsingError => "ParsingError"@,
    }
}

impl ErrorType {
    /// The name of the kind, as diagnostics print it.
    pub fn name(&self) -> (name: &'static str)
        ensures
            name@ == kind_name(*self),
    {
        match self {
            ErrorType::MissingArgument => "MissingArgument",
            ErrorType::IoError => "IoError",
            ErrorType::LexingError => "LexingError",
            ErrorType::ParsingError => "ParsingError",
        }
    }
}

/// A failure with an optional message and an optional anchor in a source file.
#[derive(Debug, Clone, PartialEq, Eq)]
pub struct Error {
    err_type: ErrorType,
    message: Option<String>,
    line: Option<usize>,
    column: Option<usize>,
    file_path: Option<String>,
    length: Option<usize>,
}

/// What an [`Error`] is in contracts.
pub struct ErrorView {
    pub err_type: ErrorType,
    pub message: Option<Seq<char>>,
    pub line: Option<nat>,
    pub column: Option<nat>,
    pub file_path: Option<Seq<char>>,
    pub length: Option<nat>,
}

/// An optional number as a natural.
pub open spec fn as_nat(value: Option<usize>) -> Option<nat> {
    match value {
        Some(n) => Some(n as nat),
        None => None,
    }
}

/// An optional string as its characters.
pub open spec fn as_chars(value: Option<String>) -> Option<Seq<char>> {
    match value {
        Some(s) => Some(s@),
        None => None,
    }
}

impl ErrorView {
    /// An error of the given kind with nothing else set.
    pub open spec fn bare(kind: ErrorType) -> ErrorView {
        ErrorView {
            err_type: kind,
            message: None,
            line: None,
            column: None,
            file_path: None,
            length: None,
        }
    }

    /// The message, or the stock text where none was given.
    pub open spec fn message_text(self) -> Seq<char> {
        match self.message {
            Some(m) => m,
            None => "An error occured!"@,
        }
    }

    /// A column or a length is only meaningful on a line: an error that
    /// has either also has a line.
    pub open spec fn well_anchored(self) -> bool {
        (self.column is Some || self.length is Some) ==> self.line is Some
    }

    /// The one-line rendering: kind, message, then the line and the column
    /// as far as they are present.
    pub open spec fn short_form(self) -> Seq<char> {
        kind_name(self.err_type) + ", "@ + self.message_text() + (match self.line {
            Some(l) => " at line "@ + decimal(l),
            None => Seq::empty(),
        }) + (match self.column {
            Some(c) => ", column "@ + decimal(c),
            None => Seq::empty(),
        })
    }

    /// The field listing of the long rendering. `resolved_path` is the
    /// absolute form of the file path and is shown only where the error
    /// names a file.
    pub open spec fn report(self, resolved_path: Seq<char>) -> Seq<char> {
        "\n  Type: "@ + kind_name(self.err_type) + "\n  Message: "@ + self.message_text() + (
        match self.file_path {
            Some(_p) => "\n  file_path: '"@ + resolved_path + "'"@,
            None => Seq::empty(),
        }) + (match self.line {
            Some(l) => "\n  Line: "@ + decimal(l),
            None => Seq::empty(),
        }) + (match self.column {
            Some(c) => "\n  Column: "@ + decimal(c),
            None => Seq::empty(),
        }) + (match self.length {
            Some(n) => "\n  Length: "@ + decimal(n),
            None => Seq::empty(),
        })
    }

    /// The line to quote: the anchor's line, or 1 where there is none.
    pub open spec fn anchor_line(self) -> nat {
        match self.line {
            Some(l) => l,
            None => 1,
        }
    }

    /// The column under which the caret span starts, 0 where there is none.
    pub open spec fn anchor_column(self) -> nat {
        match self.column {
            Some(c) => c,
            None => 0,
        }
    }

    /// The width of the caret span, 0 where there is no length.
    pub open spec fn anchor_length(self) -> nat {
        match self.length {
            Some(n) => n,
            None => 0,
        }
    }

    /// The quoted source line with the caret span beneath it. `source_line`
    /// is the text of the anchor's line, or the reason why it could not be
    /// read, which is then shown in its place.
    pub open spec fn caret_block(self, source_line: Result<Seq<char>, Seq<char>>) -> Seq<char> {
        "\n "@ + decimal(self.anchor_line()) + " | "@ + (match source_line {
            Ok(text) => text,
            Err(reason) => "Error reading line: "@ + reason,
        }) + "\n"@ + repeat(' ', self.anchor_column() + 4) + repeat('^', self.anchor_length())
            + "\n"@
    }
}

impl View for Error {
    type V = ErrorView;

    closed spec fn view(&self) -> ErrorView {
        ErrorView {
            err_type: self.err_type,
            message: as_chars(self.message),
            line: as_nat(self.line),
            column: as_nat(self.column),
            file_path: as_chars(self.file_path),
            length: as_nat(self.length),
        }
    }
}

impl Error {
    /// An error of the given kind, with no message and no anchor.
    pub fn new(err_typ: ErrorType) -> (e: Error)
        ensures
            e@ == ErrorView::bare(err_typ),
    {
        Error {
            err_type: err_typ,
            message: None,
            line: None,
            column: None,
            file_path: None,
            length: None,
        }
    }

    /// The same error with `msg` as its message.
    pub fn with_message(self, msg: String) -> (e: Error)
        ensures
            e@ == (ErrorView { message: Some(msg@), ..self@ }),
    {
        let mut e = self;
        e.message = Some(msg);
        e
    }

    /// The same error anchored at line `lin`.
    pub fn with_line(self, lin: usize) -> (e: Error)
        ensures
            e@ == (ErrorView { line: Some(lin as nat), ..self@ }),
    {
        let mut e = self;
        e.line = Some(lin);
        e
    }

    /// The same error anchored at column `col`.
    pub fn with_column(self, col: usize) -> (e: Error)
        ensures
            e@ == (ErrorView { column: Some(col as nat), ..self@ }),
    {
        let mut e = self;
        e.column = Some(col);
        e
    }

    /// The same error, naming the file at `path`.
    pub fn with_file_path(self, path: &str) -> (e: Error)
        ensures
            e@ == (ErrorView { file_path: Some(path@), ..self@ }),
    {
        let mut e = self;
        e.file_path = Some(path.to_owned());
        e
    }

    /// The same error covering `len` characters.
    pub fn with_length(self, len: usize) -> (e: Error)
        ensures
            e@ == (ErrorView { length: Some(len as nat), ..self@ }),
    {
        let mut e = self;
        e.length = Some(len);
        e
    }

    /// The kind of the error.
    pub fn err_type(&self) -> (kind: ErrorType)
        ensures
            kind == self@.err_type,
    {
        self.err_type
    }

    /// The message, or the stock text where none was given.
    pub fn message(&self) -> (text: String)
        ensures
            text@ == self@.message_text(),
    {
        match &self.message {
            Some(msg) => msg.clone(),
            None => String::from_str("An error occured!"),
        }
    }

    /// The line of the anchor, if there is one.
    pub fn line(&self) -> (line: Option<usize>)
        ensures
            as_nat(line) == self@.line,
    {
        self.line
    }

    /// The column of the anchor, if there is one.
    pub fn column(&self) -> (column: Option<usize>)
        ensures
            as_nat(column) == self@.column,
    {
        self.column
    }

    /// The number of characters the error covers, if it says so.
    pub fn length(&self) -> (length: Option<usize>)
        ensures
            as_nat(length) == self@.length,
    {
        self.length
    }

    /// The path of the file the error names, if it names one.
    pub fn file_path(&self) -> (path: Option<String>)
        ensures
            as_chars(path) == self@.file_path,
    {
        match &self.file_path {
            Some(p) => Some(p.clone()),
            None => None,
        }
    }

    /// The one-line rendering of the error.
    pub fn to_string(&self) -> (text: String)
        ensures
            text@ == self@.short_form(),
    {
        let mut text = String::from_str(self.err_type.name());
        text.append(", ");
        let msg = self.message();
        text.append(msg.as_str());
        if let Some(line) = self.line {
            text.append(" at line ");
            push_decimal(&mut text, line);
        }
        if let Some(column) = self.column {
            text.append(", column ");
            push_decimal(&mut text, column);
        }
        proof {
            assert(text@ =~= self@.short_form());
        }
        text
    }

    /// The field listing of the long rendering: kind, message, the resolved
    /// file path and the anchor, each on a line of its own as far as
    /// present.
    pub fn report(&self, resolved_path: &str) -> (text: String)
        ensures
            text@ == self@.report(resolved_path@),
    {
        let mut text = String::from_str("\n  Type: ");
        text.append(self.err_type.name());
        text.append("\n  Message: ");
        let msg = self.message();
        text.append(msg.as_str());
        if self.file_path.is_some() {
            text.append("\n  file_path: '");
            text.append(resolved_path);
            text.append("'");
        }
        if let Some(line) = self.line {
            text.append("\n  Line: ");
            push_decimal(&mut text, line);
        }
        if let Some(column) = self.column {
            text.append("\n  Column: ");
            push_decimal(&mut text, column);
        }
        if let Some(length) = self.length {
            text.append("\n  Length: ");
            push_decimal(&mut text, length);
        }
        proof {
            assert(text@ =~= self@.report(resolved_path@));
        }
        text
    }

    /// The line to quote in the long rendering: the anchor's line, or 1.
    pub fn anchor_line(&self) -> (line: usize)
        ensures
            line == self@.anchor_line(),
    {
        match self.line {
            Some(l) => l,
            None => 1,
        }
    }

    /// The quoted source line and the caret span beneath it: four columns of
    /// margin, then the anchor's column in spaces, then one caret for each
    /// character the error covers.
    pub fn caret_block(&self, source_line: Result<String, String>) -> (text: String)
        ensures
            text@ == self@.caret_block(
                match source_line {
                    Ok(t) => Ok(t@),
                    Err(r) => Err(r@),
                },
            ),
    {
        let mut text = String::from_str("\n ");
        push_decimal(&mut text, self.anchor_line());
        text.append(" | ");
        match &source_line {
            Ok(line_text) => {
                text.append(line_text.as_str());
            },
            Err(reason) => {
                text.append("Error reading line: ");
                text.append(reason.as_str());
            },
        }
        text.append("\n");
        push_repeated(&mut text, ' ', 4);
        let column = match self.column {
            Some(c) => c,
            None => 0,
        };
        push_repeated(&mut text, ' ', column);
        let length = match self.length {
            Some(n) => n,
            None => 0,
        };
        push_repeated(&mut text, '^', length);
        text.append("\n");
        proof {
            assert(repeat(' ', 4) + repeat(' ', column as nat) =~= repeat(
                ' ',
                self@.anchor_column() + 4,
            ));
            assert(text@ =~= self@.caret_block(
                match source_line {
                    Ok(t) => Ok(t@),
                    Err(r) => Err(r@),
                },
            ));
        }
        text
    }
}

} // verus!
