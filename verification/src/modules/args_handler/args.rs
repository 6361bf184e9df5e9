//! The two arguments that name the input: a source path or an example name.
use crate::error_handling::error::{as_chars, Error, ErrorType, ErrorView};
use crate::text::spells;
use vstd::prelude::*;
use vstd::string::StringExecFns;

verus! {

/// The arguments of one run: the values of `source` and of `example`, as
/// far as they were given.
#[derive(Debug, Clone, PartialEq, Eq)]
pub struct Args {
    source: Option<String>,
    example: Option<String>,
}

/// What [`Args`] is in contracts.
pub struct ArgsView {
    pub source: Option<Seq<char>>,
    pub example: Option<Seq<char>>,
}

impl ArgsView {
    /// The value of the argument called `title`, if it was given.
    pub open spec fn value_of(self, title: Seq<char>) -> Option<Seq<char>> {
        if title == "source"@ {
            self.source
        } else if title == "example"@ {
            self.example
        } else {
            None
        }
    }

    /// The path of the input: an example lies in the examples directory
    /// under its name, and is preferred to a source path.
    pub open spec fn source_path(self) -> Option<Seq<char>> {
        match self.example {
            Some(name) => Some("example_syntaxes/"@ + name),
            None => self.source,
        }
    }
}

impl View for Args {
    type V = ArgsView;

    closed spec fn view(&self) -> ArgsView {
        ArgsView { source: as_chars(self.source), example: as_chars(self.example) }
    }
}

/// The value of an argument, or the failure that reports it missing.
pub open spec fn required(value: Option<Seq<char>>, res: Result<String, Error>) -> bool {
    match res {
        Ok(text) => value == Some(text@),
        Err(e) => value is None && e@ == ErrorView::bare(ErrorType::MissingArgument),
    }
}

impl Args {
    /// The arguments of a run in which `source` and `example` had these values.
    pub fn new(source: Option<String>, example: Option<String>) -> (args: Args)
        ensures
            args@ == (ArgsView { source: as_chars(source), example: as_chars(example) }),
    {
        Args { source, example }
    }

    /// The value of the argument called `arg_title`, which is `source` or
    /// `example`. An argument that was not given is a missing argument.
    pub fn get_arg(&self, arg_title: &str) -> (res: Result<String, Error>)
        requires
            arg_title@ == "source"@ || arg_title@ == "example"@,
        ensures
            required(self@.value_of(arg_title@), res),
    {
        let title = crate::text::chars_of(arg_title);
        let value = if spells(title.as_slice(), "source") {
            &self.source
        } else {
            &self.example
        };
        match value {
            Some(arg) => Ok(arg.clone()),
            None => Err(Error::new(ErrorType::MissingArgument)),
        }
    }

    /// The path of the input: that of the named example, else the source
    /// path. With neither the argument is missing.
    pub fn get_source_path(&self) -> (res: Result<String, Error>)
        ensures
            required(self@.source_path(), res),
    {
        match &self.example {
            Some(example_file) => {
                let mut path = String::from_str("example_syntaxes/");
                path.append(example_file.as_str());
                Ok(path)
            },
            None => self.get_arg("source"),
        }
    }
}

} // verus!
