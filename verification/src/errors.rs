//! Diagnostics: the error value of the scanner and the result types that carry it.

use vstd::prelude::*;
use vstd::string::*;
use crate::text::{decimal, push_decimal};

verus! {

/// A lexical error: the line it was found on, the phase that found it, and what is wrong.
#[derive(Debug)]
pub struct OwnError {
    line: usize,
    context: String,
    msg: String,
}

/// The mathematical content of an [`OwnError`].
pub ghost struct Diagnostic {
    pub line: nat,
    pub context: Seq<char>,
    pub message: Seq<char>,
}

impl Diagnostic {
    /// The one-line rendering: `[<line>] Error <context>: <message>`.
    pub open spec fn rendering(self) -> Seq<char> {
        "["@ + decimal(self.line) + "] Error "@ + self.context + ": "@ + self.message
    }
}

impl View for OwnError {
    type V = Diagnostic;

    closed spec fn view(&self) -> Diagnostic {
        Diagnostic { line: self.line as nat, context: self.context@, message: self.msg@ }
    }
}

impl OwnError {
    /// The error found on `line` by the phase `context`, with the message `msg`.
    pub fn new(line: usize, context: String, msg: String) -> (error: Self)
        ensures
            error@ == (Diagnostic { line: line as nat, context: context@, message: msg@ }),
    {
        Self { line, context, msg }
    }

    /// The line on which the error was found, counted from 1.
    pub fn line(&self) -> (line: usize)
        ensures
            line == self@.line,
    {
        self.line
    }

    /// The phase of scanning that found the error.
    pub fn context(&self) -> (context: &str)
        ensures
            context@ == self@.context,
    {
        self.context.as_str()
    }

    /// What is wrong.
    pub fn message(&self) -> (message: &str)
        ensures
            message@ == self@.message,
    {
        self.msg.as_str()
    }

    /// The error on one line: `[<line>] Error <context>: <message>`.
    pub fn render(&self) -> (text: String)
        ensures
            text@ == self@.rendering(),
    {
        let mut text = String::from_str("[");
        push_decimal(&mut text, self.line);
        text.append("] Error ");
        text.append(self.context.as_str());
        text.append(": ");
        text.append(self.msg.as_str());
        text
    }
}

/// An error of the interpreter: one of its own, or one of another origin held as its text.
#[derive(Debug)]
pub enum LoxError {
    Own(OwnError),
    Other(String),
}

/// The mathematical content of a [`LoxError`].
pub ghost enum Fault {
    Own(Diagnostic),
    Other(Seq<char>),
}

impl Fault {
    /// The rendering of the error: that of the diagnostic, or the text held.
    pub open spec fn rendering(self) -> Seq<char> {
        match self {
            Fault::Own(diagnostic) => diagnostic.rendering(),
            Fault::Other(text) => text,
        }
    }
}

impl View for LoxError {
    type V = Fault;

    open spec fn view(&self) -> Fault {
        match self {
            LoxError::Own(error) => Fault::Own(error@),
            LoxError::Other(text) => Fault::Other(text@),
        }
    }
}

impl LoxError {
    /// The error as text.
    pub fn render(&self) -> (text: String)
        ensures
            text@ == self@.rendering(),
    {
        match self {
            LoxError::Own(error) => error.render(),
            LoxError::Other(text) => text.clone(),
        }
    }
}

/// The result of an operation that stops at its first error.
pub type LoxResult<T> = Result<T, LoxError>;

/// The result of an operation that collects every error it meets.
pub type LoxDiag<T> = Result<T, Vec<LoxError>>;

/// The views of a sequence of errors, in order.
pub open spec fn fault_views(errors: Seq<LoxError>) -> Seq<Fault> {
    errors.map_values(|error: LoxError| error@)
}

/// The diagnostics as errors of the interpreter's own.
pub open spec fn own_faults(diagnostics: Seq<Diagnostic>) -> Seq<Fault> {
    diagnostics.map_values(|diagnostic: Diagnostic| Fault::Own(diagnostic))
}

/// The renderings of the given errors, each one after a newline.
pub open spec fn renderings(faults: Seq<Fault>) -> Seq<char>
    decreases faults.len(),
{
    if faults.len() == 0 {
        Seq::empty()
    } else {
        renderings(faults.drop_last()) + "\n"@ + faults.last().rendering()
    }
}

/// What an error message can be made of: a text, or a list of errors.
#[allow(non_camel_case_types)]
pub enum DisplayableError {
    s(String),
    errors(Vec<LoxError>),
}

/// The mathematical content of a [`DisplayableError`].
pub ghost enum Displayable {
    Text(Seq<char>),
    Errors(Seq<Fault>),
}

impl Displayable {
    /// The message that it stands for: the text itself, or the renderings of the errors,
    /// each one after a newline.
    pub open spec fn text(self) -> Seq<char> {
        match self {
            Displayable::Text(text) => text,
            Displayable::Errors(faults) => renderings(faults),
        }
    }
}

impl View for DisplayableError {
    type V = Displayable;

    open spec fn view(&self) -> Displayable {
        match self {
            DisplayableError::s(text) => Displayable::Text(text@),
            DisplayableError::errors(errors) => Displayable::Errors(fault_views(errors@)),
        }
    }
}

impl From<String> for DisplayableError {
    fn from(s: String) -> (displayable: DisplayableError) {
        DisplayableError::s(s)
    }
}

impl vstd::std_specs::convert::FromSpecImpl<String> for DisplayableError {
    open spec fn obeys_from_spec() -> bool {
        true
    }

    open spec fn from_spec(s: String) -> DisplayableError {
        DisplayableError::s(s)
    }
}

impl From<Vec<LoxError>> for DisplayableError {
    fn from(v: Vec<LoxError>) -> (displayable: DisplayableError) {
        DisplayableError::errors(v)
    }
}

impl vstd::std_specs::convert::FromSpecImpl<Vec<LoxError>> for DisplayableError {
    open spec fn obeys_from_spec() -> bool {
        true
    }

    open spec fn from_spec(v: Vec<LoxError>) -> DisplayableError {
        DisplayableError::errors(v)
    }
}

impl DisplayableError {
    /// The message that it stands for.
    pub fn into_text(self) -> (text: String)
        ensures
            text@ == self@.text(),
    {
        match self {
            DisplayableError::s(text) => text,
            DisplayableError::errors(errors) => {
                let mut text = String::new();
                let mut i: usize = 0;
                while i < errors.len()
                    invariant
                        i <= errors.len(),
                        text@ == renderings(fault_views(errors@).take(i as int)),
                    decreases errors.len() - i,
                {
                    let rendering = errors[i].render();
                    text.append("\n");
                    text.append(rendering.as_str());
                    proof {
                        let faults = fault_views(errors@);
                        assert(faults.take(i + 1).drop_last() =~= faults.take(i as int));
                    }
                    i += 1;
                }
                assert(fault_views(errors@).take(i as int) =~= fault_views(errors@));
                text
            },
        }
    }
}

/// What converting `msg` gives, where the conversion of its type is specified.
pub open spec fn converted<M: Into<DisplayableError>>(msg: M) -> Option<DisplayableError> {
    if <M as vstd::std_specs::convert::IntoSpec<DisplayableError>>::obeys_into_spec() {
        Some(<M as vstd::std_specs::convert::IntoSpec<DisplayableError>>::into_spec(msg))
    } else {
        None
    }
}

/// Makes the failure that reports `msg` on `line`, found by the phase `context`.
///
/// The result is always an error of the interpreter's own, on that line and with that
/// context. Its message is the text that `msg` stands for once converted: the text itself
/// for a `String`, the renderings of the errors for a list of errors (see
/// [`Displayable::text`]).
pub fn report_error<T>(line: usize, context: String, msg: impl Into<DisplayableError>) -> (result:
    LoxResult<T>)
    ensures
        result matches Err(LoxError::Own(error)) && {
            &&& error@.line == line
            &&& error@.context == context@
            &&& converted(msg) matches Some(displayable) ==> error@.message
                == displayable@.text()
        },
{
    let text = msg.into().into_text();
    Err(LoxError::Own(OwnError::new(line, context, text)))
}

} // verus!
