//! Reader-level errors: a classified message with an optional source position.
use vstd::prelude::*;

verus! {

/// The class of a reader error.
#[derive(Debug, Clone, Copy, Eq, PartialEq, Structural)]
pub enum ErrorType {
    Semantic,
    Syntax,
    NotSet,
}

/// A reader error: its class, where it happened, and a message.
#[derive(Debug)]
pub struct Error {
    pub type_: ErrorType,
    pub line_number: usize,
    pub character_number: usize,
    pub message: String,
}

/// Mathematical image of an error.
#[verifier::ext_equal]
pub struct SpecError {
    pub kind: ErrorType,
    pub line: int,
    pub index: int,
    pub message: Seq<char>,
}

impl View for Error {
    type V = SpecError;

    open spec fn view(&self) -> SpecError {
        SpecError {
            kind: self.type_,
            line: self.line_number as int,
            index: self.character_number as int,
            message: self.message@,
        }
    }
}

/// The name of an error class, as text.
pub open spec fn kind_text(k: ErrorType) -> Seq<char> {
    match k {
        ErrorType::Semantic => "Semantic"@,
        ErrorType::Syntax => "Syntax"@,
        ErrorType::NotSet => "NotSet"@,
    }
}

/// How an error prints: its class, then the message.
pub open spec fn error_text(k: ErrorType, message: Seq<char>) -> Seq<char> {
    kind_text(k) + " error - "@ + message
}

impl Error {
    pub fn new(type_: ErrorType, message: &str) -> (r: Self)
        ensures
            r@.kind == type_,
            r@.message == message@,
            r@.line == 0,
            r@.index == 0,
    {
        Error { type_, line_number: 0, character_number: 0, message: message.to_owned() }
    }

    pub fn set_error_index(&mut self, at: usize)
        ensures
            final(self)@ == (SpecError { index: at as int, ..old(self)@ }),
    {
        self.character_number = at;
    }

    pub fn set_error_line(&mut self, at: usize)
        ensures
            final(self)@ == (SpecError { line: at as int, ..old(self)@ }),
    {
        self.line_number = at;
    }

    /// The error as one line of text.
    pub fn render(&self) -> (r: String)
        ensures
            r@ == error_text(self@.kind, self@.message),
    {
        let mut out: Vec<char> = Vec::new();
        match self.type_ {
            ErrorType::Semantic => crate::text::push_chars(&mut out, "Semantic"),
            ErrorType::Syntax => crate::text::push_chars(&mut out, "Syntax"),
            ErrorType::NotSet => crate::text::push_chars(&mut out, "NotSet"),
        }
        crate::text::push_chars(&mut out, " error - ");
        let msg = crate::text::string_to_chars(self.message.as_str());
        let mut i: usize = 0;
        proof {
            assert(out@ =~= kind_text(self@.kind) + " error - "@ + msg@.subrange(0, 0));
        }
        while i < msg.len()
            invariant
                i <= msg@.len(),
                msg@ == self.message@,
                out@ == kind_text(self@.kind) + " error - "@ + msg@.subrange(0, i as int),
            decreases msg@.len() - i,
        {
            out.push(msg[i]);
            i += 1;
            proof {
                assert(out@ =~= kind_text(self@.kind) + " error - "@ + msg@.subrange(
                    0,
                    i as int,
                ));
            }
        }
        proof {
            assert(out@ =~= error_text(self@.kind, self@.message));
        }
        crate::text::chars_to_string(&out)
    }
}

} // verus!
