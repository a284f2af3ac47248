//! Source locations, diagnostic severities and the diagnostic store.

use vstd::prelude::*;
use crate::text::{decimal_text, push_char, push_decimal};

verus! {

/// Location in source code.
#[derive(Debug, Clone, Copy, PartialEq, Eq, Structural)]
pub struct Location {
    /// 1-based line.
    pub line: u32,
    /// 1-based column.
    pub col: u32,
    /// 0-based byte offset.
    pub offset: usize,
}

impl Default for Location {
    fn default() -> (r: Self)
        ensures
            r == (Location { line: 0, col: 0, offset: 0 }),
    {
        Location { line: 0, col: 0, offset: 0 }
    }
}

impl Location {
    /// The default (unknown) location.
    pub open spec fn spec_default() -> Location {
        Location { line: 0, col: 0, offset: 0 }
    }

    /// The location as printed in diagnostics: `line:col`.
    pub fn display_text(&self) -> (r: String)
        ensures
            r@ == decimal_text(self.line as nat) + seq![':'] + decimal_text(self.col as nat),
    {
        let mut out = String::new();
        push_decimal(&mut out, self.line as u64);
        push_char(&mut out, ':');
        push_decimal(&mut out, self.col as u64);
        assert(out@ =~= decimal_text(self.line as nat) + seq![':'] + decimal_text(self.col as nat));
        out
    }
}

/// Severity level of a diagnostic message.
#[derive(Debug, Clone, Copy, PartialEq, Eq, Structural)]
pub enum ErrorType {
    Error,
    RunError,
    Warning,
    Note,
    Message,
}

pub open spec fn spec_error_type_str(t: ErrorType) -> Seq<char> {
    match t {
        ErrorType::Error => "error"@,
        ErrorType::RunError => "runtime error"@,
        ErrorType::Warning => "warning"@,
        ErrorType::Note => "note"@,
        ErrorType::Message => "message"@,
    }
}

/// Does a diagnostic of this severity count as an error?
pub open spec fn is_error_severity(t: ErrorType) -> bool {
    t == ErrorType::Error || t == ErrorType::RunError
}

impl ErrorType {
    pub fn as_str(self) -> (s: &'static str)
        ensures
            s@ == spec_error_type_str(self),
    {
        match self {
            ErrorType::Error => "error",
            ErrorType::RunError => "runtime error",
            ErrorType::Warning => "warning",
            ErrorType::Note => "note",
            ErrorType::Message => "message",
        }
    }
}

/// Number of diagnostics in `ds` whose severity counts as an error.
pub open spec fn count_errors(ds: Seq<(Location, String, ErrorType)>) -> nat
    decreases ds.len(),
{
    if ds.len() == 0 {
        0
    } else {
        count_errors(ds.drop_last()) + if is_error_severity(ds.last().2) { 1nat } else { 0nat }
    }
}

/// A diagnostic store: every reported diagnostic is kept, in report order.
pub struct SimpleErrorHandler {
    pub errors: Vec<(Location, String, ErrorType)>,
}

impl SimpleErrorHandler {
    pub fn new() -> (r: Self)
        ensures
            r.errors@ == Seq::<(Location, String, ErrorType)>::empty(),
    {
        SimpleErrorHandler { errors: Vec::new() }
    }

    /// Records a diagnostic.
    pub fn record(&mut self, loc: &Location, msg: &str, etype: ErrorType)
        ensures
            final(self).errors@.len() == old(self).errors@.len() + 1,
            final(self).errors@.drop_last() == old(self).errors@,
            final(self).errors@.last().0 == *loc,
            final(self).errors@.last().1@ == msg@,
            final(self).errors@.last().2 == etype,
    {
        self.errors.push((*loc, msg.to_owned(), etype));
    }

    /// The number of recorded diagnostics that are errors or runtime errors.
    pub fn error_count(&self) -> (n: usize)
        ensures
            n == count_errors(self.errors@),
    {
        let mut n: usize = 0;
        let mut i: usize = 0;
        while i < self.errors.len()
            invariant
                i <= self.errors@.len(),
                n == count_errors(self.errors@.take(i as int)),
                n <= i,
            decreases self.errors@.len() - i,
        {
            assert(self.errors@.take(i + 1).drop_last() =~= self.errors@.take(i as int));
            let t = self.errors[i].2;
            if t == ErrorType::Error || t == ErrorType::RunError {
                n += 1;
            }
            i += 1;
        }
        assert(self.errors@.take(i as int) =~= self.errors@);
        n
    }

    /// Has any error been recorded?
    pub fn has_errors(&self) -> (r: bool)
        ensures
            r == (count_errors(self.errors@) > 0),
    {
        self.error_count() > 0
    }
}

} // verus!
