//! Diagnostics: what went wrong, on which line, and at which token.

use vstd::prelude::*;
use exitcode::ExitCode;
use crate::text::push_char;
use crate::token::{Token, TokenType};

verus! {

/// Relies on the constant `exitcode::DATAERR`, the code for input data that
/// was incorrect in some way, which the crate defines as 65.
#[verifier::external_body]
pub(crate) fn data_error() -> (r: ExitCode)
    ensures
        r == 65,
{
    exitcode::DATAERR
}

pub open spec fn digit_spec(d: nat) -> char {
    if d == 0 {
        '0'
    } else if d == 1 {
        '1'
    } else if d == 2 {
        '2'
    } else if d == 3 {
        '3'
    } else if d == 4 {
        '4'
    } else if d == 5 {
        '5'
    } else if d == 6 {
        '6'
    } else if d == 7 {
        '7'
    } else if d == 8 {
        '8'
    } else {
        '9'
    }
}

/// The decimal digits of `n`, most significant first, without leading zeros.
pub open spec fn decimal(n: nat) -> Seq<char>
    decreases n,
{
    if n < 10 {
        seq![digit_spec(n)]
    } else {
        decimal(n / 10).push(digit_spec(n % 10))
    }
}

fn digit(d: usize) -> (c: char)
    requires
        d < 10,
    ensures
        c == digit_spec(d as nat),
{
    if d == 0 {
        '0'
    } else if d == 1 {
        '1'
    } else if d == 2 {
        '2'
    } else if d == 3 {
        '3'
    } else if d == 4 {
        '4'
    } else if d == 5 {
        '5'
    } else if d == 6 {
        '6'
    } else if d == 7 {
        '7'
    } else if d == 8 {
        '8'
    } else {
        '9'
    }
}

/// Appends the decimal digits of `n` to `out`.
pub fn write_decimal(n: usize, out: &mut String)
    ensures
        final(out)@ == old(out)@ + decimal(n as nat),
    decreases n,
{
    if n < 10 {
        push_char(out, digit(n));
        assert(final(out)@ =~= old(out)@ + decimal(n as nat));
    } else {
        write_decimal(n / 10, out);
        push_char(out, digit(n % 10));
        assert(final(out)@ =~= old(out)@ + decimal(n as nat));
    }
}

/// The text of a diagnostic: `[line <N>] Error<where>: <message>`.
pub open spec fn diagnostic(line: nat, location: Seq<char>, message: Seq<char>) -> Seq<char> {
    "[line "@ + decimal(line) + "] Error"@ + location + ": "@ + message
}

/// Where a parse error stands: at the end of the input, or at a token.
pub open spec fn location_of(token: Token) -> Seq<char> {
    if token.typ is EOF {
        " at end"@
    } else {
        " at '"@ + token.lexeme@ + "'"@
    }
}

/// The state of one run of the pipeline: whether anything failed, with which
/// exit classification, and the diagnostics emitted so far, oldest first.
pub struct ErrorReporter {
    pub had_error: bool,
    pub exit_code: Option<ExitCode>,
    pub diagnostics: Vec<String>,
}

/// A failure of evaluation: the line of the offending operator and what went
/// wrong.
pub struct RuntimeError {
    pub line: usize,
    pub message: String,
    pub exit_code: ExitCode,
}

impl ErrorReporter {
    /// The diagnostics as text.
    pub open spec fn log(&self) -> Seq<Seq<char>> {
        self.diagnostics@.map_values(|d: String| d@)
    }

    /// What a report of `text` with `exit_code` makes of `old`.
    pub open spec fn reported(old: ErrorReporter, new: ErrorReporter, text: Seq<char>, exit_code: ExitCode) -> bool {
        &&& new.had_error
        &&& new.exit_code == Some(exit_code)
        &&& new.log() == old.log().push(text)
    }

    /// What reporting `emitted`, in order, makes of `old`: the failed flag
    /// and the data-error classification are set once anything is reported.
    pub open spec fn after(old: ErrorReporter, new: ErrorReporter, emitted: Seq<Seq<char>>) -> bool {
        &&& new.log() == old.log() + emitted
        &&& emitted.len() == 0 ==> new.had_error == old.had_error && new.exit_code == old.exit_code
        &&& emitted.len() > 0 ==> new.had_error && new.exit_code == Some(65i32)
    }

    pub proof fn lemma_after_nothing(r: ErrorReporter)
        ensures
            Self::after(r, r, Seq::empty()),
    {
        assert(r.log() + Seq::<Seq<char>>::empty() =~= r.log());
    }

    pub proof fn lemma_after_report(old: ErrorReporter, new: ErrorReporter, text: Seq<char>)
        requires
            Self::reported(old, new, text, 65),
        ensures
            Self::after(old, new, seq![text]),
    {
        assert(old.log() + seq![text] =~= old.log().push(text));
    }

    pub proof fn lemma_after_after(
        r0: ErrorReporter,
        r1: ErrorReporter,
        r2: ErrorReporter,
        e1: Seq<Seq<char>>,
        e2: Seq<Seq<char>>,
    )
        requires
            Self::after(r0, r1, e1),
            Self::after(r1, r2, e2),
        ensures
            Self::after(r0, r2, e1 + e2),
    {
        assert(r0.log() + e1 + e2 =~= r0.log() + (e1 + e2));
    }

    pub fn new() -> (r: ErrorReporter)
        ensures
            !r.had_error,
            r.exit_code is None,
            r.log() == Seq::<Seq<char>>::empty(),
    {
        let r = ErrorReporter { had_error: false, exit_code: None, diagnostics: Vec::new() };
        assert(r.log() =~= Seq::<Seq<char>>::empty());
        r
    }

    /// Reports an error of scanning at `line`.
    pub fn error(&mut self, line: usize, message: &str, exit_code: ExitCode)
        ensures
            Self::reported(*old(self), *final(self), diagnostic(line as nat, Seq::empty(), message@), exit_code),
    {
        proof {
            reveal_strlit("");
        }
        self.report(line, "", message, exit_code);
    }

    /// Reports an error of parsing at `token`: " at end" for the end marker,
    /// else the token's lexeme.
    pub fn parse_error(&mut self, token: &Token, message: &str, exit_code: ExitCode)
        ensures
            Self::reported(*old(self), *final(self), diagnostic(token.line as nat, location_of(*token), message@), exit_code),
    {
        if matches!(token.typ, TokenType::EOF) {
            self.report(token.line, " at end", message, exit_code);
        } else {
            let mut location = String::from_str(" at '");
            location.append(token.lexeme.as_str());
            location.append("'");
            self.report(token.line, location.as_str(), message, exit_code);
        }
    }

    /// Reports an error of evaluation at `line`.
    pub fn runtime_error(&mut self, line: usize, message: &str, exit_code: ExitCode)
        ensures
            Self::reported(*old(self), *final(self), diagnostic(line as nat, Seq::empty(), message@), exit_code),
    {
        proof {
            reveal_strlit("");
        }
        self.report(line, "", message, exit_code);
    }

    fn report(&mut self, line: usize, location: &str, message: &str, exit_code: ExitCode)
        ensures
            Self::reported(*old(self), *final(self), diagnostic(line as nat, location@, message@), exit_code),
    {
        let mut text = String::from_str("[line ");
        write_decimal(line, &mut text);
        text.append("] Error");
        text.append(location);
        text.append(": ");
        text.append(message);
        proof {
            assert(text@ =~= diagnostic(line as nat, location@, message@));
        }
        self.diagnostics.push(text);
        self.had_error = true;
        self.exit_code = Some(exit_code);
        assert(self.log() =~= old(self).log().push(diagnostic(line as nat, location@, message@)));
    }
}

impl Default for ErrorReporter {
    fn default() -> (r: ErrorReporter)
        ensures
            !r.had_error,
            r.exit_code is None,
            r.log() == Seq::<Seq<char>>::empty(),
    {
        Self::new()
    }
}

} // verus!
