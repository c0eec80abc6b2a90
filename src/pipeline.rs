//! One run of the pipeline: scan, then parse, then evaluate, each stage only
//! when the one before it reported nothing.

use vstd::prelude::*;
use crate::error_reporter::{diagnostic, location_of, ErrorReporter};
use crate::grammar::{BinaryOp, Literal};
use crate::interpreter::{computes, eval, total, Interpreter, Numeric};
use crate::parser::{parse_expression, problem_message, well_formed, Parser};
use crate::scanner::{lemma_scan_shape, scan, views, Scanner};
use crate::token::{Category, Token, TokenType};

verus! {

/// What a run of `t`, the tokens of a source that scanned cleanly, gives:
/// the value, or nothing with the one diagnostic of the stage that failed.
pub open spec fn ran(
    t: Seq<Token>,
    num: Numeric,
    r: Option<Literal>,
    old: ErrorReporter,
    new: ErrorReporter,
) -> bool {
    match parse_expression(t, 0) {
        Err((q, x)) => {
            &&& r is None
            &&& ErrorReporter::after(
                old,
                new,
                seq![diagnostic(t[q].line as nat, location_of(t[q]), problem_message(x))],
            )
        },
        Ok((e, _)) => match eval(e, num) {
            Ok(v) => {
                &&& r matches Some(l) && l@ == v
                &&& ErrorReporter::after(old, new, Seq::empty())
            },
            Err(f) => {
                &&& r is None
                &&& ErrorReporter::after(old, new, seq![diagnostic(f.line, Seq::empty(), f.message)])
            },
        },
    }
}

proof fn lemma_scanned_well_formed(t: Seq<Token>, s: Seq<char>)
    requires
        views(t) == scan(s).0,
    ensures
        well_formed(t),
{
    lemma_scan_shape(s);
    assert(views(t).len() == t.len());
    assert(views(t)[t.len() - 1] == t.last()@);
    assert(t.last().typ@ == Category::Plain(TokenType::EOF));
}

/// Scans, parses and evaluates `source` with a reporter that has reported
/// nothing yet, with `numeric` for the arithmetic of numbers. Scan errors
/// stop the run before parsing, a parse error stops it before evaluation;
/// each diagnostic goes to `reporter`. The value comes back when every stage
/// succeeded.
pub fn run<F: Fn(BinaryOp, String, String) -> Literal>(
    source: String,
    reporter: &mut ErrorReporter,
    numeric: &F,
) -> (r: Option<Literal>)
    requires
        source@.len() < usize::MAX,
        !old(reporter).had_error,
        total(*numeric),
    ensures
        scan(source@).1.len() > 0 ==> r is None && ErrorReporter::after(*old(reporter), *final(reporter), scan(source@).1),
        scan(source@).1.len() == 0 ==> exists|t: Seq<Token>|
            #[trigger] views(t) == scan(source@).0 && forall|num: Numeric|
                #[trigger] computes(*numeric, num) ==> ran(t, num, r, *old(reporter), *final(reporter)),
{
    let ghost s = source@;
    let ghost r_start = *reporter;
    let mut scanner = Scanner::new(source);
    let tokens = scanner.scan_tokens(reporter);
    proof {
        assert(views(tokens@) =~= scan(s).0);
    }
    if reporter.had_error {
        return None;
    }
    proof {
        lemma_scanned_well_formed(tokens@, s);
    }
    let ghost t = tokens@;
    let ghost r_scanned = *reporter;
    let mut parser = Parser::new(tokens);
    let result = match parser.parse(reporter) {
        Some(expr) => {
            let interpreter = Interpreter;
            match interpreter.evaluate(&expr, numeric) {
                Ok(v) => Some(v),
                Err(e) => {
                    reporter.runtime_error(e.line, e.message.as_str(), e.exit_code);
                    None
                },
            }
        },
        None => None,
    };
    proof {
        // Scanning reported nothing; parsing and evaluating reported at most
        // one diagnostic, the last.
        if reporter.log() == r_scanned.log() {
            ErrorReporter::lemma_after_nothing(*reporter);
            ErrorReporter::lemma_after_after(r_start, r_scanned, *reporter, Seq::empty(), Seq::empty());
            assert(Seq::<Seq<char>>::empty() + Seq::empty() =~= Seq::empty());
        } else {
            let text = reporter.log().last();
            ErrorReporter::lemma_after_report(r_scanned, *reporter, text);
            ErrorReporter::lemma_after_after(r_start, r_scanned, *reporter, Seq::empty(), seq![text]);
            assert(Seq::<Seq<char>>::empty() + seq![text] =~= seq![text]);
        }
        assert forall|num: Numeric| #[trigger] computes(*numeric, num) implies ran(t, num, result, r_start, *reporter) by {
        }
        assert(views(t) == scan(s).0);
    }
    result
}

} // verus!
