//! The scanner: source text to tokens, left to right, in one pass.

use vstd::prelude::*;
use crate::error_reporter::{data_error, diagnostic, ErrorReporter};
use crate::text::{chars_of, push_char, text_of};
use crate::token::{keyword, keyword_spec, lemma_keyword_plain, Category, Token, TokenType, TokenView};

verus! {

pub open spec fn is_alpha(c: char) -> bool {
    ('a' <= c && c <= 'z') || ('A' <= c && c <= 'Z') || c == '_'
}

pub open spec fn is_digit(c: char) -> bool {
    '0' <= c && c <= '9'
}

pub open spec fn is_alphanumeric(c: char) -> bool {
    is_alpha(c) || is_digit(c)
}

/// The kinds of maximal runs of characters the scanner consumes.
#[derive(Clone, Copy)]
pub enum Run {
    /// Decimal digits.
    Digits,
    /// Letters, digits and underscores.
    Word,
    /// Anything up to a newline.
    Line,
    /// Anything up to a double quote.
    Quoted,
}

pub open spec fn continues(run: Run, c: char) -> bool {
    match run {
        Run::Digits => is_digit(c),
        Run::Word => is_alphanumeric(c),
        Run::Line => c != '\n',
        Run::Quoted => c != '"',
    }
}

/// The end of the maximal run of `run` characters that starts at `i`.
pub open spec fn run_end(s: Seq<char>, i: int, run: Run) -> int
    decreases s.len() - i,
{
    if 0 <= i < s.len() && continues(run, s[i]) {
        run_end(s, i + 1, run)
    } else {
        i
    }
}

/// Whether a block comment closes at `j`.
pub open spec fn closes_comment(s: Seq<char>, j: int) -> bool {
    0 <= j && j + 1 < s.len() && s[j] == '*' && s[j + 1] == '/'
}

/// The index of the first `*/` at or after `j`, or the end of the source.
pub open spec fn comment_end(s: Seq<char>, j: int) -> int
    decreases s.len() - j,
{
    if 0 <= j < s.len() && !closes_comment(s, j) {
        comment_end(s, j + 1)
    } else {
        j
    }
}

/// The number of newlines in `s[a..b]`.
pub open spec fn newlines(s: Seq<char>, a: int, b: int) -> nat
    decreases b - a,
{
    if b <= a {
        0
    } else {
        newlines(s, a, b - 1) + if s[b - 1] == '\n' {
            1nat
        } else {
            0nat
        }
    }
}

/// The end of the number whose first digit is at `i`: digits, then a `.`
/// and digits if a digit follows the `.`.
pub open spec fn number_end(s: Seq<char>, i: int) -> int {
    let e = run_end(s, i + 1, Run::Digits);
    if e + 1 < s.len() && s[e] == '.' && is_digit(s[e + 1]) {
        run_end(s, e + 1, Run::Digits)
    } else {
        e
    }
}

/// The category of a character that is a token by itself.
pub open spec fn single_char(c: char) -> Option<TokenType> {
    if c == '(' {
        Some(TokenType::LeftParen)
    } else if c == ')' {
        Some(TokenType::RightParen)
    } else if c == '{' {
        Some(TokenType::LeftBrace)
    } else if c == '}' {
        Some(TokenType::RightBrace)
    } else if c == ',' {
        Some(TokenType::Comma)
    } else if c == '.' {
        Some(TokenType::Dot)
    } else if c == '-' {
        Some(TokenType::Minus)
    } else if c == '+' {
        Some(TokenType::Plus)
    } else if c == ';' {
        Some(TokenType::SemiColon)
    } else if c == '*' {
        Some(TokenType::Star)
    } else {
        None
    }
}

/// The categories of an operator alone and followed by `=`.
pub open spec fn operator_pair(c: char) -> Option<(TokenType, TokenType)> {
    if c == '!' {
        Some((TokenType::Bang, TokenType::BangEqual))
    } else if c == '=' {
        Some((TokenType::Equal, TokenType::EqualEqual))
    } else if c == '>' {
        Some((TokenType::Greater, TokenType::GreaterEqual))
    } else if c == '<' {
        Some((TokenType::Less, TokenType::LessEqual))
    } else {
        None
    }
}

/// What one scanning step does: where the next one starts, the line there,
/// and the token or the diagnostic it emits.
pub struct Step {
    pub next: int,
    pub line: nat,
    pub token: Option<TokenView>,
    pub error: Option<Seq<char>>,
}

pub open spec fn emit(next: int, line: nat, typ: Category, lexeme: Seq<char>) -> Step {
    Step { next, line, token: Some(TokenView { typ, lexeme, line }), error: None }
}

pub open spec fn skip(next: int, line: nat) -> Step {
    Step { next, line, token: None, error: None }
}

pub open spec fn fail(next: int, line: nat, error_line: nat, message: Seq<char>) -> Step {
    Step { next, line, token: None, error: Some(diagnostic(error_line, Seq::empty(), message)) }
}

/// The scanning step that starts at `i` on line `line`.
pub open spec fn step(s: Seq<char>, i: int, line: nat) -> Step {
    let c = s[i];
    let followed_by = |d: char| i + 1 < s.len() && s[i + 1] == d;
    if single_char(c) is Some {
        emit(i + 1, line, Category::Plain(single_char(c)->0), s.subrange(i, i + 1))
    } else if operator_pair(c) is Some {
        let (alone, with_equal) = operator_pair(c)->0;
        if followed_by('=') {
            emit(i + 2, line, Category::Plain(with_equal), s.subrange(i, i + 2))
        } else {
            emit(i + 1, line, Category::Plain(alone), s.subrange(i, i + 1))
        }
    } else if c == '/' {
        if followed_by('/') {
            skip(run_end(s, i + 2, Run::Line), line)
        } else if followed_by('*') {
            let e = comment_end(s, i + 2);
            let l = line + newlines(s, i + 2, e);
            if e < s.len() {
                skip(e + 2, l)
            } else {
                fail(e, l, l, "Unterminated block comment."@)
            }
        } else {
            emit(i + 1, line, Category::Plain(TokenType::Slash), s.subrange(i, i + 1))
        }
    } else if c == '"' {
        let e = run_end(s, i + 1, Run::Quoted);
        let l = line + newlines(s, i + 1, e);
        if e < s.len() {
            Step {
                next: e + 1,
                line: l,
                token: Some(
                    TokenView { typ: Category::Str(s.subrange(i + 1, e)), lexeme: s.subrange(i, e + 1), line: l },
                ),
                error: None,
            }
        } else {
            fail(e, l, line, "Unterminated string."@)
        }
    } else if is_alpha(c) {
        let e = run_end(s, i + 1, Run::Word);
        let w = s.subrange(i, e);
        let typ = match keyword_spec(w) {
            Some(k) => Category::Plain(k),
            None => Category::Identifier(w),
        };
        emit(e, line, typ, w)
    } else if c == ' ' || c == '\t' || c == '\r' {
        skip(i + 1, line)
    } else if c == '\n' {
        skip(i + 1, line + 1)
    } else if is_digit(c) {
        let e = number_end(s, i);
        emit(e, line, Category::Number(s.subrange(i, e)), s.subrange(i, e))
    } else {
        fail(i + 1, line, line, "Unrecognized character: "@.push(c))
    }
}

pub open spec fn optional<T>(o: Option<T>) -> Seq<T> {
    match o {
        Some(x) => seq![x],
        None => Seq::empty(),
    }
}

/// The end marker on line `line`.
pub open spec fn end_marker(line: nat) -> TokenView {
    TokenView { typ: Category::Plain(TokenType::EOF), lexeme: Seq::empty(), line }
}

/// Scanning `s` from `i` on line `line`: the tokens, ending with the end
/// marker, and the diagnostics.
pub open spec fn scan_from(s: Seq<char>, i: int, line: nat) -> (Seq<TokenView>, Seq<Seq<char>>)
    decreases s.len() - i,
{
    if i < 0 || i >= s.len() {
        (seq![end_marker(line)], Seq::empty())
    } else {
        let st = step(s, i, line);
        proof {
            lemma_step(s, i, line);
        }
        let rest = scan_from(s, st.next, st.line);
        (optional(st.token) + rest.0, optional(st.error) + rest.1)
    }
}

/// Scanning the whole of `s` from its first line.
pub open spec fn scan(s: Seq<char>) -> (Seq<TokenView>, Seq<Seq<char>>) {
    scan_from(s, 0, 1)
}

pub proof fn lemma_run_end(s: Seq<char>, i: int, run: Run)
    requires
        0 <= i <= s.len(),
    ensures
        i <= run_end(s, i, run) <= s.len(),
        run_end(s, i, run) < s.len() ==> !continues(run, s[run_end(s, i, run)]),
    decreases s.len() - i,
{
    if i < s.len() && continues(run, s[i]) {
        lemma_run_end(s, i + 1, run);
    }
}

pub proof fn lemma_comment_end(s: Seq<char>, j: int)
    requires
        0 <= j <= s.len(),
    ensures
        j <= comment_end(s, j) <= s.len(),
        comment_end(s, j) < s.len() ==> closes_comment(s, comment_end(s, j)),
    decreases s.len() - j,
{
    if j < s.len() && !closes_comment(s, j) {
        lemma_comment_end(s, j + 1);
    }
}

pub proof fn lemma_newlines(s: Seq<char>, a: int, b: int)
    requires
        a <= b,
    ensures
        newlines(s, a, b) <= b - a,
    decreases b - a,
{
    if a < b {
        lemma_newlines(s, a, b - 1);
    }
}

/// A step moves forward, within the source, and counts at most one line
/// per character it passes.
pub proof fn lemma_step(s: Seq<char>, i: int, line: nat)
    requires
        0 <= i < s.len(),
    ensures
        i < step(s, i, line).next <= s.len(),
        line <= step(s, i, line).line <= line + (step(s, i, line).next - i),
{
    let c = s[i];
    if single_char(c) is Some || operator_pair(c) is Some {
    } else if c == '/' {
        if i + 1 < s.len() && s[i + 1] == '/' {
            lemma_run_end(s, i + 2, Run::Line);
        } else if i + 1 < s.len() && s[i + 1] == '*' {
            lemma_comment_end(s, i + 2);
            lemma_newlines(s, i + 2, comment_end(s, i + 2));
        }
    } else if c == '"' {
        lemma_run_end(s, i + 1, Run::Quoted);
        lemma_newlines(s, i + 1, run_end(s, i + 1, Run::Quoted));
    } else if is_alpha(c) {
        lemma_run_end(s, i + 1, Run::Word);
    } else if is_digit(c) {
        let e = run_end(s, i + 1, Run::Digits);
        lemma_run_end(s, i + 1, Run::Digits);
        if e + 1 < s.len() && s[e] == '.' && is_digit(s[e + 1]) {
            lemma_run_end(s, e + 1, Run::Digits);
        }
    }
}


/// The views of a sequence of tokens.
pub open spec fn views(ts: Seq<Token>) -> Seq<TokenView> {
    ts.map_values(|t: Token| t@)
}

proof fn lemma_views_push(ts: Seq<Token>, t: Token)
    ensures
        views(ts.push(t)) == views(ts).push(t@),
{
    assert(views(ts.push(t)) =~= views(ts).push(t@));
}

fn continues_exec(run: Run, c: char) -> (r: bool)
    ensures
        r == continues(run, c),
{
    match run {
        Run::Digits => '0' <= c && c <= '9',
        Run::Word => ('a' <= c && c <= 'z') || ('A' <= c && c <= 'Z') || c == '_' || ('0' <= c
            && c <= '9'),
        Run::Line => c != '\n',
        Run::Quoted => c != '"',
    }
}

/// The end of the `run` that starts at `from`, and the newlines in it.
fn skip_run(s: &Vec<char>, from: usize, run: Run) -> (r: (usize, usize))
    requires
        from <= s@.len(),
    ensures
        r.0 == run_end(s@, from as int, run),
        r.1 == newlines(s@, from as int, r.0 as int),
        from <= r.0 <= s@.len(),
        r.1 <= r.0 - from,
{
    let mut j = from;
    let mut n: usize = 0;
    while j < s.len() && continues_exec(run, s[j])
        invariant
            from <= j <= s@.len(),
            run_end(s@, from as int, run) == run_end(s@, j as int, run),
            n == newlines(s@, from as int, j as int),
            n <= j - from,
        decreases s@.len() - j,
    {
        if s[j] == '\n' {
            n = n + 1;
        }
        j = j + 1;
    }
    (j, n)
}

/// The end of the block comment whose text starts at `from`, and the
/// newlines in it.
fn skip_comment(s: &Vec<char>, from: usize) -> (r: (usize, usize))
    requires
        from <= s@.len(),
    ensures
        r.0 == comment_end(s@, from as int),
        r.1 == newlines(s@, from as int, r.0 as int),
        from <= r.0 <= s@.len(),
        r.1 <= r.0 - from,
{
    let mut j = from;
    let mut n: usize = 0;
    while j < s.len() && !(s[j] == '*' && j + 1 < s.len() && s[j + 1] == '/')
        invariant
            from <= j <= s@.len(),
            comment_end(s@, from as int) == comment_end(s@, j as int),
            n == newlines(s@, from as int, j as int),
            n <= j - from,
        decreases s@.len() - j,
    {
        if s[j] == '\n' {
            n = n + 1;
        }
        j = j + 1;
    }
    (j, n)
}

fn single_char_type(c: char) -> (r: Option<TokenType>)
    ensures
        r == single_char(c),
{
    if c == '(' {
        Some(TokenType::LeftParen)
    } else if c == ')' {
        Some(TokenType::RightParen)
    } else if c == '{' {
        Some(TokenType::LeftBrace)
    } else if c == '}' {
        Some(TokenType::RightBrace)
    } else if c == ',' {
        Some(TokenType::Comma)
    } else if c == '.' {
        Some(TokenType::Dot)
    } else if c == '-' {
        Some(TokenType::Minus)
    } else if c == '+' {
        Some(TokenType::Plus)
    } else if c == ';' {
        Some(TokenType::SemiColon)
    } else if c == '*' {
        Some(TokenType::Star)
    } else {
        None
    }
}

fn operator_types(c: char) -> (r: Option<(TokenType, TokenType)>)
    ensures
        r == operator_pair(c),
{
    if c == '!' {
        Some((TokenType::Bang, TokenType::BangEqual))
    } else if c == '=' {
        Some((TokenType::Equal, TokenType::EqualEqual))
    } else if c == '>' {
        Some((TokenType::Greater, TokenType::GreaterEqual))
    } else if c == '<' {
        Some((TokenType::Less, TokenType::LessEqual))
    } else {
        None
    }
}

/// Scans source text into tokens. Errors go to the reporter that each scan
/// is handed; scanning goes on past them.
pub struct Scanner {
    pub source: Vec<char>,
    pub tokens: Vec<Token>,
    start: usize,
    current: usize,
    line: usize,
}

impl Scanner {
    /// The scanner is at a position of its source, on a line that it can
    /// have reached from there.
    pub closed spec fn wf(&self) -> bool {
        &&& self.current <= self.source@.len()
        &&& 1 <= self.line <= self.current + 1
        &&& self.source@.len() < usize::MAX
    }

    /// The source, as characters.
    pub closed spec fn text(&self) -> Seq<char> {
        self.source@
    }

    /// The tokens emitted and not yet handed over.
    pub closed spec fn held(&self) -> Seq<Token> {
        self.tokens@
    }

    /// What the rest of the source scans to: its tokens and diagnostics.
    pub closed spec fn rest(&self) -> (Seq<TokenView>, Seq<Seq<char>>) {
        scan_from(self.source@, self.current as int, self.line as nat)
    }

    /// The first character of a token has just been consumed.
    spec fn ready(&self) -> bool {
        &&& self.start < self.source@.len()
        &&& self.current == self.start + 1
        &&& 1 <= self.line <= self.start + 1
        &&& self.source@.len() < usize::MAX
    }

    /// `new` is `old` after the scanning step that starts at `old.start`.
    spec fn stepped(old: Scanner, new: Scanner) -> bool {
        let st = step(old.source@, old.start as int, old.line as nat);
        &&& new.source@ == old.source@
        &&& new.current == st.next
        &&& new.line == st.line
        &&& views(new.tokens@) == views(old.tokens@) + optional(st.token)
    }

    /// What the step that starts at `start` reports.
    spec fn step_errors(&self) -> Seq<Seq<char>> {
        optional(step(self.source@, self.start as int, self.line as nat).error)
    }

    pub fn new(source: String) -> (r: Scanner)
        requires
            source@.len() < usize::MAX,
        ensures
            r.wf(),
            r.text() == source@,
            r.held().len() == 0,
            r.rest() == scan(source@),
    {
        let source = chars_of(&source);
        Scanner { source, tokens: Vec::new(), start: 0, current: 0, line: 1 }
    }

    /// Scans the rest of the source and hands over the tokens, which end with
    /// the end marker; each diagnostic goes to `reporter`.
    pub fn scan_tokens(&mut self, reporter: &mut ErrorReporter) -> (r: Vec<Token>)
        requires
            old(self).wf(),
        ensures
            final(self).wf(),
            final(self).text() == old(self).text(),
            final(self).held().len() == 0,
            final(self).rest().0.len() == 1,
            final(self).rest().1.len() == 0,
            views(r@) == views(old(self).held()) + old(self).rest().0,
            ErrorReporter::after(*old(reporter), *final(reporter), old(self).rest().1),
    {
        let ghost src = self.source@;
        let ghost total = self.rest();
        let ghost emitted: Seq<Seq<char>> = Seq::empty();
        proof {
            ErrorReporter::lemma_after_nothing(*reporter);
            assert(views(self.tokens@) + total.0 == views(old(self).held()) + total.0);
        }
        while self.current < self.source.len()
            invariant
                self.wf(),
                self.source@ == src,
                views(self.tokens@) + self.rest().0 == views(old(self).held()) + total.0,
                emitted + self.rest().1 == total.1,
                ErrorReporter::after(*old(reporter), *reporter, emitted),
            decreases self.source@.len() - self.current,
        {
            let ghost s0 = *self;
            let ghost r0 = *reporter;
            self.scan_token(reporter);
            proof {
                let st = step(src, s0.current as int, s0.line as nat);
                lemma_step(src, s0.current as int, s0.line as nat);
                ErrorReporter::lemma_after_after(*old(reporter), r0, *reporter, emitted, optional(st.error));
                assert(views(self.tokens@) + self.rest().0 =~= views(s0.tokens@) + s0.rest().0);
                assert(emitted + optional(st.error) + self.rest().1 =~= emitted + s0.rest().1);
                emitted = emitted + optional(st.error);
            }
        }
        let eof = Token::new(TokenType::EOF, String::new(), self.line);
        proof {
            lemma_views_push(self.tokens@, eof);
            assert(eof@ == end_marker(self.line as nat));
            assert(emitted =~= total.1);
        }
        self.tokens.push(eof);
        let mut r: Vec<Token> = Vec::new();
        std::mem::swap(&mut r, &mut self.tokens);
        proof {
            assert(views(r@) =~= views(old(self).held()) + total.0);
        }
        r
    }

    fn scan_token(&mut self, reporter: &mut ErrorReporter)
        requires
            old(self).wf(),
            old(self).current < old(self).source@.len(),
        ensures
            final(self).wf(),
            final(self).source@ == old(self).source@,
            final(self).current == step(old(self).source@, old(self).current as int, old(self).line as nat).next,
            final(self).line == step(old(self).source@, old(self).current as int, old(self).line as nat).line,
            views(final(self).tokens@) == views(old(self).tokens@) + optional(
                step(old(self).source@, old(self).current as int, old(self).line as nat).token,
            ),
            ErrorReporter::after(
                *old(reporter),
                *final(reporter),
                optional(step(old(self).source@, old(self).current as int, old(self).line as nat).error),
            ),
    {
        self.start = self.current;
        let c = self.source[self.current];
        self.current = self.current + 1;
        let ghost s0 = *self;
        proof {
            lemma_step(s0.source@, s0.start as int, s0.line as nat);
        }
        if let Some(typ) = single_char_type(c) {
            self.add_token(typ);
            proof {
                ErrorReporter::lemma_after_nothing(*reporter);
            }
        } else if let Some((alone, with_equal)) = operator_types(c) {
            if self.current < self.source.len() && self.source[self.current] == '=' {
                self.current = self.current + 1;
                self.add_token(with_equal);
            } else {
                self.add_token(alone);
            }
            proof {
                ErrorReporter::lemma_after_nothing(*reporter);
            }
        } else if c == '/' {
            if self.current < self.source.len() && self.source[self.current] == '/' {
                self.scan_inline_comment();
                proof {
                    ErrorReporter::lemma_after_nothing(*reporter);
                }
            } else if self.current < self.source.len() && self.source[self.current] == '*' {
                self.scan_block_comment(reporter);
            } else {
                self.add_token(TokenType::Slash);
                proof {
                    ErrorReporter::lemma_after_nothing(*reporter);
                }
            }
        } else if c == '"' {
            self.scan_string(reporter);
        } else if ('a' <= c && c <= 'z') || ('A' <= c && c <= 'Z') || c == '_' {
            self.scan_identifier();
            proof {
                ErrorReporter::lemma_after_nothing(*reporter);
            }
        } else if c == ' ' || c == '\t' || c == '\r' {
            proof {
                ErrorReporter::lemma_after_nothing(*reporter);
            }
        } else if c == '\n' {
            self.line = self.line + 1;
            proof {
                ErrorReporter::lemma_after_nothing(*reporter);
            }
        } else if '0' <= c && c <= '9' {
            self.scan_number();
            proof {
                ErrorReporter::lemma_after_nothing(*reporter);
            }
        } else {
            let mut message = String::from_str("Unrecognized character: ");
            push_char(&mut message, c);
            let ghost r0 = *reporter;
            reporter.error(self.line, message.as_str(), data_error());
            proof {
                ErrorReporter::lemma_after_report(r0, *reporter, diagnostic(self.line as nat, Seq::empty(), message@));
            }
        }
        proof {
            assert(views(self.tokens@) =~= views(old(self).tokens@) + optional(
                step(old(self).source@, old(self).current as int, old(self).line as nat).token,
            ));
        }
    }

    /// Emits a token of `typ` for the characters from `start` to `current`.
    fn add_token(&mut self, typ: TokenType)
        requires
            old(self).start <= old(self).current <= old(self).source@.len(),
        ensures
            final(self).source == old(self).source,
            final(self).start == old(self).start,
            final(self).current == old(self).current,
            final(self).line == old(self).line,
            views(final(self).tokens@) == views(old(self).tokens@).push(
                TokenView {
                    typ: typ@,
                    lexeme: old(self).source@.subrange(old(self).start as int, old(self).current as int),
                    line: old(self).line as nat,
                },
            ),
    {
        let lexeme = text_of(&self.source, self.start, self.current);
        let token = Token::new(typ, lexeme, self.line);
        proof {
            lemma_views_push(self.tokens@, token);
        }
        self.tokens.push(token);
    }

    fn scan_inline_comment(&mut self)
        requires
            old(self).ready(),
            old(self).source@[old(self).start as int] == '/',
            old(self).current < old(self).source@.len(),
            old(self).source@[old(self).current as int] == '/',
        ensures
            final(self).source@ == old(self).source@,
            final(self).tokens == old(self).tokens,
            final(self).line == old(self).line,
            final(self).current == step(old(self).source@, old(self).start as int, old(self).line as nat).next,
    {
        let (end, _) = skip_run(&self.source, self.current + 1, Run::Line);
        self.current = end;
    }

    fn scan_block_comment(&mut self, reporter: &mut ErrorReporter)
        requires
            old(self).ready(),
            old(self).source@[old(self).start as int] == '/',
            old(self).current < old(self).source@.len(),
            old(self).source@[old(self).current as int] == '*',
        ensures
            Self::stepped(*old(self), *final(self)),
            ErrorReporter::after(*old(reporter), *final(reporter), old(self).step_errors()),
    {
        let (end, n) = skip_comment(&self.source, self.current + 1);
        self.line = self.line + n;
        if end < self.source.len() {
            self.current = end + 2;
            proof {
                lemma_comment_end(self.source@, old(self).current + 1);
                ErrorReporter::lemma_after_nothing(*reporter);
            }
        } else {
            self.current = end;
            let ghost r0 = *reporter;
            reporter.error(self.line, "Unterminated block comment.", data_error());
            proof {
                ErrorReporter::lemma_after_report(r0, *reporter, diagnostic(self.line as nat, Seq::empty(), "Unterminated block comment."@));
            }
        }
        proof {
            assert(views(self.tokens@) =~= views(old(self).tokens@) + Seq::empty());
        }
    }

    fn scan_string(&mut self, reporter: &mut ErrorReporter)
        requires
            old(self).ready(),
            old(self).source@[old(self).start as int] == '"',
        ensures
            Self::stepped(*old(self), *final(self)),
            ErrorReporter::after(*old(reporter), *final(reporter), old(self).step_errors()),
    {
        let start_line = self.line;
        let (end, n) = skip_run(&self.source, self.current, Run::Quoted);
        self.line = self.line + n;
        if end >= self.source.len() {
            self.current = end;
            let ghost r0 = *reporter;
            reporter.error(start_line, "Unterminated string.", data_error());
            proof {
                ErrorReporter::lemma_after_report(r0, *reporter, diagnostic(start_line as nat, Seq::empty(), "Unterminated string."@));
                assert(views(self.tokens@) =~= views(old(self).tokens@) + Seq::empty());
            }
            return;
        }
        self.current = end + 1;
        let value = text_of(&self.source, self.start + 1, end);
        self.add_token(TokenType::String(value));
        proof {
            ErrorReporter::lemma_after_nothing(*reporter);
        }
        proof {
            assert(views(self.tokens@) =~= views(old(self).tokens@) + optional(
                step(old(self).source@, old(self).start as int, old(self).line as nat).token,
            ));
        }
    }

    fn scan_identifier(&mut self)
        requires
            old(self).ready(),
            is_alpha(old(self).source@[old(self).start as int]),
        ensures
            Self::stepped(*old(self), *final(self)),
            old(self).step_errors().len() == 0,
    {
        let (end, _) = skip_run(&self.source, self.current, Run::Word);
        self.current = end;
        let word = text_of(&self.source, self.start, end);
        proof {
            lemma_keyword_plain(word@);
        }
        match keyword(&word) {
            Some(typ) => self.add_token(typ),
            None => self.add_token(TokenType::Identifier(word)),
        }
        proof {
            assert(views(self.tokens@) =~= views(old(self).tokens@) + optional(
                step(old(self).source@, old(self).start as int, old(self).line as nat).token,
            ));
        }
    }

    fn scan_number(&mut self)
        requires
            old(self).ready(),
            is_digit(old(self).source@[old(self).start as int]),
        ensures
            Self::stepped(*old(self), *final(self)),
            old(self).step_errors().len() == 0,
    {
        let (digits_end, _) = skip_run(&self.source, self.current, Run::Digits);
        let mut end = digits_end;
        if digits_end + 1 < self.source.len() && self.source[digits_end] == '.' && '0'
            <= self.source[digits_end + 1] && self.source[digits_end + 1] <= '9' {
            let (fraction_end, _) = skip_run(&self.source, digits_end + 1, Run::Digits);
            end = fraction_end;
        }
        self.current = end;
        let text = text_of(&self.source, self.start, end);
        self.add_token(TokenType::Number(text));
        proof {
            assert(views(self.tokens@) =~= views(old(self).tokens@) + optional(
                step(old(self).source@, old(self).start as int, old(self).line as nat).token,
            ));
        }
    }
}


pub open spec fn is_end_marker(t: TokenView) -> bool {
    t.typ == Category::Plain(TokenType::EOF)
}

/// The token of a step stands on the line where the step ends, and is never
/// the end marker.
proof fn lemma_step_token(s: Seq<char>, i: int, line: nat)
    requires
        0 <= i < s.len(),
    ensures
        step(s, i, line).token matches Some(t) ==> t.line == step(s, i, line).line && !is_end_marker(t),
{
    let c = s[i];
    if is_alpha(c) && single_char(c) is None && operator_pair(c) is None && c != '/' && c != '"' {
        let w = s.subrange(i, run_end(s, i + 1, Run::Word));
        lemma_keyword_plain(w);
    }
}

/// Scanning from any position yields exactly one end marker, as the last
/// token, and the lines of the tokens never go down, starting from `line`.
pub proof fn lemma_scan_from_shape(s: Seq<char>, i: int, line: nat)
    ensures
        scan_from(s, i, line).0.len() >= 1,
        is_end_marker(scan_from(s, i, line).0.last()),
        forall|k: int| 0 <= k < scan_from(s, i, line).0.len() - 1 ==> !is_end_marker(#[trigger] scan_from(s, i, line).0[k]),
        forall|k: int| 0 <= k < scan_from(s, i, line).0.len() ==> line <= #[trigger] scan_from(s, i, line).0[k].line,
        forall|a: int, b: int|
            0 <= a <= b < scan_from(s, i, line).0.len() ==> #[trigger] scan_from(s, i, line).0[a].line
                <= #[trigger] scan_from(s, i, line).0[b].line,
    decreases s.len() - i,
{
    if 0 <= i < s.len() {
        let st = step(s, i, line);
        lemma_step(s, i, line);
        lemma_step_token(s, i, line);
        lemma_scan_from_shape(s, st.next, st.line);
        let rest = scan_from(s, st.next, st.line).0;
        let ts = scan_from(s, i, line).0;
        assert(ts == optional(st.token) + rest);
        if let Some(t) = st.token {
            assert(ts == seq![t] + rest);
            assert forall|k: int| 0 <= k < ts.len() - 1 implies !is_end_marker(#[trigger] ts[k]) by {
                if k > 0 {
                    assert(ts[k] == rest[k - 1]);
                }
            }
            assert forall|k: int| 0 <= k < ts.len() implies line <= #[trigger] ts[k].line by {
                if k > 0 {
                    assert(ts[k] == rest[k - 1]);
                }
            }
            assert forall|a: int, b: int| 0 <= a <= b < ts.len() implies #[trigger] ts[a].line <= #[trigger] ts[b].line by {
                if a > 0 {
                    assert(ts[a] == rest[a - 1]);
                }
                if b > 0 {
                    assert(ts[b] == rest[b - 1]);
                }
            }
        } else {
            assert(ts =~= rest);
        }
    }
}

/// The tokens of any source end with exactly one end marker, and their lines
/// never go down.
pub proof fn lemma_scan_shape(s: Seq<char>)
    ensures
        scan(s).0.len() >= 1,
        is_end_marker(scan(s).0.last()),
        forall|k: int| 0 <= k < scan(s).0.len() - 1 ==> !is_end_marker(#[trigger] scan(s).0[k]),
        forall|a: int, b: int|
            0 <= a <= b < scan(s).0.len() ==> #[trigger] scan(s).0[a].line <= #[trigger] scan(s).0[b].line,
{
    lemma_scan_from_shape(s, 0, 1);
}


proof fn lemma_run_to_end(s: Seq<char>, i: int, run: Run)
    requires
        0 <= i <= s.len(),
        forall|k: int| i <= k < s.len() ==> continues(run, #[trigger] s[k]),
    ensures
        run_end(s, i, run) == s.len(),
    decreases s.len() - i,
{
    if i < s.len() {
        lemma_run_to_end(s, i + 1, run);
    }
}

/// A string that is never closed ends the scan with exactly one diagnostic,
/// "Unterminated string.", on the line where the string starts; only the end
/// marker follows it.
pub proof fn lemma_unterminated_string(s: Seq<char>, i: int, line: nat)
    requires
        0 <= i < s.len(),
        s[i] == '"',
        forall|k: int| i < k < s.len() ==> #[trigger] s[k] != '"',
    ensures
        scan_from(s, i, line).1 == seq![diagnostic(line, Seq::empty(), "Unterminated string."@)],
        scan_from(s, i, line).0 == seq![end_marker(line + newlines(s, i + 1, s.len() as int))],
{
    lemma_run_to_end(s, i + 1, Run::Quoted);
    let st = step(s, i, line);
    let l = line + newlines(s, i + 1, s.len() as int);
    assert(single_char(s[i]) is None && operator_pair(s[i]) is None);
    assert(st == fail(s.len() as int, l, line, "Unterminated string."@));
    let rest = scan_from(s, st.next, st.line);
    assert(rest == (seq![end_marker(l)], Seq::<Seq<char>>::empty()));
    assert(scan_from(s, i, line) == (optional(st.token) + rest.0, optional(st.error) + rest.1));
    assert(scan_from(s, i, line).1 =~= seq![diagnostic(line, Seq::empty(), "Unterminated string."@)]);
    assert(scan_from(s, i, line).0 =~= seq![end_marker(line + newlines(s, i + 1, s.len() as int))]);
}

} // verus!
