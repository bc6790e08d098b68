//! The scanner: source text to tokens.
//!
//! Scanning never fails. A character that starts nothing and a string that
//! is never closed are recorded as diagnostics, and the scan goes on. The one
//! thing that stops it early is the word `exit`.

use vstd::prelude::*;
use vstd::string::StringExecFns;
use crate::diagnostic::{complaint, diagnostic_views, Diagnostic, DiagnosticView};
use crate::text::{chars_of, slice_of, spells, text_of};
use crate::token::{token_views, Token, TokenType, TokenView};

verus! {

/// The kinds of character runs that the scanner takes whole.
#[derive(Debug, Clone, Copy, PartialEq, Eq, Structural)]
pub enum Run {
    /// ASCII digits.
    Digits,
    /// ASCII letters and the underscore.
    Letters,
    /// Anything but a double quote.
    Quoted,
    /// Anything but a line feed.
    Line,
}

/// Whether `c` is an ASCII digit.
pub open spec fn is_digit(c: char) -> bool {
    '0' <= c && c <= '9'
}

/// Whether `c` may stand in a word: an ASCII letter or the underscore.
pub open spec fn is_letter(c: char) -> bool {
    ('a' <= c && c <= 'z') || ('A' <= c && c <= 'Z') || c == '_'
}

/// Whether a run of kind `run` may hold `c`.
pub open spec fn belongs(c: char, run: Run) -> bool {
    match run {
        Run::Digits => is_digit(c),
        Run::Letters => is_letter(c),
        Run::Quoted => c != '"',
        Run::Line => c != '\n',
    }
}

/// Where the longest run of kind `run` that starts at `from` ends: the first
/// position at or after `from` that holds no character of the run.
pub open spec fn run_end(src: Seq<char>, from: int, run: Run) -> int
    decreases src.len() - from,
{
    if from < src.len() && belongs(src[from as int], run) {
        run_end(src, from + 1, run)
    } else {
        from
    }
}

/// Where a block comment whose body starts at `from` ends: just behind the
/// first `*/`, or at the end of the text where there is none.
pub open spec fn comment_end(src: Seq<char>, from: int) -> int
    decreases src.len() - from,
{
    if from + 1 < src.len() {
        if src[from as int] == '*' && src[from + 1] == '/' {
            from + 2
        } else {
            comment_end(src, from + 1)
        }
    } else {
        src.len() as int
    }
}

/// A run is maximal: it stays inside the text, holds only characters of its
/// kind, and stops at the end of the text or before a character of another kind.
pub proof fn lemma_run_end(src: Seq<char>, from: int, run: Run)
    requires
        0 <= from <= src.len(),
    ensures
        from <= run_end(src, from, run) <= src.len(),
        forall|k: int| from <= k < run_end(src, from, run) ==> belongs(#[trigger] src[k], run),
        run_end(src, from, run) < src.len() ==> !belongs(
            src[run_end(src, from, run) as int],
            run,
        ),
    decreases src.len() - from,
{
    if from < src.len() && belongs(src[from as int], run) {
        lemma_run_end(src, from + 1, run);
    }
}

/// Whether `*/` stands at position `at`.
pub open spec fn closes_at(src: Seq<char>, at: int) -> bool {
    0 <= at && at + 1 < src.len() && src[at] == '*' && src[at + 1] == '/'
}

/// A block comment ends just behind the first `*/` at or behind where its
/// body starts, and at the end of the text where there is none.
pub proof fn lemma_comment_end(src: Seq<char>, from: int)
    requires
        0 <= from <= src.len(),
    ensures
        from <= comment_end(src, from) <= src.len(),
        forall|k: int| from <= k < comment_end(src, from) - 2 ==> !closes_at(src, k),
        closes_at(src, comment_end(src, from) - 2) && from <= comment_end(src, from) - 2 || (
        comment_end(src, from) == src.len() && forall|k: int|
            from <= k < src.len() ==> !closes_at(src, k)),
    decreases src.len() - from,
{
    if from + 1 < src.len() && !(src[from] == '*' && src[from + 1] == '/') {
        lemma_comment_end(src, from + 1);
    }
}

/// Whether the character behind position `i` is `c`.
pub open spec fn follows(src: Seq<char>, i: int, c: char) -> bool {
    i + 1 < src.len() && src[i + 1] == c
}

/// The punctuation that stands alone: its kind and its text.
pub open spec fn punctuation(c: char) -> Option<(TokenType, Seq<char>)> {
    if c == '{' {
        Some((TokenType::LEFT_BRACE, "{"@))
    } else if c == '}' {
        Some((TokenType::RIGHT_BRACE, "}"@))
    } else if c == '(' {
        Some((TokenType::LEFT_PAREN, "("@))
    } else if c == ')' {
        Some((TokenType::RIGHT_PAREN, ")"@))
    } else if c == ',' {
        Some((TokenType::COMMA, ","@))
    } else if c == '.' {
        Some((TokenType::DOT, "."@))
    } else if c == '-' {
        Some((TokenType::MINUS, "-"@))
    } else if c == '+' {
        Some((TokenType::PLUS, "+"@))
    } else if c == ';' {
        Some((TokenType::SEMICOLON, ";"@))
    } else if c == '*' {
        Some((TokenType::STAR, "*"@))
    } else {
        None
    }
}

/// The operators that an `=` behind them lengthens: kind and text, with
/// (`doubled`) and without that `=`.
pub open spec fn operator(c: char, doubled: bool) -> Option<(TokenType, Seq<char>)> {
    if c == '!' {
        if doubled {
            Some((TokenType::BANG_EQUAL, "!="@))
        } else {
            Some((TokenType::BANG, "!"@))
        }
    } else if c == '=' {
        if doubled {
            Some((TokenType::EQUAL_EQUAL, "=="@))
        } else {
            Some((TokenType::EQUAL, "="@))
        }
    } else if c == '>' {
        if doubled {
            Some((TokenType::GREATER_EQUAL, ">="@))
        } else {
            Some((TokenType::GREATER, ">"@))
        }
    } else if c == '<' {
        if doubled {
            Some((TokenType::LESS_EQUAL, "<="@))
        } else {
            Some((TokenType::LESS, "<"@))
        }
    } else {
        None
    }
}

/// The keyword table: the kind and the text of the token that `word` gives.
/// The function keyword is written `fn` and the absent value `nul`; their
/// tokens carry the texts `fun` and `nil`.
pub open spec fn keyword(word: Seq<char>) -> Option<(TokenType, Seq<char>)> {
    if word == "and"@ {
        Some((TokenType::AND, "and"@))
    } else if word == "class"@ {
        Some((TokenType::CLASS, "class"@))
    } else if word == "else"@ {
        Some((TokenType::ELSE, "else"@))
    } else if word == "false"@ {
        Some((TokenType::FALSE, "false"@))
    } else if word == "for"@ {
        Some((TokenType::FOR, "for"@))
    } else if word == "fn"@ {
        Some((TokenType::FUN, "fun"@))
    } else if word == "if"@ {
        Some((TokenType::IF, "if"@))
    } else if word == "nul"@ {
        Some((TokenType::NIL, "nil"@))
    } else if word == "or"@ {
        Some((TokenType::OR, "or"@))
    } else if word == "print"@ {
        Some((TokenType::PRINT, "print"@))
    } else if word == "return"@ {
        Some((TokenType::RETURN, "return"@))
    } else if word == "super"@ {
        Some((TokenType::SUPER, "super"@))
    } else if word == "this"@ {
        Some((TokenType::THIS, "this"@))
    } else if word == "true"@ {
        Some((TokenType::TRUE, "true"@))
    } else if word == "var"@ {
        Some((TokenType::VAR, "var"@))
    } else if word == "while"@ {
        Some((TokenType::WHILE, "while"@))
    } else {
        None
    }
}

/// What one step of the scan does at a position: where it goes on, the
/// counters it leaves, and what it produced.
pub struct Lexed {
    pub next: int,
    pub line: nat,
    pub column: nat,
    pub token: Option<TokenView>,
    pub diagnostic: Option<DiagnosticView>,
    pub exit: bool,
}

/// A step that produces the token `entry` with the literal `literal`.
pub open spec fn emits(
    entry: (TokenType, Seq<char>),
    literal: Seq<char>,
    next: int,
    line: nat,
    column: nat,
) -> Lexed {
    Lexed {
        next,
        line,
        column,
        token: Some(
            TokenView { token_type: entry.0, lexeme: entry.1, literal, line, index: column },
        ),
        diagnostic: None,
        exit: false,
    }
}

/// A step that produces nothing.
pub open spec fn passes(next: int, line: nat, column: nat) -> Lexed {
    Lexed { next, line, column, token: None, diagnostic: None, exit: false }
}

/// The step of the scan at position `i` of `src`, with the line and column
/// counters as they stand there.
///
/// * `//` starts a comment that runs up to the line feed, `/*` one that runs
///   through the next `*/`; the text of a comment moves no counter.
/// * A blank or a tab adds one to the column. A line feed and a carriage
///   return each add one to the line and set the column to zero.
/// * A string runs from behind its opening quote up to the next quote; where
///   there is none it runs to the end of the text, and that is recorded.
/// * A number is a longest run of digits, a word a longest run of letters and
///   underscores. The word `exit` ends the scan.
/// * Any other character is recorded and passed over.
pub open spec fn lex_one(src: Seq<char>, i: int, line: nat, column: nat) -> Lexed {
    let c = src[i as int];
    let doubled = follows(src, i, '=');
    if c == '/' {
        if follows(src, i, '/') {
            passes(run_end(src, i + 1, Run::Line), line, column)
        } else if follows(src, i, '*') {
            passes(comment_end(src, i + 2), line, column)
        } else {
            emits((TokenType::SLASH, "/"@), seq![c], i + 1, line, column)
        }
    } else if punctuation(c) is Some {
        emits(punctuation(c)->0, seq![c], i + 1, line, column)
    } else if operator(c, doubled) is Some {
        emits(
            operator(c, doubled)->0,
            seq![c],
            if doubled {
                i + 2
            } else {
                i + 1
            },
            line,
            column,
        )
    } else if c == ' ' || c == '\t' {
        passes(i + 1, line, column + 1)
    } else if c == '\n' || c == '\r' {
        passes(i + 1, line + 1, 0)
    } else if c == '"' {
        let end = run_end(src, i + 1, Run::Quoted);
        let inside = src.subrange(i + 1, end as int);
        Lexed {
            next: if end < src.len() {
                end + 1
            } else {
                src.len() as int
            },
            line,
            column,
            token: Some(
                TokenView {
                    token_type: TokenType::STRING,
                    lexeme: inside,
                    literal: inside,
                    line,
                    index: column,
                },
            ),
            diagnostic: if end < src.len() {
                None
            } else {
                Some(complaint(line, column, "Unterminated string"@))
            },
            exit: false,
        }
    } else if is_digit(c) {
        let end = run_end(src, i + 1, Run::Digits);
        let digits = src.subrange(i as int, end as int);
        emits((TokenType::NUMBER, digits), digits, end, line, column)
    } else if is_letter(c) {
        let end = run_end(src, i + 1, Run::Letters);
        let word = src.subrange(i as int, end as int);
        if word == "exit"@ {
            Lexed { next: end, line, column, token: None, diagnostic: None, exit: true }
        } else if keyword(word) is Some {
            emits(keyword(word)->0, word, end, line, column)
        } else {
            emits((TokenType::IDENTIFIER, word), word, end, line, column)
        }
    } else {
        Lexed {
            next: i + 1,
            line,
            column,
            token: None,
            diagnostic: Some(complaint(line, column, "Unexpected token"@)),
            exit: false,
        }
    }
}

/// Every step moves forward and stays inside the text, and no counter runs
/// ahead of the position.
pub proof fn lemma_lex_one_advances(src: Seq<char>, i: int, line: nat, column: nat)
    requires
        0 <= i < src.len(),
    ensures
        i < lex_one(src, i, line, column).next <= src.len(),
        line <= i ==> lex_one(src, i, line, column).line <= lex_one(src, i, line, column).next,
        column <= i ==> lex_one(src, i, line, column).column <= lex_one(
            src,
            i,
            line,
            column,
        ).next,
{
    lemma_run_end(src, i + 1, Run::Line);
    lemma_run_end(src, i + 1, Run::Quoted);
    lemma_run_end(src, i + 1, Run::Digits);
    lemma_run_end(src, i + 1, Run::Letters);
    if i + 2 <= src.len() {
        lemma_comment_end(src, i + 2);
    }
}

/// No step produces an end-of-input token.
pub proof fn lemma_lex_one_kinds(src: Seq<char>, i: int, line: nat, column: nat)
    ensures
        lex_one(src, i, line, column).token is Some ==> lex_one(
            src,
            i,
            line,
            column,
        ).token->0.token_type != TokenType::EOF,
{
}

/// What a scan yields, as mathematics.
pub struct ScannedView {
    pub tokens: Seq<TokenView>,
    pub diagnostics: Seq<DiagnosticView>,
    pub exit: bool,
}

/// The end-of-input token at the given counters.
pub open spec fn end_token(line: nat, column: nat) -> TokenView {
    TokenView {
        token_type: TokenType::EOF,
        lexeme: ""@,
        literal: Seq::empty(),
        line,
        index: column,
    }
}

/// A sequence of no element, or of the one that `item` holds.
pub open spec fn optional<T>(item: Option<T>) -> Seq<T> {
    match item {
        Some(x) => seq![x],
        None => Seq::empty(),
    }
}

/// What the scan yields from position `i` on: the steps' tokens and
/// diagnostics in order, closed by the end-of-input token. A step that meets
/// `exit` closes the scan where it stands.
pub open spec fn scan_from(src: Seq<char>, i: int, line: nat, column: nat) -> ScannedView
    decreases src.len() - i,
{
    if i < 0 || i >= src.len() {
        ScannedView {
            tokens: seq![end_token(line, column)],
            diagnostics: Seq::empty(),
            exit: false,
        }
    } else {
        let step = lex_one(src, i, line, column);
        if step.exit {
            ScannedView {
                tokens: seq![end_token(line, column)],
                diagnostics: Seq::empty(),
                exit: true,
            }
        } else {
            proof {
                lemma_lex_one_advances(src, i, line, column);
            }
            let rest = scan_from(src, step.next, step.line, step.column);
            ScannedView {
                tokens: optional(step.token) + rest.tokens,
                diagnostics: optional(step.diagnostic) + rest.diagnostics,
                exit: rest.exit,
            }
        }
    }
}

/// What scanning the whole of `src` yields.
pub open spec fn scanned(src: Seq<char>) -> ScannedView {
    scan_from(src, 0, 0, 0)
}

/// A scan from any position ends with the end-of-input token and holds no
/// other.
pub proof fn lemma_scan_from_ends_once(src: Seq<char>, i: int, line: nat, column: nat)
    ensures
        scan_from(src, i, line, column).tokens.len() > 0,
        scan_from(src, i, line, column).tokens.last().token_type == TokenType::EOF,
        forall|k: int|
            0 <= k < scan_from(src, i, line, column).tokens.len() - 1 ==> (#[trigger] scan_from(
                src,
                i,
                line,
                column,
            ).tokens[k]).token_type != TokenType::EOF,
    decreases src.len() - i,
{
    if 0 <= i < src.len() {
        let step = lex_one(src, i, line, column);
        if !step.exit {
            lemma_lex_one_advances(src, i, line, column);
            lemma_lex_one_kinds(src, i, line, column);
            lemma_scan_from_ends_once(src, step.next, step.line, step.column);
        }
    }
}

/// Whether the text of `token` stands in `src` as it is: a number and a word
/// where they were read, a string between its quotes.
pub open spec fn is_source_text(src: Seq<char>, token: TokenView) -> bool {
    exists|from: int, to: int|
        0 <= from <= to <= src.len() && token.lexeme == #[trigger] src.subrange(from, to)
            && token.literal == token.lexeme && (token.token_type == TokenType::STRING ==> from
            > 0 && src[from - 1] == '"')
}

/// Whether a token of kind `kind` carries text of the source.
pub open spec fn carries_text(kind: TokenType) -> bool {
    kind == TokenType::NUMBER || kind == TokenType::IDENTIFIER || kind == TokenType::STRING
}

/// Every number, identifier and string token that a scan yields from
/// position `i` on carries a piece of the source, unchanged.
pub proof fn lemma_scan_from_keeps_text(src: Seq<char>, i: int, line: nat, column: nat, k: int)
    requires
        0 <= i,
        0 <= k < scan_from(src, i, line, column).tokens.len(),
        carries_text(scan_from(src, i, line, column).tokens[k].token_type),
    ensures
        is_source_text(src, scan_from(src, i, line, column).tokens[k]),
    decreases src.len() - i,
{
    if i < src.len() {
        let step = lex_one(src, i, line, column);
        if !step.exit {
            lemma_lex_one_advances(src, i, line, column);
            lemma_run_end(src, i + 1, Run::Quoted);
            lemma_run_end(src, i + 1, Run::Digits);
            lemma_run_end(src, i + 1, Run::Letters);
            let rest = scan_from(src, step.next, step.line, step.column);
            if step.token is Some && k == 0 {
                let t = step.token->0;
                let c = src[i];
                if c == '"' {
                    assert(t.lexeme == src.subrange(i + 1, run_end(src, i + 1, Run::Quoted)));
                } else if is_digit(c) {
                    assert(t.lexeme == src.subrange(i, run_end(src, i + 1, Run::Digits)));
                } else if is_letter(c) {
                    assert(t.lexeme == src.subrange(i, run_end(src, i + 1, Run::Letters)));
                }
            } else {
                lemma_scan_from_keeps_text(
                    src,
                    step.next,
                    step.line,
                    step.column,
                    k - optional(step.token).len(),
                );
            }
        }
    }
}

/// Every number, identifier and string token of a scan carries a piece of
/// the source, unchanged: a string what stands between its quotes.
pub proof fn lemma_scan_keeps_text(src: Seq<char>, k: int)
    requires
        0 <= k < scanned(src).tokens.len(),
        carries_text(scanned(src).tokens[k].token_type),
    ensures
        is_source_text(src, scanned(src).tokens[k]),
{
    lemma_scan_from_keeps_text(src, 0, 0, 0, k);
}

/// What a scan yields: the tokens, closed by the end-of-input token; the
/// diagnostics, in the order they were raised; and whether the scan met
/// `exit`, on which the caller is to stop at once.
#[derive(Debug)]
pub struct Scanned {
    pub tokens: Vec<Token>,
    pub diagnostics: Vec<Diagnostic>,
    pub exit: bool,
}

impl View for Scanned {
    type V = ScannedView;

    open spec fn view(&self) -> ScannedView {
        ScannedView {
            tokens: token_views(self.tokens@),
            diagnostics: diagnostic_views(self.diagnostics@),
            exit: self.exit,
        }
    }
}

/// One step of a scan, as the scanner holds it.
struct Step {
    next: usize,
    line: usize,
    column: usize,
    token: Option<Token>,
    diagnostic: Option<Diagnostic>,
    exit: bool,
}

impl Step {
    /// The step, as mathematics.
    spec fn lexed(&self) -> Lexed {
        Lexed {
            next: self.next as int,
            line: self.line as nat,
            column: self.column as nat,
            token: match self.token {
                Some(t) => Some(t@),
                None => None,
            },
            diagnostic: match self.diagnostic {
                Some(d) => Some(d@),
                None => None,
            },
            exit: self.exit,
        }
    }
}

/// Whether a table lookup found what the table holds.
spec fn found(got: Option<(TokenType, String)>, entry: Option<(TokenType, Seq<char>)>) -> bool {
    match got {
        Some((kind, text)) => entry == Some((kind, text@)),
        None => entry is None,
    }
}

/// A table entry: a kind and its text.
fn entry(kind: TokenType, text: &str) -> (got: Option<(TokenType, String)>)
    ensures
        found(got, Some((kind, text@))),
{
    Some((kind, String::from_str(text)))
}

/// Looks `c` up among the punctuation that stands alone.
fn find_punctuation(c: char) -> (got: Option<(TokenType, String)>)
    ensures
        found(got, punctuation(c)),
{
    if c == '{' {
        entry(TokenType::LEFT_BRACE, "{")
    } else if c == '}' {
        entry(TokenType::RIGHT_BRACE, "}")
    } else if c == '(' {
        entry(TokenType::LEFT_PAREN, "(")
    } else if c == ')' {
        entry(TokenType::RIGHT_PAREN, ")")
    } else if c == ',' {
        entry(TokenType::COMMA, ",")
    } else if c == '.' {
        entry(TokenType::DOT, ".")
    } else if c == '-' {
        entry(TokenType::MINUS, "-")
    } else if c == '+' {
        entry(TokenType::PLUS, "+")
    } else if c == ';' {
        entry(TokenType::SEMICOLON, ";")
    } else if c == '*' {
        entry(TokenType::STAR, "*")
    } else {
        None
    }
}

/// Looks `c` up among the operators that an `=` lengthens.
fn find_operator(c: char, doubled: bool) -> (got: Option<(TokenType, String)>)
    ensures
        found(got, operator(c, doubled)),
{
    if c == '!' {
        if doubled {
            entry(TokenType::BANG_EQUAL, "!=")
        } else {
            entry(TokenType::BANG, "!")
        }
    } else if c == '=' {
        if doubled {
            entry(TokenType::EQUAL_EQUAL, "==")
        } else {
            entry(TokenType::EQUAL, "=")
        }
    } else if c == '>' {
        if doubled {
            entry(TokenType::GREATER_EQUAL, ">=")
        } else {
            entry(TokenType::GREATER, ">")
        }
    } else if c == '<' {
        if doubled {
            entry(TokenType::LESS_EQUAL, "<=")
        } else {
            entry(TokenType::LESS, "<")
        }
    } else {
        None
    }
}

/// Looks `word` up in the keyword table.
fn find_keyword(word: &Vec<char>) -> (got: Option<(TokenType, String)>)
    ensures
        found(got, keyword(word@)),
{
    if spells(word, "and") {
        entry(TokenType::AND, "and")
    } else if spells(word, "class") {
        entry(TokenType::CLASS, "class")
    } else if spells(word, "else") {
        entry(TokenType::ELSE, "else")
    } else if spells(word, "false") {
        entry(TokenType::FALSE, "false")
    } else if spells(word, "for") {
        entry(TokenType::FOR, "for")
    } else if spells(word, "fn") {
        entry(TokenType::FUN, "fun")
    } else if spells(word, "if") {
        entry(TokenType::IF, "if")
    } else if spells(word, "nul") {
        entry(TokenType::NIL, "nil")
    } else if spells(word, "or") {
        entry(TokenType::OR, "or")
    } else if spells(word, "print") {
        entry(TokenType::PRINT, "print")
    } else if spells(word, "return") {
        entry(TokenType::RETURN, "return")
    } else if spells(word, "super") {
        entry(TokenType::SUPER, "super")
    } else if spells(word, "this") {
        entry(TokenType::THIS, "this")
    } else if spells(word, "true") {
        entry(TokenType::TRUE, "true")
    } else if spells(word, "var") {
        entry(TokenType::VAR, "var")
    } else if spells(word, "while") {
        entry(TokenType::WHILE, "while")
    } else {
        None
    }
}

/// Whether a run of kind `run` may hold `c`.
fn in_run(c: char, run: Run) -> (b: bool)
    ensures
        b == belongs(c, run),
{
    match run {
        Run::Digits => '0' <= c && c <= '9',
        Run::Letters => ('a' <= c && c <= 'z') || ('A' <= c && c <= 'Z') || c == '_',
        Run::Quoted => c != '"',
        Run::Line => c != '\n',
    }
}

/// Where the longest run of kind `run` that starts at `from` ends.
pub(crate) fn skip_run(src: &Vec<char>, from: usize, run: Run) -> (end: usize)
    requires
        from <= src.len(),
    ensures
        end == run_end(src@, from as int, run),
        from <= end <= src.len(),
{
    let mut end: usize = from;
    while end < src.len() && in_run(src[end], run)
        invariant
            from <= end <= src.len(),
            run_end(src@, from as int, run) == run_end(src@, end as int, run),
        decreases src.len() - end,
    {
        end += 1;
    }
    end
}

/// Where a block comment whose body starts at `from` ends.
fn skip_comment(src: &Vec<char>, from: usize) -> (end: usize)
    requires
        from <= src.len(),
    ensures
        end == comment_end(src@, from as int),
        from <= end <= src.len(),
{
    let mut at: usize = from;
    while src.len() - at > 1 && !(src[at] == '*' && src[at + 1] == '/')
        invariant
            from <= at <= src.len(),
            comment_end(src@, from as int) == comment_end(src@, at as int),
        decreases src.len() - at,
    {
        at += 1;
    }
    if src.len() - at > 1 {
        at + 2
    } else {
        src.len()
    }
}

/// The list that holds `c` alone.
fn single(c: char) -> (one: Vec<char>)
    ensures
        one@ == seq![c],
{
    let mut one: Vec<char> = Vec::new();
    one.push(c);
    assert(one@ =~= seq![c]);
    one
}

/// Whether the character behind position `i` is `c`.
fn next_is(src: &Vec<char>, i: usize, c: char) -> (b: bool)
    requires
        i < src.len(),
    ensures
        b == follows(src@, i as int, c),
{
    i + 1 < src.len() && src[i + 1] == c
}

/// A step that produces one token.
fn token_step(
    found_entry: (TokenType, String),
    literal: Vec<char>,
    next: usize,
    line: usize,
    column: usize,
) -> (step: Step)
    ensures
        step.lexed() == emits(
            (found_entry.0, found_entry.1@),
            literal@,
            next as int,
            line as nat,
            column as nat,
        ),
{
    Step {
        next,
        line,
        column,
        token: Some(Token::new(found_entry.0, found_entry.1, literal, line, column)),
        diagnostic: None,
        exit: false,
    }
}

/// A step that produces nothing.
fn plain_step(next: usize, line: usize, column: usize) -> (step: Step)
    ensures
        step.lexed() == passes(next as int, line as nat, column as nat),
{
    Step { next, line, column, token: None, diagnostic: None, exit: false }
}

/// The step of the scan at position `i`.
fn step_at(src: &Vec<char>, i: usize, line: usize, column: usize) -> (step: Step)
    requires
        i < src.len(),
        line <= i,
        column <= i,
    ensures
        step.lexed() == lex_one(src@, i as int, line as nat, column as nat),
        i < step.next <= src.len(),
        step.line <= step.next,
        step.column <= step.next,
{
    proof {
        lemma_lex_one_advances(src@, i as int, line as nat, column as nat);
    }
    let c = src[i];
    let doubled = next_is(src, i, '=');
    if c == '/' {
        if next_is(src, i, '/') {
            let end = skip_run(src, i + 1, Run::Line);
            return plain_step(end, line, column);
        } else if next_is(src, i, '*') {
            let end = skip_comment(src, i + 2);
            return plain_step(end, line, column);
        } else {
            return token_step(
                (TokenType::SLASH, String::from_str("/")),
                single(c),
                i + 1,
                line,
                column,
            );
        }
    }
    if let Some(e) = find_punctuation(c) {
        return token_step(e, single(c), i + 1, line, column);
    }
    if let Some(e) = find_operator(c, doubled) {
        let next = if doubled {
            i + 2
        } else {
            i + 1
        };
        return token_step(e, single(c), next, line, column);
    }
    if c == ' ' || c == '\t' {
        plain_step(i + 1, line, column + 1)
    } else if c == '\n' || c == '\r' {
        plain_step(i + 1, line + 1, 0)
    } else if c == '"' {
        let end = skip_run(src, i + 1, Run::Quoted);
        let inside = slice_of(src, i + 1, end);
        let closed = end < src.len();
        Step {
            next: if closed {
                end + 1
            } else {
                end
            },
            line,
            column,
            token: Some(Token::new(TokenType::STRING, text_of(&inside), inside, line, column)),
            diagnostic: if closed {
                None
            } else {
                Some(Diagnostic { line, index: column, message: String::from_str("Unterminated string") })
            },
            exit: false,
        }
    } else if in_run(c, Run::Digits) {
        let end = skip_run(src, i + 1, Run::Digits);
        let digits = slice_of(src, i, end);
        token_step((TokenType::NUMBER, text_of(&digits)), digits, end, line, column)
    } else if in_run(c, Run::Letters) {
        let end = skip_run(src, i + 1, Run::Letters);
        let word = slice_of(src, i, end);
        if spells(&word, "exit") {
            Step { next: end, line, column, token: None, diagnostic: None, exit: true }
        } else if let Some(e) = find_keyword(&word) {
            token_step(e, word, end, line, column)
        } else {
            token_step((TokenType::IDENTIFIER, text_of(&word)), word, end, line, column)
        }
    } else {
        Step {
            next: i + 1,
            line,
            column,
            token: None,
            diagnostic: Some(
                Diagnostic { line, index: column, message: String::from_str("Unexpected token") },
            ),
            exit: false,
        }
    }
}

/// Scans `source` into tokens.
///
/// The result is the one that [`scanned`] describes. It always ends with the
/// end-of-input token, and holds no other.
pub fn scan(source: &str) -> (out: Scanned)
    ensures
        out@ == scanned(source@),
        out.tokens.len() > 0,
        out.tokens@.last().token_type == TokenType::EOF,
        forall|k: int|
            0 <= k < out.tokens.len() - 1 ==> (#[trigger] out.tokens@[k]).token_type
                != TokenType::EOF,
{
    let src = chars_of(source);
    scan_chars(&src)
}

/// Scans the characters `src` into tokens, as [`scan`] does a text.
pub fn scan_chars(src: &Vec<char>) -> (out: Scanned)
    ensures
        out@ == scanned(src@),
        out.tokens.len() > 0,
        out.tokens@.last().token_type == TokenType::EOF,
        forall|k: int|
            0 <= k < out.tokens.len() - 1 ==> (#[trigger] out.tokens@[k]).token_type
                != TokenType::EOF,
{
    let mut tokens: Vec<Token> = Vec::new();
    let mut diagnostics: Vec<Diagnostic> = Vec::new();
    let mut i: usize = 0;
    let mut line: usize = 0;
    let mut column: usize = 0;
    let mut exit = false;
    assert(token_views(tokens@) + scan_from(src@, 0, 0, 0).tokens =~= scan_from(
        src@,
        0,
        0,
        0,
    ).tokens);
    assert(diagnostic_views(diagnostics@) + scan_from(src@, 0, 0, 0).diagnostics =~= scan_from(
        src@,
        0,
        0,
        0,
    ).diagnostics);
    while i < src.len() && !exit
        invariant
            i <= src.len(),
            line <= i,
            column <= i,
            exit ==> i < src.len() && lex_one(src@, i as int, line as nat, column as nat).exit,
            scanned(src@).tokens == token_views(tokens@) + scan_from(
                src@,
                i as int,
                line as nat,
                column as nat,
            ).tokens,
            scanned(src@).diagnostics == diagnostic_views(diagnostics@) + scan_from(
                src@,
                i as int,
                line as nat,
                column as nat,
            ).diagnostics,
            scanned(src@).exit == scan_from(src@, i as int, line as nat, column as nat).exit,
            forall|k: int|
                0 <= k < tokens.len() ==> (#[trigger] tokens@[k]).token_type != TokenType::EOF,
        decreases
                src.len() - i + (if exit {
                    0int
                } else {
                    1int
                }),
    {
        let step = step_at(src, i, line, column);
        let ghost rest = scan_from(src@, step.next as int, step.line as nat, step.column as nat);
        let ghost before_tokens = token_views(tokens@);
        let ghost before_diagnostics = diagnostic_views(diagnostics@);
        proof {
            lemma_lex_one_kinds(src@, i as int, line as nat, column as nat);
        }
        if step.exit {
            exit = true;
        } else {
            if let Some(t) = step.token {
                tokens.push(t);
                assert(token_views(tokens@) =~= before_tokens.push(t@));
            }
            if let Some(d) = step.diagnostic {
                diagnostics.push(d);
                assert(diagnostic_views(diagnostics@) =~= before_diagnostics.push(d@));
            }
            assert(token_views(tokens@) + rest.tokens =~= before_tokens + (optional(
                step.lexed().token,
            ) + rest.tokens));
            assert(diagnostic_views(diagnostics@) + rest.diagnostics =~= before_diagnostics + (
            optional(step.lexed().diagnostic) + rest.diagnostics));
            i = step.next;
            line = step.line;
            column = step.column;
        }
    }
    let ghost before_tokens = token_views(tokens@);
    let end = Token::new(TokenType::EOF, String::new(), Vec::new(), line, column);
    proof {
        reveal_strlit("");
        assert(end@.lexeme =~= ""@);
        assert(end@.literal =~= Seq::empty());
        assert(end@ == end_token(line as nat, column as nat));
    }
    tokens.push(end);
    assert(token_views(tokens@) =~= before_tokens + seq![end_token(line as nat, column as nat)]);
    assert(diagnostic_views(diagnostics@) + Seq::empty() =~= diagnostic_views(diagnostics@));
    Scanned { tokens, diagnostics, exit }
}

} // verus!
