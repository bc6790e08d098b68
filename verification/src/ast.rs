//! The syntax tree and the parser that builds it from tokens.

use vstd::prelude::*;
use vstd::string::StringExecFns;
use crate::diagnostic::{complaint, diagnostic_views, report, Diagnostic, DiagnosticView};
use crate::text::chars_of;
use crate::token::{token_views, Token, TokenType, TokenView};

verus! {

/// What an expression is, as mathematics.
pub enum ExpressionView {
    Literal(TokenView),
    Unary(TokenView, Box<ExpressionView>),
    Binary(Box<ExpressionView>, TokenView, Box<ExpressionView>),
    Grouping(Box<ExpressionView>),
    Variable(TokenView),
}

/// An expression. Each node owns its children.
#[derive(Debug)]
pub enum Expression {
    Literal(Token),
    Unary(Token, Box<Expression>),
    Binary(Box<Expression>, Token, Box<Expression>),
    Grouping(Box<Expression>),
    Variable(Token),
}

impl View for Expression {
    type V = ExpressionView;

    open spec fn view(&self) -> ExpressionView
        decreases self,
    {
        match self {
            Expression::Literal(t) => ExpressionView::Literal(t@),
            Expression::Unary(op, operand) => ExpressionView::Unary(
                op@,
                Box::new((**operand).view()),
            ),
            Expression::Binary(left, op, right) => ExpressionView::Binary(
                Box::new((**left).view()),
                op@,
                Box::new((**right).view()),
            ),
            Expression::Grouping(inner) => ExpressionView::Grouping(Box::new((**inner).view())),
            Expression::Variable(t) => ExpressionView::Variable(t@),
        }
    }
}

impl Clone for Expression {
    fn clone(&self) -> (e: Self)
        ensures
            e@ == self@,
        decreases self,
    {
        match self {
            Expression::Literal(t) => Expression::Literal(t.clone()),
            Expression::Unary(op, operand) => Expression::Unary(
                op.clone(),
                Box::new((**operand).clone()),
            ),
            Expression::Binary(left, op, right) => Expression::Binary(
                Box::new((**left).clone()),
                op.clone(),
                Box::new((**right).clone()),
            ),
            Expression::Grouping(inner) => Expression::Grouping(Box::new((**inner).clone())),
            Expression::Variable(t) => Expression::Variable(t.clone()),
        }
    }
}

/// What a statement is, as mathematics.
pub enum StatementView {
    Expression(ExpressionView),
    Print(ExpressionView),
    Var(TokenView, ExpressionView),
}

/// A statement: an expression evaluated for nothing, one evaluated to be
/// printed, or a variable declared with its initializer.
#[derive(Debug)]
pub enum Statement {
    Expression(Expression),
    Print(Expression),
    Var(Token, Expression),
}

impl View for Statement {
    type V = StatementView;

    open spec fn view(&self) -> StatementView {
        match self {
            Statement::Expression(e) => StatementView::Expression(e@),
            Statement::Print(e) => StatementView::Print(e@),
            Statement::Var(t, e) => StatementView::Var(t@, e@),
        }
    }
}

impl Clone for Statement {
    fn clone(&self) -> (s: Self)
        ensures
            s@ == self@,
    {
        match self {
            Statement::Expression(e) => Statement::Expression(e.clone()),
            Statement::Print(e) => Statement::Print(e.clone()),
            Statement::Var(t, e) => Statement::Var(t.clone(), e.clone()),
        }
    }
}

/// The views of a sequence of statements, in order.
pub open spec fn statement_views(statements: Seq<Statement>) -> Seq<StatementView> {
    statements.map_values(|s: Statement| s@)
}

/// What a parser's state is, as mathematics.
pub struct StateView {
    pub tokens: Seq<TokenView>,
    pub current: int,
    pub diagnostics: Seq<DiagnosticView>,
}

impl StateView {
    /// The position is inside the tokens, and an end-of-input token stands
    /// at it or behind it.
    pub open spec fn well_formed(self) -> bool {
        &&& 0 <= self.current < self.tokens.len()
        &&& exists|k: int|
            self.current <= k < self.tokens.len() && (#[trigger] self.tokens[k]).token_type
                == TokenType::EOF
    }

    /// The token at the position.
    pub open spec fn peek(self) -> TokenView {
        self.tokens[self.current]
    }

    /// The token before the position.
    pub open spec fn previous(self) -> TokenView {
        self.tokens[self.current - 1]
    }

    /// Whether nothing is left to read: the position is on the end-of-input
    /// token, or on the last token there is.
    pub open spec fn at_end(self) -> bool {
        self.current + 1 >= self.tokens.len() || self.peek().token_type == TokenType::EOF
    }

    /// Whether a token of kind `kind` is next.
    pub open spec fn check(self, kind: TokenType) -> bool {
        !self.at_end() && self.peek().token_type == kind
    }

    /// The state one token on; at the end, the state itself.
    pub open spec fn advanced(self) -> StateView {
        if self.at_end() {
            self
        } else {
            StateView { current: self.current + 1, ..self }
        }
    }

    /// Whether the state can be stepped: a token is left to pass, or one was
    /// passed already.
    pub open spec fn can_advance(self) -> bool {
        self.current > 0 || !self.at_end()
    }

    /// The token that stepping the state passes: the one at the position,
    /// or at the end the one before it.
    pub open spec fn passed(self) -> TokenView {
        self.advanced().previous()
    }

    /// The state with one more diagnostic, raised at the token at the position.
    pub open spec fn complaining(self, message: Seq<char>) -> StateView {
        StateView {
            diagnostics: self.diagnostics.push(
                complaint(self.peek().line, self.peek().index, message),
            ),
            ..self
        }
    }

    /// How many tokens stand at the position and behind it.
    pub open spec fn remaining(self) -> nat {
        (self.tokens.len() - self.current) as nat
    }

    /// Whether this state comes from `before` by reading on: the same
    /// tokens, a position not before that one, and well-formed.
    pub open spec fn extends(self, before: StateView) -> bool {
        &&& self.tokens == before.tokens
        &&& before.current <= self.current
        &&& self.well_formed()
    }
}

/// Stepping keeps a state well-formed.
pub proof fn lemma_advanced(s: StateView)
    requires
        s.well_formed(),
    ensures
        s.advanced().extends(s),
        !s.at_end() ==> s.advanced().remaining() < s.remaining(),
{
    let k = choose|k: int|
        s.current <= k < s.tokens.len() && (#[trigger] s.tokens[k]).token_type == TokenType::EOF;
    if !s.at_end() {
        assert(k != s.current);
        assert(s.advanced().tokens[k].token_type == TokenType::EOF);
    }
}

/// The state of a parser: the tokens, the position of the next one to read,
/// and the diagnostics raised so far.
#[derive(Debug)]
pub struct State {
    pub tokens: Vec<Token>,
    pub current: usize,
    pub diagnostics: Vec<Diagnostic>,
}

impl View for State {
    type V = StateView;

    open spec fn view(&self) -> StateView {
        StateView {
            tokens: token_views(self.tokens@),
            current: self.current as int,
            diagnostics: diagnostic_views(self.diagnostics@),
        }
    }
}

/// Whether the next token is of one of `kinds`.
pub open spec fn matched(s: StateView, kinds: Seq<TokenType>) -> bool {
    !s.at_end() && kinds.contains(s.peek().token_type)
}

/// The state behind a token of one of `kinds`, if one is next; else the
/// state itself.
pub open spec fn after_match(s: StateView, kinds: Seq<TokenType>) -> StateView {
    if matched(s, kinds) {
        s.advanced()
    } else {
        s
    }
}

/// What demanding a token of kind `kind` yields. The state is stepped either
/// way, and the token that was passed is handed back; where it is of another
/// kind, that is recorded with the words `expected`.
pub open spec fn consumed(s: StateView, kind: TokenType, expected: Seq<char>) -> (
    TokenView,
    StateView,
) {
    if s.check(kind) {
        (s.passed(), s.advanced())
    } else {
        let t = s.complaining("expecting '"@ + expected + "'"@);
        (t.passed(), t.advanced())
    }
}

/// The state that reading went on to from `before`. Reading never goes back
/// (see [`lemma_expression_reads_on`]), so this is `after`; the other case
/// is there to make the definitions below well-founded.
pub open spec fn resume(before: StateView, after: StateView) -> StateView {
    if after.remaining() <= before.remaining() {
        after
    } else {
        before
    }
}

/// The levels of left-associative binary operators, loosest first.
#[derive(Debug, Clone, Copy, PartialEq, Eq, Structural)]
pub enum Level {
    Equality,
    Comparison,
    Term,
}

/// The operators of a level.
pub open spec fn operators(level: Level) -> Seq<TokenType> {
    match level {
        Level::Equality => seq![TokenType::BANG_EQUAL, TokenType::EQUAL_EQUAL],
        Level::Comparison => seq![
            TokenType::GREATER,
            TokenType::GREATER_EQUAL,
            TokenType::LESS,
            TokenType::LESS_EQUAL,
        ],
        Level::Term => seq![TokenType::MINUS, TokenType::PLUS],
    }
}

/// How loosely a level binds, as a number.
pub open spec fn rank(level: Level) -> nat {
    match level {
        Level::Equality => 8,
        Level::Comparison => 6,
        Level::Term => 4,
    }
}

/// The literal that stands in for an initializer that was left out.
pub open spec fn absent_initializer() -> TokenView {
    TokenView { token_type: TokenType::NIL, lexeme: "nil"@, literal: "nil"@, line: 0, index: 1 }
}

/// The literal that stands in where an expression was expected and none is.
pub open spec fn missing_expression(at: TokenView) -> TokenView {
    TokenView {
        token_type: TokenType::NIL,
        lexeme: Seq::empty(),
        literal: Seq::empty(),
        line: at.line,
        index: at.index,
    }
}

/// Whether a token of kind `kind` is a literal.
pub open spec fn is_literal(kind: TokenType) -> bool {
    kind == TokenType::FALSE || kind == TokenType::TRUE || kind == TokenType::NIL || kind
        == TokenType::NUMBER || kind == TokenType::STRING
}

/// `primary := NUMBER | STRING | "true" | "false" | "nil" | IDENTIFIER | "(" expression ")"`
///
/// Where none of these is next, that is recorded, nothing is read, and a
/// literal of the null value stands in.
pub open spec fn parsed_primary(s: StateView) -> (ExpressionView, StateView)
    decreases s.remaining(), 0nat,
{
    if !s.at_end() && is_literal(s.peek().token_type) {
        (ExpressionView::Literal(s.peek()), s.advanced())
    } else if s.check(TokenType::IDENTIFIER) {
        (ExpressionView::Variable(s.peek()), s.advanced())
    } else if s.check(TokenType::LEFT_PAREN) {
        let inner = parsed_expression(s.advanced());
        (
            ExpressionView::Grouping(Box::new(inner.0)),
            consumed(inner.1, TokenType::RIGHT_PAREN, ")"@).1,
        )
    } else {
        (
            ExpressionView::Literal(missing_expression(s.peek())),
            s.complaining("expected expression"@),
        )
    }
}

/// `unary := ("!" | "-") unary | primary`
pub open spec fn parsed_unary(s: StateView) -> (ExpressionView, StateView)
    decreases s.remaining(), 1nat,
{
    if matched(s, seq![TokenType::BANG, TokenType::MINUS]) {
        let operand = parsed_unary(s.advanced());
        (ExpressionView::Unary(s.peek(), Box::new(operand.0)), operand.1)
    } else {
        parsed_primary(s)
    }
}

/// `factor := unary (("/" | "*") unary)?`: one application, not a chain.
pub open spec fn parsed_factor(s: StateView) -> (ExpressionView, StateView)
    decreases s.remaining(), 2nat,
{
    let left = parsed_unary(s);
    let t = resume(s, left.1);
    if matched(t, seq![TokenType::SLASH, TokenType::STAR]) {
        let right = parsed_unary(t.advanced());
        (ExpressionView::Binary(Box::new(left.0), t.peek(), Box::new(right.0)), right.1)
    } else {
        (left.0, t)
    }
}

/// What stands on either side of an operator of `level`: an expression of
/// the next tighter level.
pub open spec fn parsed_operand(level: Level, s: StateView) -> (ExpressionView, StateView)
    decreases s.remaining(), (rank(level) - 1) as nat,
{
    match level {
        Level::Equality => parsed_level(Level::Comparison, s),
        Level::Comparison => parsed_level(Level::Term, s),
        Level::Term => parsed_factor(s),
    }
}

/// The operators of `level` and their right operands that follow `left`,
/// each taking all that was read before it as its left operand.
pub open spec fn parsed_rest(level: Level, left: ExpressionView, s: StateView) -> (
    ExpressionView,
    StateView,
)
    decreases s.remaining(), 0nat,
{
    if matched(s, operators(level)) {
        let right = parsed_operand(level, s.advanced());
        parsed_rest(
            level,
            ExpressionView::Binary(Box::new(left), s.peek(), Box::new(right.0)),
            resume(s.advanced(), right.1),
        )
    } else {
        (left, s)
    }
}

/// `level := operand (operator operand)*`, for each of
/// `equality`, `comparison` and `term`.
pub open spec fn parsed_level(level: Level, s: StateView) -> (ExpressionView, StateView)
    decreases s.remaining(), rank(level),
{
    let first = parsed_operand(level, s);
    parsed_rest(level, first.0, resume(s, first.1))
}

/// `expression := equality`
pub open spec fn parsed_expression(s: StateView) -> (ExpressionView, StateView)
    decreases s.remaining(), 9nat,
{
    parsed_level(Level::Equality, s)
}

/// `printStmt := "print" expression ";"`, from behind the `print`.
pub open spec fn parsed_print(s: StateView) -> (StatementView, StateView) {
    let value = parsed_expression(s);
    (StatementView::Print(value.0), consumed(value.1, TokenType::SEMICOLON, ";"@).1)
}

/// `exprStmt := expression ";"`
pub open spec fn parsed_expr_stmt(s: StateView) -> (StatementView, StateView) {
    let value = parsed_expression(s);
    (StatementView::Expression(value.0), consumed(value.1, TokenType::SEMICOLON, ";"@).1)
}

/// `statement := printStmt | exprStmt`
pub open spec fn parsed_statement(s: StateView) -> (StatementView, StateView) {
    if s.check(TokenType::PRINT) {
        parsed_print(s.advanced())
    } else {
        parsed_expr_stmt(s)
    }
}

/// `varDecl := "var" IDENTIFIER ("=" expression)? ";"`, from behind the `var`.
pub open spec fn parsed_var_declaration(s: StateView) -> (StatementView, StateView) {
    let name = consumed(s, TokenType::IDENTIFIER, "variable"@);
    let initializer = if name.1.check(TokenType::EQUAL) {
        parsed_expression(name.1.advanced())
    } else {
        (ExpressionView::Literal(absent_initializer()), name.1)
    };
    (
        StatementView::Var(name.0, initializer.0),
        consumed(initializer.1, TokenType::SEMICOLON, ";"@).1,
    )
}

/// `declaration := varDecl | statement`
pub open spec fn parsed_declaration(s: StateView) -> (StatementView, StateView) {
    if s.check(TokenType::VAR) {
        parsed_var_declaration(s.advanced())
    } else {
        parsed_statement(s)
    }
}

/// The declarations from the position up to the end of the input.
pub open spec fn parsed_program(s: StateView) -> (Seq<StatementView>, StateView)
    decreases s.remaining(),
{
    if s.at_end() {
        (Seq::empty(), s)
    } else {
        let first = parsed_declaration(s);
        if first.1.remaining() < s.remaining() {
            let rest = parsed_program(first.1);
            (seq![first.0] + rest.0, rest.1)
        } else {
            (seq![first.0], first.1)
        }
    }
}

/// Whether a token of kind `kind` opens a statement.
pub open spec fn boundary(kind: TokenType) -> bool {
    kind == TokenType::CLASS || kind == TokenType::FUN || kind == TokenType::VAR || kind
        == TokenType::FOR || kind == TokenType::IF || kind == TokenType::WHILE || kind
        == TokenType::PRINT || kind == TokenType::RETURN
}

/// The state at the first token, from the position on, that is a semicolon
/// or opens a statement; at the end where there is none.
pub open spec fn skipped(s: StateView) -> StateView
    decreases s.remaining(),
{
    if s.at_end() || s.check(TokenType::SEMICOLON) || boundary(s.peek().token_type) {
        s
    } else {
        skipped(s.advanced())
    }
}

/// The state that reads `tokens` from the start, with nothing recorded.
pub open spec fn start(tokens: Seq<TokenView>) -> StateView {
    StateView { tokens, current: 0, diagnostics: Seq::empty() }
}

/// Demanding a token reads on, and passes a token wherever one is left.
pub proof fn lemma_consumed_reads_on(s: StateView, kind: TokenType, expected: Seq<char>)
    requires
        s.well_formed(),
    ensures
        consumed(s, kind, expected).1.extends(s),
        !s.at_end() ==> consumed(s, kind, expected).1.remaining() < s.remaining(),
{
    lemma_advanced(s);
    lemma_advanced(s.complaining("expecting '"@ + expected + "'"@));
}

/// A primary expression is read forward: the parser never steps back.
pub proof fn lemma_primary_reads_on(s: StateView)
    requires
        s.well_formed(),
    ensures
        parsed_primary(s).1.extends(s),
    decreases s.remaining(), 0nat,
{
    lemma_advanced(s);
    if !s.at_end() && is_literal(s.peek().token_type) {
    } else if s.check(TokenType::IDENTIFIER) {
    } else if s.check(TokenType::LEFT_PAREN) {
        lemma_expression_reads_on(s.advanced());
        lemma_consumed_reads_on(parsed_expression(s.advanced()).1, TokenType::RIGHT_PAREN, ")"@);
    }
}

/// A unary expression is read forward.
pub proof fn lemma_unary_reads_on(s: StateView)
    requires
        s.well_formed(),
    ensures
        parsed_unary(s).1.extends(s),
    decreases s.remaining(), 1nat,
{
    lemma_advanced(s);
    if matched(s, seq![TokenType::BANG, TokenType::MINUS]) {
        lemma_unary_reads_on(s.advanced());
    } else {
        lemma_primary_reads_on(s);
    }
}

/// A factor is read forward.
pub proof fn lemma_factor_reads_on(s: StateView)
    requires
        s.well_formed(),
    ensures
        parsed_factor(s).1.extends(s),
    decreases s.remaining(), 2nat,
{
    lemma_unary_reads_on(s);
    let t = parsed_unary(s).1;
    lemma_advanced(t);
    if matched(t, seq![TokenType::SLASH, TokenType::STAR]) {
        lemma_unary_reads_on(t.advanced());
    }
}

/// An operand of a level is read forward.
pub proof fn lemma_operand_reads_on(level: Level, s: StateView)
    requires
        s.well_formed(),
    ensures
        parsed_operand(level, s).1.extends(s),
    decreases s.remaining(), (rank(level) - 1) as nat,
{
    match level {
        Level::Equality => lemma_level_reads_on(Level::Comparison, s),
        Level::Comparison => lemma_level_reads_on(Level::Term, s),
        Level::Term => lemma_factor_reads_on(s),
    }
}

/// The operators of a level and their right operands are read forward.
pub proof fn lemma_rest_reads_on(level: Level, left: ExpressionView, s: StateView)
    requires
        s.well_formed(),
    ensures
        parsed_rest(level, left, s).1.extends(s),
    decreases s.remaining(), 0nat,
{
    lemma_advanced(s);
    if matched(s, operators(level)) {
        lemma_operand_reads_on(level, s.advanced());
        let right = parsed_operand(level, s.advanced());
        lemma_rest_reads_on(
            level,
            ExpressionView::Binary(Box::new(left), s.peek(), Box::new(right.0)),
            right.1,
        );
    }
}

/// An expression of a level is read forward.
pub proof fn lemma_level_reads_on(level: Level, s: StateView)
    requires
        s.well_formed(),
    ensures
        parsed_level(level, s).1.extends(s),
    decreases s.remaining(), rank(level),
{
    lemma_operand_reads_on(level, s);
    let first = parsed_operand(level, s);
    lemma_rest_reads_on(level, first.0, first.1);
}

/// An expression is read forward.
pub proof fn lemma_expression_reads_on(s: StateView)
    requires
        s.well_formed(),
    ensures
        parsed_expression(s).1.extends(s),
    decreases s.remaining(), 9nat,
{
    lemma_level_reads_on(Level::Equality, s);
}

/// A declaration is read forward, and passes a token wherever one is left:
/// what does not fit is stepped over, never read twice.
pub proof fn lemma_declaration_reads_on(s: StateView)
    requires
        s.well_formed(),
    ensures
        parsed_declaration(s).1.extends(s),
        !s.at_end() ==> parsed_declaration(s).1.remaining() < s.remaining(),
{
    lemma_advanced(s);
    if s.check(TokenType::VAR) {
        let t = s.advanced();
        lemma_consumed_reads_on(t, TokenType::IDENTIFIER, "variable"@);
        let name = consumed(t, TokenType::IDENTIFIER, "variable"@);
        lemma_advanced(name.1);
        if name.1.check(TokenType::EQUAL) {
            lemma_expression_reads_on(name.1.advanced());
            lemma_consumed_reads_on(
                parsed_expression(name.1.advanced()).1,
                TokenType::SEMICOLON,
                ";"@,
            );
        } else {
            lemma_consumed_reads_on(name.1, TokenType::SEMICOLON, ";"@);
        }
    } else if s.check(TokenType::PRINT) {
        lemma_expression_reads_on(s.advanced());
        lemma_consumed_reads_on(parsed_expression(s.advanced()).1, TokenType::SEMICOLON, ";"@);
    } else {
        lemma_expression_reads_on(s);
        lemma_consumed_reads_on(parsed_expression(s).1, TokenType::SEMICOLON, ";"@);
    }
}

/// A parse covers the whole input: whatever the tokens hold, it ends on the
/// end of the input.
pub proof fn lemma_program_reads_to_the_end(s: StateView)
    requires
        s.well_formed(),
    ensures
        parsed_program(s).1.extends(s),
        parsed_program(s).1.at_end(),
    decreases s.remaining(),
{
    if !s.at_end() {
        lemma_declaration_reads_on(s);
        lemma_program_reads_to_the_end(parsed_declaration(s).1);
    }
}

/// What a parse yields: the statements, and the diagnostics in the order
/// they were raised.
#[derive(Debug)]
pub struct Parsed {
    pub statements: Vec<Statement>,
    pub diagnostics: Vec<Diagnostic>,
}

/// The token at the position.
pub fn peek(state: &State) -> (token: Token)
    requires
        state@.well_formed(),
    ensures
        token@ == state@.peek(),
{
    state.tokens[state.current].clone()
}

/// The token before the position.
pub fn previous(state: &State) -> (token: Token)
    requires
        state@.well_formed(),
        state.current > 0,
    ensures
        token@ == state@.previous(),
{
    state.tokens[state.current - 1].clone()
}

/// Whether nothing is left to read.
pub fn is_at_end(state: &State) -> (end: bool)
    requires
        state@.well_formed(),
    ensures
        end == state@.at_end(),
{
    state.tokens[state.current].token_type == TokenType::EOF
}

/// Whether a token of kind `token_type` is next.
pub fn check(state: &State, token_type: TokenType) -> (same: bool)
    requires
        state@.well_formed(),
    ensures
        same == state@.check(token_type),
{
    if is_at_end(state) {
        return false;
    }
    state.tokens[state.current].token_type == token_type
}

/// Steps over the next token, if one is left, and hands back the token
/// before the new position.
pub fn advance(state: &mut State) -> (token: Token)
    requires
        old(state)@.well_formed(),
        old(state)@.can_advance(),
    ensures
        final(state)@ == old(state)@.advanced(),
        final(state)@.extends(old(state)@),
        token@ == old(state)@.passed(),
{
    proof {
        lemma_advanced(state@);
    }
    if !is_at_end(state) {
        assert(state@.tokens.len() == state.tokens.len());
        state.current += 1;
    }
    previous(state)
}

/// Steps over the next token if it is of one of `types`, and says whether
/// it did.
pub fn _match(state: &mut State, types: Vec<TokenType>) -> (found: bool)
    requires
        old(state)@.well_formed(),
    ensures
        found == matched(old(state)@, types@),
        final(state)@ == after_match(old(state)@, types@),
        final(state)@.extends(old(state)@),
        found ==> final(state).current > 0 && final(state)@.previous() == old(state)@.peek()
            && final(state)@.remaining() < old(state)@.remaining(),
{
    proof {
        lemma_advanced(state@);
    }
    let mut i: usize = 0;
    while i < types.len()
        invariant
            i <= types.len(),
            *state == *old(state),
            state@.well_formed(),
            forall|k: int| 0 <= k < i ==> !state@.check(#[trigger] types@[k]),
        decreases types.len() - i,
    {
        if check(state, types[i]) {
            assert(types@.contains(types@[i as int]));
            advance(state);
            return true;
        }
        i += 1;
    }
    false
}

/// Records `message` at the token at the position.
fn complain(state: &mut State, message: String)
    requires
        old(state)@.well_formed(),
    ensures
        final(state)@ == old(state)@.complaining(message@),
        final(state)@.extends(old(state)@),
        final(state).current == old(state).current,
{
    let line = state.tokens[state.current].line;
    let index = state.tokens[state.current].index;
    report(&mut state.diagnostics, line, index, message);
}

/// Demands a token of kind `token_type`. Steps over the next token whatever
/// it is and hands it back; where it is of another kind, that is recorded
/// with the words `expected`.
pub fn consume(state: &mut State, token_type: TokenType, expected: &str) -> (token: Token)
    requires
        old(state)@.well_formed(),
        old(state)@.can_advance(),
    ensures
        (token@, final(state)@) == consumed(old(state)@, token_type, expected@),
        final(state)@.extends(old(state)@),
        !old(state)@.at_end() ==> final(state)@.remaining() < old(state)@.remaining(),
{
    proof {
        lemma_advanced(state@);
    }
    if check(state, token_type) {
        advance(state)
    } else {
        let mut message = String::from_str("expecting '");
        message.append(expected);
        message.append("'");
        complain(state, message);
        proof {
            lemma_advanced(state@);
        }
        advance(state)
    }
}

/// Skips to where a statement may start: steps over one token, and then over
/// every token up to a semicolon, a keyword that opens a statement, or the end.
pub fn synchronize(state: &mut State)
    requires
        old(state)@.well_formed(),
        old(state)@.can_advance(),
    ensures
        final(state)@ == skipped(old(state)@.advanced()),
        final(state)@.extends(old(state)@),
{
    advance(state);
    while !is_at_end(state) && !check(state, TokenType::SEMICOLON) && !opens_statement(
        state.tokens[state.current].token_type,
    )
        invariant
            state@.extends(old(state)@),
            state.current > 0,
            skipped(old(state)@.advanced()) == skipped(state@),
        decreases state@.remaining(),
    {
        proof {
            lemma_advanced(state@);
        }
        advance(state);
    }
}

/// Whether a token of kind `kind` opens a statement.
fn opens_statement(kind: TokenType) -> (opens: bool)
    ensures
        opens == boundary(kind),
{
    match kind {
        TokenType::CLASS
        | TokenType::FUN
        | TokenType::VAR
        | TokenType::FOR
        | TokenType::IF
        | TokenType::WHILE
        | TokenType::PRINT
        | TokenType::RETURN => true,
        _ => false,
    }
}

/// The operators of a level.
fn operators_of(level: Level) -> (kinds: Vec<TokenType>)
    ensures
        kinds@ == operators(level),
{
    let kinds = match level {
        Level::Equality => vec![TokenType::BANG_EQUAL, TokenType::EQUAL_EQUAL],
        Level::Comparison => vec![
            TokenType::GREATER,
            TokenType::GREATER_EQUAL,
            TokenType::LESS,
            TokenType::LESS_EQUAL,
        ],
        Level::Term => vec![TokenType::MINUS, TokenType::PLUS],
    };
    assert(kinds@ =~= operators(level));
    kinds
}

/// The two kinds, as a list.
fn one_of(a: TokenType, b: TokenType) -> (kinds: Vec<TokenType>)
    ensures
        kinds@ == seq![a, b],
{
    let kinds = vec![a, b];
    assert(kinds@ =~= seq![a, b]);
    kinds
}

/// Whether a token of kind `kind` is a literal.
fn is_literal_kind(kind: TokenType) -> (b: bool)
    ensures
        b == is_literal(kind),
{
    match kind {
        TokenType::FALSE
        | TokenType::TRUE
        | TokenType::NIL
        | TokenType::NUMBER
        | TokenType::STRING => true,
        _ => false,
    }
}

/// Parses a primary expression.
pub fn primary(state: &mut State) -> (e: Expression)
    requires
        old(state)@.well_formed(),
    ensures
        (e@, final(state)@) == parsed_primary(old(state)@),
        final(state)@.extends(old(state)@),
    decreases old(state)@.remaining(), 0nat,
{
    proof {
        lemma_advanced(state@);
    }
    if !is_at_end(state) && is_literal_kind(state.tokens[state.current].token_type) {
        return Expression::Literal(advance(state));
    }
    if check(state, TokenType::IDENTIFIER) {
        return Expression::Variable(advance(state));
    }
    if check(state, TokenType::LEFT_PAREN) {
        advance(state);
        let inner = expression(state);
        consume(state, TokenType::RIGHT_PAREN, ")");
        return Expression::Grouping(Box::new(inner));
    }
    let line = state.tokens[state.current].line;
    let index = state.tokens[state.current].index;
    complain(state, String::from_str("expected expression"));
    let stand_in = Token::new(TokenType::NIL, String::new(), Vec::new(), line, index);
    assert(stand_in@ == missing_expression(old(state)@.peek()));
    Expression::Literal(stand_in)
}

/// Parses a unary expression.
pub fn unary(state: &mut State) -> (e: Expression)
    requires
        old(state)@.well_formed(),
    ensures
        (e@, final(state)@) == parsed_unary(old(state)@),
        final(state)@.extends(old(state)@),
    decreases old(state)@.remaining(), 1nat,
{
    if _match(state, one_of(TokenType::BANG, TokenType::MINUS)) {
        let operator = previous(state);
        let right = unary(state);
        return Expression::Unary(operator, Box::new(right));
    }
    primary(state)
}

/// Parses a factor.
pub fn factor(state: &mut State) -> (e: Expression)
    requires
        old(state)@.well_formed(),
    ensures
        (e@, final(state)@) == parsed_factor(old(state)@),
        final(state)@.extends(old(state)@),
    decreases old(state)@.remaining(), 2nat,
{
    let mut expr = unary(state);
    if _match(state, one_of(TokenType::SLASH, TokenType::STAR)) {
        let operator = previous(state);
        let right = unary(state);
        expr = Expression::Binary(Box::new(expr), operator, Box::new(right));
    }
    expr
}

/// Parses what stands on either side of an operator of `level`.
fn operand(state: &mut State, level: Level) -> (e: Expression)
    requires
        old(state)@.well_formed(),
    ensures
        (e@, final(state)@) == parsed_operand(level, old(state)@),
        final(state)@.extends(old(state)@),
    decreases old(state)@.remaining(), (rank(level) - 1) as nat,
{
    match level {
        Level::Equality => chain(state, Level::Comparison),
        Level::Comparison => chain(state, Level::Term),
        Level::Term => factor(state),
    }
}

/// Parses an expression of `level`: an operand, and the operators and
/// operands that follow it.
fn chain(state: &mut State, level: Level) -> (e: Expression)
    requires
        old(state)@.well_formed(),
    ensures
        (e@, final(state)@) == parsed_level(level, old(state)@),
        final(state)@.extends(old(state)@),
    decreases old(state)@.remaining(), rank(level),
{
    let mut expr = operand(state, level);
    let ghost mut at = state@;
    let mut more = _match(state, operators_of(level));
    while more
        invariant
            at.extends(old(state)@),
            state@.extends(at),
            more == matched(at, operators(level)),
            state@ == after_match(at, operators(level)),
            more ==> state.current > 0 && state@.previous() == at.peek() && state@.remaining()
                < at.remaining(),
            parsed_level(level, old(state)@) == parsed_rest(level, expr@, at),
        decreases at.remaining(),
    {
        let operator = previous(state);
        let right = operand(state, level);
        expr = Expression::Binary(Box::new(expr), operator, Box::new(right));
        proof {
            at = state@;
        }
        more = _match(state, operators_of(level));
    }
    expr
}

/// Parses an equality.
pub fn equality(state: &mut State) -> (e: Expression)
    requires
        old(state)@.well_formed(),
    ensures
        (e@, final(state)@) == parsed_level(Level::Equality, old(state)@),
        final(state)@.extends(old(state)@),
{
    chain(state, Level::Equality)
}

/// Parses a comparison.
pub fn comparison(state: &mut State) -> (e: Expression)
    requires
        old(state)@.well_formed(),
    ensures
        (e@, final(state)@) == parsed_level(Level::Comparison, old(state)@),
        final(state)@.extends(old(state)@),
{
    chain(state, Level::Comparison)
}

/// Parses a term.
pub fn term(state: &mut State) -> (e: Expression)
    requires
        old(state)@.well_formed(),
    ensures
        (e@, final(state)@) == parsed_level(Level::Term, old(state)@),
        final(state)@.extends(old(state)@),
{
    chain(state, Level::Term)
}

/// Parses an expression.
pub fn expression(state: &mut State) -> (e: Expression)
    requires
        old(state)@.well_formed(),
    ensures
        (e@, final(state)@) == parsed_expression(old(state)@),
        final(state)@.extends(old(state)@),
    decreases old(state)@.remaining(), 9nat,
{
    chain(state, Level::Equality)
}

/// Parses a print statement, from behind its `print`.
pub fn print_stmt(state: &mut State) -> (s: Statement)
    requires
        old(state)@.well_formed(),
        old(state)@.can_advance(),
    ensures
        (s@, final(state)@) == parsed_print(old(state)@),
        final(state)@.extends(old(state)@),
        !old(state)@.at_end() ==> final(state)@.remaining() < old(state)@.remaining(),
{
    let value = expression(state);
    consume(state, TokenType::SEMICOLON, ";");
    Statement::Print(value)
}

/// Parses an expression statement.
pub fn expr_stmt(state: &mut State) -> (s: Statement)
    requires
        old(state)@.well_formed(),
        old(state)@.can_advance(),
    ensures
        (s@, final(state)@) == parsed_expr_stmt(old(state)@),
        final(state)@.extends(old(state)@),
        !old(state)@.at_end() ==> final(state)@.remaining() < old(state)@.remaining(),
{
    let expr = expression(state);
    consume(state, TokenType::SEMICOLON, ";");
    Statement::Expression(expr)
}

/// Parses a statement.
pub fn statement(state: &mut State) -> (s: Statement)
    requires
        old(state)@.well_formed(),
        old(state)@.can_advance(),
    ensures
        (s@, final(state)@) == parsed_statement(old(state)@),
        final(state)@.extends(old(state)@),
        !old(state)@.at_end() ==> final(state)@.remaining() < old(state)@.remaining(),
{
    proof {
        lemma_advanced(state@);
    }
    if check(state, TokenType::PRINT) {
        advance(state);
        return print_stmt(state);
    }
    expr_stmt(state)
}

/// Parses a variable declaration, from behind its `var`.
pub fn var_declaration(state: &mut State) -> (s: Statement)
    requires
        old(state)@.well_formed(),
        old(state)@.can_advance(),
    ensures
        (s@, final(state)@) == parsed_var_declaration(old(state)@),
        final(state)@.extends(old(state)@),
        !old(state)@.at_end() ==> final(state)@.remaining() < old(state)@.remaining(),
{
    let name = consume(state, TokenType::IDENTIFIER, "variable");
    proof {
        lemma_advanced(state@);
    }
    let initializer;
    if check(state, TokenType::EQUAL) {
        advance(state);
        initializer = expression(state);
    } else {
        let stand_in = Token::new(
            TokenType::NIL,
            String::from_str("nil"),
            chars_of("nil"),
            0,
            1,
        );
        assert(stand_in@ == absent_initializer());
        initializer = Expression::Literal(stand_in);
    }
    consume(state, TokenType::SEMICOLON, ";");
    Statement::Var(name, initializer)
}

/// Parses a declaration.
pub fn declaration(state: &mut State) -> (s: Statement)
    requires
        old(state)@.well_formed(),
        old(state)@.can_advance(),
    ensures
        (s@, final(state)@) == parsed_declaration(old(state)@),
        final(state)@.extends(old(state)@),
        !old(state)@.at_end() ==> final(state)@.remaining() < old(state)@.remaining(),
{
    proof {
        lemma_advanced(state@);
    }
    if check(state, TokenType::VAR) {
        advance(state);
        return var_declaration(state);
    }
    statement(state)
}

/// Parses `tokens` into statements.
///
/// A parse never fails: what does not fit the grammar is recorded, a
/// placeholder stands in, and the parse goes on to the end of the input.
/// The tokens must hold an end-of-input token.
pub fn parse(tokens: Vec<Token>) -> (out: Parsed)
    requires
        start(token_views(tokens@)).well_formed(),
    ensures
        statement_views(out.statements@) == parsed_program(start(token_views(tokens@))).0,
        diagnostic_views(out.diagnostics@) == parsed_program(
            start(token_views(tokens@)),
        ).1.diagnostics,
{
    let ghost begin = start(token_views(tokens@));
    let mut state = State { tokens, current: 0, diagnostics: Vec::new() };
    assert(state@.diagnostics =~= Seq::empty());
    let mut statements: Vec<Statement> = Vec::new();
    assert(statement_views(statements@) + parsed_program(state@).0 =~= parsed_program(begin).0);
    while !is_at_end(&state)
        invariant
            state@.well_formed(),
            statement_views(statements@) + parsed_program(state@).0 == parsed_program(begin).0,
            parsed_program(state@).1 == parsed_program(begin).1,
        decreases state@.remaining(),
    {
        let ghost before = statement_views(statements@);
        let s = declaration(&mut state);
        statements.push(s);
        assert(statement_views(statements@) =~= before.push(s@));
        assert(statement_views(statements@) + parsed_program(state@).0 =~= before + (seq![s@]
            + parsed_program(state@).0));
    }
    assert(statement_views(statements@) + Seq::empty() =~= statement_views(statements@));
    Parsed { statements, diagnostics: state.diagnostics }
}

/// The token under which a print statement is shown.
pub open spec fn print_marker() -> TokenView {
    TokenView {
        token_type: TokenType::PRINT,
        lexeme: "print"@,
        literal: "print"@,
        line: 0,
        index: 1,
    }
}

/// The token under which a declaration is shown.
pub open spec fn declaration_marker() -> TokenView {
    TokenView { token_type: TokenType::VAR, lexeme: "="@, literal: "="@, line: 0, index: 1 }
}

/// The text of an expression: prefix form, each operator in brackets of
/// its own colour, each leaf followed by a blank.
pub open spec fn rendered(e: ExpressionView) -> Seq<char>
    decreases e,
{
    match e {
        ExpressionView::Binary(left, op, right) => "\x1b[1;34m( \x1b[0m"@ + op.lexeme + " "@
            + rendered(*left) + rendered(*right) + "\x1b[1;34m)\x1b[0m "@,
        ExpressionView::Grouping(inner) => " \x1b[1;35m( \x1b[0m"@ + rendered(*inner)
            + "\x1b[1;35m)\x1b[0m "@,
        ExpressionView::Literal(value) => value.lexeme + " "@,
        ExpressionView::Unary(op, operand) => " \x1b[1;33m( \x1b[0m"@ + op.lexeme + " "@
            + rendered(*operand) + "\x1b[1;33m)\x1b[0m "@,
        ExpressionView::Variable(name) => name.lexeme + " "@,
    }
}

/// The expression as which a statement is shown: a print statement as
/// `print` applied to its expression, a declaration as `=` between the name
/// and the initializer.
pub open spec fn shown_as(s: StatementView) -> ExpressionView {
    match s {
        StatementView::Print(e) => ExpressionView::Unary(print_marker(), Box::new(e)),
        StatementView::Expression(e) => e,
        StatementView::Var(name, e) => ExpressionView::Binary(
            Box::new(ExpressionView::Variable(name)),
            declaration_marker(),
            Box::new(e),
        ),
    }
}

/// The text of a program: the texts of its statements, one after another.
pub open spec fn rendered_program(program: Seq<StatementView>) -> Seq<char>
    decreases program.len(),
{
    if program.len() == 0 {
        Seq::empty()
    } else {
        rendered_program(program.drop_last()) + rendered(shown_as(program.last()))
    }
}

/// Two renderings of one tree are the same text: the text depends on
/// nothing but the tree.
pub proof fn lemma_rendering_repeats(first: Seq<StatementView>, second: Seq<StatementView>)
    requires
        first == second,
    ensures
        rendered_program(first) == rendered_program(second),
{
}

/// Appends the text of `expr` to `out`.
pub fn _print(expr: &Expression, out: &mut String)
    ensures
        final(out)@ == old(out)@ + rendered(expr@),
    decreases expr,
{
    let ghost before = out@;
    match expr {
        Expression::Binary(left, op, right) => {
            out.append("\x1b[1;34m( \x1b[0m");
            out.append(op.lexeme.as_str());
            out.append(" ");
            _print(&**left, out);
            _print(&**right, out);
            out.append("\x1b[1;34m)\x1b[0m ");
            assert(out@ =~= before + rendered(expr@));
        },
        Expression::Grouping(inner) => {
            out.append(" \x1b[1;35m( \x1b[0m");
            _print(&**inner, out);
            out.append("\x1b[1;35m)\x1b[0m ");
            assert(out@ =~= before + rendered(expr@));
        },
        Expression::Literal(value) => {
            out.append(value.lexeme.as_str());
            out.append(" ");
            assert(out@ =~= before + rendered(expr@));
        },
        Expression::Unary(op, operand) => {
            out.append(" \x1b[1;33m( \x1b[0m");
            out.append(op.lexeme.as_str());
            out.append(" ");
            _print(&**operand, out);
            out.append("\x1b[1;33m)\x1b[0m ");
            assert(out@ =~= before + rendered(expr@));
        },
        Expression::Variable(name) => {
            out.append(name.lexeme.as_str());
            out.append(" ");
            assert(out@ =~= before + rendered(expr@));
        },
    }
}

/// The text of `statements`, for showing a parse to a person.
pub fn print(statements: &Vec<Statement>) -> (text: String)
    ensures
        text@ == rendered_program(statement_views(statements@)),
{
    let mut text = String::new();
    let ghost program = statement_views(statements@);
    let mut i: usize = 0;
    assert(text@ =~= rendered_program(program.take(0)));
    while i < statements.len()
        invariant
            i <= statements.len(),
            program == statement_views(statements@),
            text@ == rendered_program(program.take(i as int)),
        decreases statements.len() - i,
    {
        assert(program.take(i + 1).drop_last() =~= program.take(i as int));
        assert(program.take(i + 1).last() == statements@[i as int]@);
        match &statements[i] {
            Statement::Print(e) => {
                let marker = Token::new(
                    TokenType::PRINT,
                    String::from_str("print"),
                    chars_of("print"),
                    0,
                    1,
                );
                assert(marker@ == print_marker());
                let shown = Expression::Unary(marker, Box::new(e.clone()));
                assert(shown@ == shown_as(statements@[i as int]@));
                _print(&shown, &mut text);
            },
            Statement::Expression(e) => {
                _print(e, &mut text);
            },
            Statement::Var(name, e) => {
                let marker = Token::new(
                    TokenType::VAR,
                    String::from_str("="),
                    chars_of("="),
                    0,
                    1,
                );
                assert(marker@ == declaration_marker());
                let target = Expression::Variable(name.clone());
                assert(target@ == ExpressionView::Variable(name@));
                let shown = Expression::Binary(
                    Box::new(target),
                    marker,
                    Box::new(e.clone()),
                );
                assert(shown@ == shown_as(statements@[i as int]@));
                _print(&shown, &mut text);
            },
        }
        i += 1;
    }
    assert(program.take(statements.len() as int) =~= program);
    text
}

} // verus!
