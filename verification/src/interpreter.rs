//! The evaluator: expressions to values, statements to effects.
//!
//! Nothing here fails. An operator that does not fit its operands, a token
//! that is no literal and a name that nothing defines each leave one
//! diagnostic and a placeholder value, and evaluation goes on.

use vstd::prelude::*;
use vstd::string::StringExecFns;
use crate::ast::{statement_views, Expression, ExpressionView, Statement, StatementView};
use crate::diagnostic::{complaint, diagnostic_views, report, Diagnostic, DiagnosticView};
use crate::environment::{
    variable_value, Arithmetic, Environment, Number, NumberView, Relation, Truth, TruthView,
    Value, ValueView,
};
use crate::token::{Token, TokenType, TokenView};

verus! {

/// A value, and the diagnostics that getting it raised.
pub type Outcome = (ValueView, Seq<DiagnosticView>);

/// A value that was got without complaint.
pub open spec fn plain(value: ValueView) -> Outcome {
    (value, Seq::empty())
}

/// The placeholder `sentinel`, with the one complaint `message` raised at `at`.
pub open spec fn failed(at: TokenView, message: Seq<char>, sentinel: ValueView) -> Outcome {
    (sentinel, seq![complaint(at.line, at.index, message)])
}

/// The arithmetic that an operator token of kind `kind` asks for.
pub open spec fn arithmetic_of(kind: TokenType) -> Option<Arithmetic> {
    match kind {
        TokenType::PLUS => Some(Arithmetic::Add),
        TokenType::MINUS => Some(Arithmetic::Subtract),
        TokenType::STAR => Some(Arithmetic::Multiply),
        TokenType::SLASH => Some(Arithmetic::Divide),
        _ => None,
    }
}

/// The comparison that an operator token of kind `kind` asks for.
pub open spec fn relation_of(kind: TokenType) -> Option<Relation> {
    match kind {
        TokenType::GREATER => Some(Relation::Greater),
        TokenType::GREATER_EQUAL => Some(Relation::GreaterEqual),
        TokenType::LESS => Some(Relation::Less),
        TokenType::LESS_EQUAL => Some(Relation::LessEqual),
        TokenType::BANG_EQUAL => Some(Relation::NotEqual),
        TokenType::EQUAL_EQUAL => Some(Relation::Equal),
        _ => None,
    }
}

/// The value of a literal token: by its kind a string, a number, a truth
/// value or the null value. A token of any other kind is no literal.
pub open spec fn literal_value(token: TokenView) -> Outcome {
    match token.token_type {
        TokenType::STRING => plain(ValueView::String(token.lexeme)),
        TokenType::NUMBER => plain(ValueView::Number(NumberView::Literal(token.lexeme))),
        TokenType::TRUE => plain(ValueView::Boolean(TruthView::Constant(true))),
        TokenType::FALSE => plain(ValueView::Boolean(TruthView::Constant(false))),
        TokenType::NIL => plain(ValueView::Null),
        _ => failed(token, "invalid literal"@, ValueView::Null),
    }
}

/// The negation of a truth value: of a known one the other, known too.
pub open spec fn negation(truth: TruthView) -> TruthView {
    match truth {
        TruthView::Constant(b) => TruthView::Constant(!b),
        other => TruthView::Not(Box::new(other)),
    }
}

/// The value of `op` applied to `operand`: `-` negates a number and `!` a
/// truth value; nothing else fits.
pub open spec fn unary_value(op: TokenView, operand: ValueView) -> Outcome {
    match operand {
        ValueView::Number(n) => if op.token_type == TokenType::MINUS {
            plain(ValueView::Number(NumberView::Negated(Box::new(n))))
        } else {
            failed(op, "invalid operator"@, ValueView::Null)
        },
        ValueView::Boolean(t) => if op.token_type == TokenType::BANG {
            plain(ValueView::Boolean(negation(t)))
        } else {
            failed(op, "invalid operator"@, ValueView::Null)
        },
        _ => failed(op, "invalid operands"@, ValueView::Null),
    }
}

/// The value of `op` between `left` and `right`. Two numbers take the four
/// arithmetic operators and the six comparisons; two strings take `+`, which
/// joins them; no other pair takes anything.
pub open spec fn binary_value(left: ValueView, op: TokenView, right: ValueView) -> Outcome {
    match (left, right) {
        (ValueView::Number(a), ValueView::Number(b)) => match arithmetic_of(op.token_type) {
            Some(arithmetic) => plain(
                ValueView::Number(NumberView::Combined(Box::new(a), arithmetic, Box::new(b))),
            ),
            None => match relation_of(op.token_type) {
                Some(relation) => plain(
                    ValueView::Boolean(TruthView::Compared(Box::new(a), relation, Box::new(b))),
                ),
                None => failed(op, "invalid operator"@, ValueView::Null),
            },
        },
        (ValueView::String(a), ValueView::String(b)) => if op.token_type == TokenType::PLUS {
            plain(ValueView::String(a + b))
        } else {
            failed(op, "invalid operator"@, ValueView::String(Seq::empty()))
        },
        _ => failed(op, "invalid operands"@, ValueView::Null),
    }
}

/// The value of an expression under a store, with the diagnostics in the
/// order they are raised: an operator's operands come before the operator
/// itself, the left operand before the right.
pub open spec fn evaluated(e: ExpressionView, store: Map<Seq<char>, ValueView>) -> Outcome
    decreases e,
{
    match e {
        ExpressionView::Literal(token) => literal_value(token),
        ExpressionView::Variable(token) => variable_value(token, store),
        ExpressionView::Grouping(inner) => evaluated(*inner, store),
        ExpressionView::Unary(op, operand) => {
            let x = evaluated(*operand, store);
            let r = unary_value(op, x.0);
            (r.0, x.1 + r.1)
        },
        ExpressionView::Binary(left, op, right) => {
            let a = evaluated(*left, store);
            let b = evaluated(*right, store);
            let r = binary_value(a.0, op, b.0);
            (r.0, a.1 + b.1 + r.1)
        },
    }
}

/// What executing a program does that can be seen from outside.
pub enum EffectView {
    /// A diagnostic was raised.
    Report(DiagnosticView),
    /// A value was printed.
    Print(ValueView),
}

/// One thing that executing a program does that can be seen from outside.
#[derive(Debug)]
pub enum Effect {
    /// A diagnostic was raised.
    Report(Diagnostic),
    /// A value was printed.
    Print(Value),
}

impl View for Effect {
    type V = EffectView;

    open spec fn view(&self) -> EffectView {
        match self {
            Effect::Report(d) => EffectView::Report(d@),
            Effect::Print(v) => EffectView::Print(v@),
        }
    }
}

/// The views of a sequence of effects, in order.
pub open spec fn effect_views(effects: Seq<Effect>) -> Seq<EffectView> {
    effects.map_values(|e: Effect| e@)
}

/// The diagnostics as effects, in order.
pub open spec fn reports(diagnostics: Seq<DiagnosticView>) -> Seq<EffectView> {
    diagnostics.map_values(|d: DiagnosticView| EffectView::Report(d))
}

/// The effects of one statement under a store: the diagnostics of its
/// expression, and behind them the printed value where it prints.
pub open spec fn statement_effects(s: StatementView, store: Map<Seq<char>, ValueView>) -> Seq<
    EffectView,
> {
    match s {
        StatementView::Expression(e) => reports(evaluated(e, store).1),
        StatementView::Print(e) => reports(evaluated(e, store).1).push(
            EffectView::Print(evaluated(e, store).0),
        ),
        StatementView::Var(name, e) => reports(evaluated(e, store).1),
    }
}

/// The store that one statement leaves: a declaration binds its name to the
/// value of its initializer, over what the name was bound to before.
pub open spec fn statement_store(s: StatementView, store: Map<Seq<char>, ValueView>) -> Map<
    Seq<char>,
    ValueView,
> {
    match s {
        StatementView::Var(name, e) => store.insert(name.lexeme, evaluated(e, store).0),
        _ => store,
    }
}

/// The effects of a program and the store it leaves: statement by
/// statement, each under the store that those before it left.
pub open spec fn executed(program: Seq<StatementView>, store: Map<Seq<char>, ValueView>) -> (
    Seq<EffectView>,
    Map<Seq<char>, ValueView>,
)
    decreases program.len(),
{
    if program.len() == 0 {
        (Seq::empty(), store)
    } else {
        let before = executed(program.drop_last(), store);
        (
            before.0 + statement_effects(program.last(), before.1),
            statement_store(program.last(), before.1),
        )
    }
}

/// Records `message` at the token `at` and hands back `sentinel`.
fn complain(sink: &mut Vec<Diagnostic>, at: &Token, message: &str, sentinel: Value) -> (value:
    Value)
    ensures
        value@ == failed(at@, message@, sentinel@).0,
        diagnostic_views(final(sink)@) == diagnostic_views(old(sink)@) + failed(
            at@,
            message@,
            sentinel@,
        ).1,
{
    let ghost before = diagnostic_views(sink@);
    report(sink, at.line, at.index, String::from_str(message));
    assert(diagnostic_views(sink@) =~= before + failed(at@, message@, sentinel@).1);
    sentinel
}

/// The value of a literal token.
pub fn literal(token: &Token, sink: &mut Vec<Diagnostic>) -> (value: Value)
    ensures
        value@ == literal_value(token@).0,
        diagnostic_views(final(sink)@) == diagnostic_views(old(sink)@) + literal_value(token@).1,
{
    assert(diagnostic_views(sink@) + Seq::empty() =~= diagnostic_views(sink@));
    match token.token_type {
        TokenType::STRING => Value::String(token.lexeme.clone()),
        TokenType::NUMBER => Value::Number(Number::Literal(token.lexeme.clone())),
        TokenType::TRUE => Value::Boolean(Truth::Constant(true)),
        TokenType::FALSE => Value::Boolean(Truth::Constant(false)),
        TokenType::NIL => Value::Null,
        _ => complain(sink, token, "invalid literal", Value::Null),
    }
}

/// Applies the operator `op` to `operand`.
pub fn apply_unary(op: &Token, operand: Value, sink: &mut Vec<Diagnostic>) -> (value: Value)
    ensures
        value@ == unary_value(op@, operand@).0,
        diagnostic_views(final(sink)@) == diagnostic_views(old(sink)@) + unary_value(
            op@,
            operand@,
        ).1,
{
    assert(diagnostic_views(sink@) + Seq::empty() =~= diagnostic_views(sink@));
    match operand {
        Value::Number(n) => match op.token_type {
            TokenType::MINUS => Value::Number(Number::Negated(Box::new(n))),
            _ => complain(sink, op, "invalid operator", Value::Null),
        },
        Value::Boolean(t) => match op.token_type {
            TokenType::BANG => match t {
                Truth::Constant(b) => Value::Boolean(Truth::Constant(!b)),
                other => Value::Boolean(Truth::Not(Box::new(other))),
            },
            _ => complain(sink, op, "invalid operator", Value::Null),
        },
        _ => complain(sink, op, "invalid operands", Value::Null),
    }
}

/// The arithmetic that an operator token of kind `kind` asks for.
fn arithmetic_for(kind: TokenType) -> (found: Option<Arithmetic>)
    ensures
        found == arithmetic_of(kind),
{
    match kind {
        TokenType::PLUS => Some(Arithmetic::Add),
        TokenType::MINUS => Some(Arithmetic::Subtract),
        TokenType::STAR => Some(Arithmetic::Multiply),
        TokenType::SLASH => Some(Arithmetic::Divide),
        _ => None,
    }
}

/// The comparison that an operator token of kind `kind` asks for.
fn relation_for(kind: TokenType) -> (found: Option<Relation>)
    ensures
        found == relation_of(kind),
{
    match kind {
        TokenType::GREATER => Some(Relation::Greater),
        TokenType::GREATER_EQUAL => Some(Relation::GreaterEqual),
        TokenType::LESS => Some(Relation::Less),
        TokenType::LESS_EQUAL => Some(Relation::LessEqual),
        TokenType::BANG_EQUAL => Some(Relation::NotEqual),
        TokenType::EQUAL_EQUAL => Some(Relation::Equal),
        _ => None,
    }
}

/// Applies the operator `op` to `left` and `right`.
pub fn apply_binary(left: Value, op: &Token, right: Value, sink: &mut Vec<Diagnostic>) -> (value:
    Value)
    ensures
        value@ == binary_value(left@, op@, right@).0,
        diagnostic_views(final(sink)@) == diagnostic_views(old(sink)@) + binary_value(
            left@,
            op@,
            right@,
        ).1,
{
    assert(diagnostic_views(sink@) + Seq::empty() =~= diagnostic_views(sink@));
    match (left, right) {
        (Value::Number(a), Value::Number(b)) => {
            if let Some(arithmetic) = arithmetic_for(op.token_type) {
                Value::Number(Number::Combined(Box::new(a), arithmetic, Box::new(b)))
            } else if let Some(relation) = relation_for(op.token_type) {
                Value::Boolean(Truth::Compared(Box::new(a), relation, Box::new(b)))
            } else {
                complain(sink, op, "invalid operator", Value::Null)
            }
        },
        (Value::String(a), Value::String(b)) => match op.token_type {
            TokenType::PLUS => Value::String(a.concat(b.as_str())),
            _ => complain(sink, op, "invalid operator", Value::String(String::new())),
        },
        _ => complain(sink, op, "invalid operands", Value::Null),
    }
}

/// Evaluates `expr` under `env`, and appends to `sink` the diagnostics that
/// this raises.
pub fn evaluate(expr: &Expression, env: &Environment, sink: &mut Vec<Diagnostic>) -> (value:
    Value)
    requires
        env.wf(),
    ensures
        value@ == evaluated(expr@, env@).0,
        diagnostic_views(final(sink)@) == diagnostic_views(old(sink)@) + evaluated(
            expr@,
            env@,
        ).1,
    decreases expr,
{
    let ghost before = diagnostic_views(sink@);
    match expr {
        Expression::Literal(token) => literal(token, sink),
        Expression::Variable(token) => env.get(token, sink),
        Expression::Grouping(inner) => evaluate(&**inner, env, sink),
        Expression::Unary(op, operand) => {
            let x = evaluate(&**operand, env, sink);
            let value = apply_unary(op, x, sink);
            proof {
                let x = evaluated((**operand)@, env@);
                let r = unary_value(op@, x.0);
                assert(before + x.1 + r.1 =~= before + (x.1 + r.1));
            }
            value
        },
        Expression::Binary(left, op, right) => {
            let a = evaluate(&**left, env, sink);
            let b = evaluate(&**right, env, sink);
            let value = apply_binary(a, op, b, sink);
            proof {
                let a = evaluated((**left)@, env@);
                let b = evaluated((**right)@, env@);
                let r = binary_value(a.0, op@, b.0);
                assert(before + a.1 + b.1 + r.1 =~= before + (a.1 + b.1 + r.1));
            }
            value
        },
    }
}

/// Appends the diagnostics `found` to `effects`, in order.
pub(crate) fn note(effects: &mut Vec<Effect>, found: &Vec<Diagnostic>)
    ensures
        effect_views(final(effects)@) == effect_views(old(effects)@) + reports(
            diagnostic_views(found@),
        ),
{
    let ghost before = effect_views(effects@);
    let mut i: usize = 0;
    assert(effect_views(effects@) =~= before + reports(diagnostic_views(found@.take(0))));
    while i < found.len()
        invariant
            i <= found.len(),
            effect_views(effects@) == before + reports(diagnostic_views(found@.take(i as int))),
        decreases found.len() - i,
    {
        let ghost was = effect_views(effects@);
        let d = found[i].clone();
        effects.push(Effect::Report(d));
        assert(effect_views(effects@) =~= was.push(EffectView::Report(d@)));
        assert(reports(diagnostic_views(found@.take(i + 1))) =~= reports(
            diagnostic_views(found@.take(i as int)),
        ).push(EffectView::Report(found@[i as int]@)));
        i += 1;
    }
    assert(found@.take(found.len() as int) =~= found@);
}

/// Executes one statement.
fn run(statement: &Statement, env: &mut Environment, effects: &mut Vec<Effect>)
    requires
        old(env).wf(),
    ensures
        final(env).wf(),
        final(env)@ == statement_store(statement@, old(env)@),
        effect_views(final(effects)@) == effect_views(old(effects)@) + statement_effects(
            statement@,
            old(env)@,
        ),
{
    let mut sink: Vec<Diagnostic> = Vec::new();
    assert(diagnostic_views(sink@) =~= Seq::empty());
    let ghost before = effect_views(effects@);
    match statement {
        Statement::Expression(e) => {
            let _ = evaluate(e, env, &mut sink);
            assert(diagnostic_views(sink@) =~= evaluated(e@, env@).1);
            note(effects, &sink);
        },
        Statement::Print(e) => {
            let value = evaluate(e, env, &mut sink);
            assert(diagnostic_views(sink@) =~= evaluated(e@, env@).1);
            note(effects, &sink);
            let ghost was = effect_views(effects@);
            effects.push(Effect::Print(value));
            assert(effect_views(effects@) =~= was.push(EffectView::Print(value@)));
            assert(effect_views(effects@) =~= before + statement_effects(statement@, env@));
        },
        Statement::Var(name, e) => {
            let value = evaluate(e, env, &mut sink);
            assert(diagnostic_views(sink@) =~= evaluated(e@, env@).1);
            note(effects, &sink);
            env.define(name.lexeme.clone(), value);
        },
    }
}

/// Executes `statements` in order under `env`, which keeps what they
/// declare, and returns what they print and the diagnostics they raise, in
/// the order in which that happens.
pub fn execute(statements: &Vec<Statement>, env: &mut Environment) -> (effects: Vec<Effect>)
    requires
        old(env).wf(),
    ensures
        final(env).wf(),
        effect_views(effects@) == executed(statement_views(statements@), old(env)@).0,
        final(env)@ == executed(statement_views(statements@), old(env)@).1,
{
    let mut effects: Vec<Effect> = Vec::new();
    let ghost program = statement_views(statements@);
    let ghost start = env@;
    let mut i: usize = 0;
    assert(effect_views(effects@) =~= executed(program.take(0), start).0);
    while i < statements.len()
        invariant
            i <= statements.len(),
            program == statement_views(statements@),
            env.wf(),
            effect_views(effects@) == executed(program.take(i as int), start).0,
            env@ == executed(program.take(i as int), start).1,
        decreases statements.len() - i,
    {
        assert(program.take(i + 1).drop_last() =~= program.take(i as int));
        assert(program.take(i + 1).last() == statements@[i as int]@);
        run(&statements[i], env, &mut effects);
        i += 1;
    }
    assert(program.take(statements.len() as int) =~= program);
    effects
}

/// Between two string literals `+` yields the two texts joined, in that
/// order and with nothing raised; any other operator yields the empty string
/// and the one diagnostic that the operator is invalid.
pub proof fn lemma_string_literals(
    left: TokenView,
    op: TokenView,
    right: TokenView,
    store: Map<Seq<char>, ValueView>,
)
    requires
        left.token_type == TokenType::STRING,
        right.token_type == TokenType::STRING,
    ensures
        evaluated(
            ExpressionView::Binary(
                Box::new(ExpressionView::Literal(left)),
                op,
                Box::new(ExpressionView::Literal(right)),
            ),
            store,
        ) == (if op.token_type == TokenType::PLUS {
            plain(ValueView::String(left.lexeme + right.lexeme))
        } else {
            failed(op, "invalid operator"@, ValueView::String(Seq::empty()))
        }),
{
    reveal_with_fuel(evaluated, 2);
    let whole = evaluated(
        ExpressionView::Binary(
            Box::new(ExpressionView::Literal(left)),
            op,
            Box::new(ExpressionView::Literal(right)),
        ),
        store,
    );
    let r = binary_value(ValueView::String(left.lexeme), op, ValueView::String(right.lexeme));
    assert(whole.1 =~= r.1);
}

/// Between two number literals each of `+ - * /` yields the number that
/// this operation gives of the two, the left one first, with nothing
/// raised: a zero divisor is no error.
pub proof fn lemma_number_literals(
    left: TokenView,
    op: TokenView,
    right: TokenView,
    store: Map<Seq<char>, ValueView>,
)
    requires
        left.token_type == TokenType::NUMBER,
        right.token_type == TokenType::NUMBER,
        arithmetic_of(op.token_type) is Some,
    ensures
        evaluated(
            ExpressionView::Binary(
                Box::new(ExpressionView::Literal(left)),
                op,
                Box::new(ExpressionView::Literal(right)),
            ),
            store,
        ) == plain(
            ValueView::Number(
                NumberView::Combined(
                    Box::new(NumberView::Literal(left.lexeme)),
                    arithmetic_of(op.token_type)->0,
                    Box::new(NumberView::Literal(right.lexeme)),
                ),
            ),
        ),
{
    reveal_with_fuel(evaluated, 2);
    let whole = evaluated(
        ExpressionView::Binary(
            Box::new(ExpressionView::Literal(left)),
            op,
            Box::new(ExpressionView::Literal(right)),
        ),
        store,
    );
    assert(whole.1 =~= Seq::<DiagnosticView>::empty());
}

/// A variable that nothing defines evaluates to the null value, and raises
/// exactly one diagnostic, which names it.
pub proof fn lemma_undefined_variable(name: TokenView, store: Map<Seq<char>, ValueView>)
    requires
        !store.contains_key(name.lexeme),
    ensures
        evaluated(ExpressionView::Variable(name), store) == (
            ValueView::Null,
            seq![
                complaint(
                    name.line,
                    name.index,
                    "undefined variable '"@ + name.lexeme + "'"@,
                ),
            ],
        ),
{
}

/// Whatever a statement raised, those behind it are executed: a program in
/// two parts does what the first part does and then what the second does
/// under the store that the first left.
pub proof fn lemma_execution_goes_on(
    first: Seq<StatementView>,
    second: Seq<StatementView>,
    store: Map<Seq<char>, ValueView>,
)
    ensures
        executed(first + second, store).0 == executed(first, store).0 + executed(
            second,
            executed(first, store).1,
        ).0,
        executed(first + second, store).1 == executed(second, executed(first, store).1).1,
    decreases second.len(),
{
    if second.len() == 0 {
        assert(first + second =~= first);
        assert(executed(first, store).0 + Seq::<EffectView>::empty() =~= executed(
            first,
            store,
        ).0);
    } else {
        lemma_execution_goes_on(first, second.drop_last(), store);
        assert((first + second).drop_last() =~= first + second.drop_last());
        assert((first + second).last() == second.last());
        let middle = executed(first, store).1;
        let before = executed(second.drop_last(), middle);
        assert(executed(first, store).0 + before.0 + statement_effects(second.last(), before.1)
            =~= executed(first, store).0 + (before.0 + statement_effects(
            second.last(),
            before.1,
        )));
    }
}

} // verus!
