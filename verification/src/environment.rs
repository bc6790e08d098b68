//! Runtime values and the one flat store of variables.
//!
//! A number is kept as the arithmetic that gives it: the literals it starts
//! from and the operations laid over them. Which double that is, and hence
//! what a comparison of two numbers yields, is for the host's arithmetic to
//! say. Everything the interpreter decides depends on the kind of a value
//! alone, never on a number's magnitude.

use vstd::prelude::*;
use vstd::string::StringExecFns;
use crate::diagnostic::{complaint, diagnostic_views, report, Diagnostic, DiagnosticView};
use crate::token::{Token, TokenView};

verus! {

/// The four operations on two numbers that give a number.
#[derive(Debug, Clone, Copy, PartialEq, Eq, Structural)]
pub enum Arithmetic {
    Add,
    Subtract,
    Multiply,
    Divide,
}

/// The six comparisons of two numbers.
#[derive(Debug, Clone, Copy, PartialEq, Eq, Structural)]
pub enum Relation {
    Greater,
    GreaterEqual,
    Less,
    LessEqual,
    NotEqual,
    Equal,
}

/// What a number is, as mathematics.
pub enum NumberView {
    Literal(Seq<char>),
    Negated(Box<NumberView>),
    Combined(Box<NumberView>, Arithmetic, Box<NumberView>),
}

/// A number: the text of a literal, read as a double; the negation of a
/// number; or two numbers under an operation, the left one first.
#[derive(Debug)]
pub enum Number {
    Literal(String),
    Negated(Box<Number>),
    Combined(Box<Number>, Arithmetic, Box<Number>),
}

impl View for Number {
    type V = NumberView;

    open spec fn view(&self) -> NumberView
        decreases self,
    {
        match self {
            Number::Literal(text) => NumberView::Literal(text@),
            Number::Negated(inner) => NumberView::Negated(Box::new((**inner).view())),
            Number::Combined(left, op, right) => NumberView::Combined(
                Box::new((**left).view()),
                *op,
                Box::new((**right).view()),
            ),
        }
    }
}

impl Clone for Number {
    fn clone(&self) -> (n: Self)
        ensures
            n@ == self@,
        decreases self,
    {
        match self {
            Number::Literal(text) => Number::Literal(text.clone()),
            Number::Negated(inner) => Number::Negated(Box::new((**inner).clone())),
            Number::Combined(left, op, right) => Number::Combined(
                Box::new((**left).clone()),
                *op,
                Box::new((**right).clone()),
            ),
        }
    }
}

/// What a truth value is, as mathematics.
pub enum TruthView {
    Constant(bool),
    Not(Box<TruthView>),
    Compared(Box<NumberView>, Relation, Box<NumberView>),
}

/// A truth value: one that is known, the negation of one, or the comparison
/// of two numbers.
#[derive(Debug)]
pub enum Truth {
    Constant(bool),
    Not(Box<Truth>),
    Compared(Box<Number>, Relation, Box<Number>),
}

impl View for Truth {
    type V = TruthView;

    open spec fn view(&self) -> TruthView
        decreases self,
    {
        match self {
            Truth::Constant(b) => TruthView::Constant(*b),
            Truth::Not(inner) => TruthView::Not(Box::new((**inner).view())),
            Truth::Compared(left, relation, right) => TruthView::Compared(
                Box::new((**left).view()),
                *relation,
                Box::new((**right).view()),
            ),
        }
    }
}

impl Clone for Truth {
    fn clone(&self) -> (t: Self)
        ensures
            t@ == self@,
        decreases self,
    {
        match self {
            Truth::Constant(b) => Truth::Constant(*b),
            Truth::Not(inner) => Truth::Not(Box::new((**inner).clone())),
            Truth::Compared(left, relation, right) => Truth::Compared(
                Box::new((**left).clone()),
                *relation,
                Box::new((**right).clone()),
            ),
        }
    }
}

/// What a value is, as mathematics.
pub enum ValueView {
    Number(NumberView),
    String(Seq<char>),
    Boolean(TruthView),
    Null,
}

/// A runtime value.
#[derive(Debug)]
pub enum Value {
    Number(Number),
    String(String),
    Boolean(Truth),
    Null,
}

impl View for Value {
    type V = ValueView;

    open spec fn view(&self) -> ValueView {
        match self {
            Value::Number(n) => ValueView::Number(n@),
            Value::String(s) => ValueView::String(s@),
            Value::Boolean(t) => ValueView::Boolean(t@),
            Value::Null => ValueView::Null,
        }
    }
}

impl Clone for Value {
    fn clone(&self) -> (v: Self)
        ensures
            v@ == self@,
    {
        match self {
            Value::Number(n) => Value::Number(n.clone()),
            Value::String(s) => Value::String(s.clone()),
            Value::Boolean(t) => Value::Boolean(t.clone()),
            Value::Null => Value::Null,
        }
    }
}

/// The message for a name that nothing defines.
pub open spec fn undefined_message(name: Seq<char>) -> Seq<char> {
    "undefined variable '"@ + name + "'"@
}

/// What reading the variable that `token` names yields: its value, or the
/// null value and one diagnostic that names it where nothing defines it.
pub open spec fn variable_value(token: TokenView, store: Map<Seq<char>, ValueView>) -> (
    ValueView,
    Seq<DiagnosticView>,
) {
    if store.contains_key(token.lexeme) {
        (store[token.lexeme], Seq::empty())
    } else {
        (
            ValueView::Null,
            seq![complaint(token.line, token.index, undefined_message(token.lexeme))],
        )
    }
}

/// The store of variables: one flat mapping from names to values.
///
/// It holds each name once. There is one level only: nothing shadows and
/// nothing nests.
pub struct Environment {
    names: Vec<String>,
    values: Vec<Value>,
}

impl Environment {
    /// The position that holds `name`, where one does.
    pub closed spec fn holds(&self, name: Seq<char>, at: int) -> bool {
        0 <= at < self.names.len() && self.names@[at]@ == name
    }

    /// Every name has a value and stands once.
    pub closed spec fn wf(&self) -> bool {
        &&& self.names.len() == self.values.len()
        &&& forall|i: int, j: int|
            0 <= i < j < self.names.len() ==> self.names@[i]@ != self.names@[j]@
    }

    /// The position that holds `name`, if one does.
    fn find(&self, name: &String) -> (at: Option<usize>)
        requires
            self.wf(),
        ensures
            match at {
                Some(i) => self.holds(name@, i as int),
                None => forall|i: int| !self.holds(name@, i),
            },
    {
        let mut i: usize = 0;
        while i < self.names.len()
            invariant
                i <= self.names.len(),
                forall|k: int| 0 <= k < i ==> self.names@[k]@ != name@,
            decreases self.names.len() - i,
        {
            if self.names[i] == *name {
                return Some(i);
            }
            i += 1;
        }
        None
    }

    /// A store that defines nothing.
    pub fn new() -> (env: Environment)
        ensures
            env.wf(),
            env@ == Map::<Seq<char>, ValueView>::empty(),
    {
        let env = Environment { names: Vec::new(), values: Vec::new() };
        assert(env@ =~= Map::<Seq<char>, ValueView>::empty());
        env
    }

    /// Binds `name` to `value`. A binding of that name that was there is
    /// replaced; every other stays.
    pub fn define(&mut self, name: String, value: Value)
        requires
            old(self).wf(),
        ensures
            final(self).wf(),
            final(self)@ == old(self)@.insert(name@, value@),
    {
        let ghost before = *self;
        match self.find(&name) {
            Some(i) => {
                self.values.set(i, value);
                proof {
                    assert forall|k: Seq<char>|
                        self@.contains_key(k) == before@.insert(name@, value@).contains_key(
                            k,
                        ) by {
                        if before.holds(k, before.position(k)) {
                            assert(self.holds(k, before.position(k)));
                        }
                        if self.holds(k, self.position(k)) {
                            assert(before.holds(k, self.position(k)));
                        }
                        assert(before.holds(name@, i as int));
                    }
                    assert forall|k: Seq<char>| self@.contains_key(k) implies self@[k]
                        == before@.insert(name@, value@)[k] by {
                        let p = self.position(k);
                        assert(self.holds(k, p));
                        assert(before.holds(k, p));
                        let q = before.position(k);
                        assert(before.holds(k, q));
                        assert(p == q);
                    }
                    assert(self@ =~= before@.insert(name@, value@));
                }
            },
            None => {
                let ghost n = self.names.len() as int;
                self.names.push(name);
                self.values.push(value);
                proof {
                    assert forall|i: int, j: int| 0 <= i < j < self.names.len() implies self.names@[i]@
                        != self.names@[j]@ by {
                        if j == n {
                            assert(!before.holds(name@, i));
                        }
                    }
                    assert(self.wf());
                    assert(self.holds(name@, n));
                    assert forall|k: Seq<char>|
                        self@.contains_key(k) == before@.insert(name@, value@).contains_key(
                            k,
                        ) by {
                        if before.holds(k, before.position(k)) {
                            assert(self.holds(k, before.position(k)));
                        }
                        if self.holds(k, self.position(k)) && k != name@ {
                            assert(before.holds(k, self.position(k)));
                        }
                    }
                    assert forall|k: Seq<char>| self@.contains_key(k) implies self@[k]
                        == before@.insert(name@, value@)[k] by {
                        let p = self.position(k);
                        assert(self.holds(k, p));
                        if k == name@ {
                            assert(p == n);
                        } else {
                            assert(before.holds(k, p));
                            let q = before.position(k);
                            assert(before.holds(k, q));
                            assert(self.holds(k, q));
                            assert(p == q);
                        }
                    }
                    assert(self@ =~= before@.insert(name@, value@));
                }
            },
        }
    }

    /// Reads the variable that `token` names. Where nothing defines it, the
    /// result is the null value and `sink` gets one diagnostic that names it.
    pub fn get(&self, token: &Token, sink: &mut Vec<Diagnostic>) -> (value: Value)
        requires
            self.wf(),
        ensures
            value@ == variable_value(token@, self@).0,
            diagnostic_views(final(sink)@) == diagnostic_views(old(sink)@) + variable_value(
                token@,
                self@,
            ).1,
    {
        match self.find(&token.lexeme) {
            Some(i) => {
                proof {
                    let p = self.position(token@.lexeme);
                    assert(self.holds(token@.lexeme, i as int));
                    assert(self.holds(token@.lexeme, p));
                    assert(p == i);
                    assert(diagnostic_views(sink@) + Seq::empty() =~= diagnostic_views(sink@));
                }
                self.values[i].clone()
            },
            None => {
                let mut message = String::from_str("undefined variable '");
                message.append(token.lexeme.as_str());
                message.append("'");
                let ghost before = diagnostic_views(sink@);
                report(sink, token.line, token.index, message);
                proof {
                    assert(!self@.contains_key(token@.lexeme)) by {
                        if self@.contains_key(token@.lexeme) {
                            assert(self.holds(token@.lexeme, self.position(token@.lexeme)));
                        }
                    }
                    assert(diagnostic_views(sink@) =~= before + variable_value(token@, self@).1);
                }
                Value::Null
            },
        }
    }

    /// Some position that holds `name`, where one does.
    pub closed spec fn position(&self, name: Seq<char>) -> int {
        choose|at: int| self.holds(name, at)
    }
}

impl View for Environment {
    type V = Map<Seq<char>, ValueView>;

    closed spec fn view(&self) -> Map<Seq<char>, ValueView> {
        Map::new(
            |name: Seq<char>| self.holds(name, self.position(name)),
            |name: Seq<char>| self.values@[self.position(name)]@,
        )
    }
}

} // verus!
