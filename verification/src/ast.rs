//! The runtime value model: a closed tagged union over lists, tokens,
//! integers, booleans, strings, functions, errors and mutable-cell handles.
//!
//! Every value has a mathematical image ([`SpecVal`]) used by all contracts.
//! Functions are data: either a named built-in operation or a user closure
//! (parameter tokens, an unevaluated body, and the identifier of the scope
//! the closure was defined in).  Mutable cells are identifiers into the
//! cell store owned by [`crate::env::Scope`].
use vstd::prelude::*;

use crate::tokenizer::{SpecTok, Token, TokenType};

verus! {

/// Wrapper around a lexical token pending resolution.
#[derive(Debug)]
pub struct Unit {
    pub token: Token,
}

impl View for Unit {
    type V = SpecTok;

    open spec fn view(&self) -> SpecTok {
        self.token@
    }
}

impl Unit {
    pub fn new(token: Token) -> (r: Unit)
        ensures
            r@ == token@,
    {
        Unit { token }
    }

    pub fn token(&self) -> (r: &Token)
        ensures
            r@ == self@,
    {
        &self.token
    }
}

/// The built-in operations bound in the root scope.
#[derive(Debug, Clone, Copy, Eq, PartialEq, Structural)]
pub enum Builtin {
    Add,
    Sub,
    Mul,
    Div,
    Do,
    Let,
    If,
    Lambda,
    Def,
    Equals,
    Greater,
    Less,
    GreaterEquals,
    LessEquals,
    Slurp,
    MakeList,
    Eval,
    StrJoin,
    ReadString,
    Prn,
    Quote,
    AtomNew,
    AtomCheck,
    Deref,
    Reset,
    Swap,
    MacroBind,
    Cons,
    Concat,
}

/// A user-defined function: parameter name tokens, the unevaluated body,
/// and the scope the lambda was created in (lexical capture).
#[derive(Debug)]
pub struct Closure {
    pub params: Vec<Token>,
    pub body: Box<LispValue>,
    pub env: usize,
}

/// A callable value: built-in operation or user closure.
#[derive(Debug)]
pub enum FnVal {
    Builtin(Builtin),
    Closure(Closure),
}

/// A runtime value.
#[derive(Debug)]
pub enum LispValue {
    List(List),
    Unit(Unit),
    Int(i64),
    Boolean(bool),
    Nil,
    Str(String),
    Function(FnVal),
    Macro(FnVal),
    Error(String),
    Atom(usize),
}

/// A sequence of values; the first element of a non-empty program form
/// determines special-form or call semantics.
#[derive(Debug)]
pub struct List {
    pub items: Vec<LispValue>,
}

/// Mathematical image of a user closure.
#[verifier::ext_equal]
pub struct SpecClosure {
    pub params: Seq<SpecTok>,
    pub body: Box<SpecVal>,
    pub env: int,
}

/// Mathematical image of a callable value.
#[verifier::ext_equal]
pub enum SpecFn {
    Builtin(Builtin),
    Closure(SpecClosure),
}

/// Mathematical image of a runtime value.
#[verifier::ext_equal]
pub enum SpecVal {
    List(Seq<SpecVal>),
    Unit(SpecTok),
    Int(int),
    Boolean(bool),
    Nil,
    Str(Seq<char>),
    Function(SpecFn),
    Macro(SpecFn),
    Error(Seq<char>),
    Atom(int),
}

pub open spec fn view_of(v: LispValue) -> SpecVal
    decreases v,
{
    match v {
        LispValue::List(l) => SpecVal::List(views_of(l.items@)),
        LispValue::Unit(u) => SpecVal::Unit(u@),
        LispValue::Int(i) => SpecVal::Int(i as int),
        LispValue::Boolean(b) => SpecVal::Boolean(b),
        LispValue::Nil => SpecVal::Nil,
        LispValue::Str(s) => SpecVal::Str(s@),
        LispValue::Function(f) => SpecVal::Function(fn_view_of(f)),
        LispValue::Macro(f) => SpecVal::Macro(fn_view_of(f)),
        LispValue::Error(m) => SpecVal::Error(m@),
        LispValue::Atom(i) => SpecVal::Atom(i as int),
    }
}

pub open spec fn views_of(s: Seq<LispValue>) -> Seq<SpecVal>
    decreases s,
{
    if s.len() == 0 {
        Seq::empty()
    } else {
        views_of(s.drop_last()).push(view_of(s.last()))
    }
}

/// Mathematical image of a closure.
pub open spec fn closure_view(c: Closure) -> SpecClosure
    decreases c,
{
    SpecClosure {
        params: Seq::new(c.params@.len(), |i: int| c.params@[i]@),
        body: Box::new(view_of(*c.body)),
        env: c.env as int,
    }
}

pub open spec fn fn_view_of(f: FnVal) -> SpecFn
    decreases f,
{
    match f {
        FnVal::Builtin(b) => SpecFn::Builtin(b),
        FnVal::Closure(c) => SpecFn::Closure(closure_view(c)),
    }
}

impl View for LispValue {
    type V = SpecVal;

    open spec fn view(&self) -> SpecVal {
        view_of(*self)
    }
}

impl View for List {
    type V = Seq<SpecVal>;

    open spec fn view(&self) -> Seq<SpecVal> {
        views_of(self.items@)
    }
}

impl View for FnVal {
    type V = SpecFn;

    open spec fn view(&self) -> SpecFn {
        fn_view_of(*self)
    }
}

/// Appending one value to a sequence appends its image.
pub proof fn lemma_views_of_push(s: Seq<LispValue>, v: LispValue)
    ensures
        views_of(s.push(v)) == views_of(s).push(view_of(v)),
{
    assert(s.push(v).drop_last() =~= s);
    assert(s.push(v).last() == v);
    assert(views_of(s.push(v)) =~= views_of(s).push(view_of(v)));
}

/// `views_of` is the element-wise image of the sequence.
pub proof fn lemma_views_of(s: Seq<LispValue>)
    ensures
        views_of(s).len() == s.len(),
        forall|i: int| 0 <= i < s.len() ==> views_of(s)[i] == view_of(s[i]),
    decreases s,
{
    if s.len() > 0 {
        lemma_views_of(s.drop_last());
    }
}

impl List {
    pub fn new() -> (r: Self)
        ensures
            r@ == Seq::<SpecVal>::empty(),
    {
        let r = List { items: Vec::new() };
        proof {
            lemma_views_of(r.items@);
        }
        r
    }

    pub fn from_vec(items: Vec<LispValue>) -> (r: Self)
        ensures
            r@ == views_of(items@),
    {
        List { items }
    }

    /// The token of the first element, when that element is a token wrapper.
    pub fn first_token(&self) -> (r: Option<&Token>)
        ensures
            match r {
                Some(t) => self@.len() > 0 && self@[0] == SpecVal::Unit(t@),
                None => self@.len() == 0 || !(self@[0] is Unit),
            },
    {
        proof {
            lemma_views_of(self.items@);
        }
        if self.items.len() == 0 {
            None
        } else {
            match &self.items[0] {
                LispValue::Unit(u) => Some(u.token()),
                _ => None,
            }
        }
    }

    pub fn items(&self) -> (r: &Vec<LispValue>)
        ensures
            r@ == self.items@,
            views_of(r@) == self@,
    {
        &self.items
    }

    pub fn len(&self) -> (r: usize)
        ensures
            r == self@.len(),
    {
        proof {
            lemma_views_of(self.items@);
        }
        self.items.len()
    }

    pub fn push(&mut self, val: LispValue)
        ensures
            final(self)@ == old(self)@.push(val@),
    {
        proof {
            lemma_views_of(self.items@);
        }
        self.items.push(val);
        proof {
            lemma_views_of(self.items@);
            assert(final(self)@ =~= old(self)@.push(val@));
        }
    }

    /// Borrow the element at `i`.
    pub fn get(&self, i: usize) -> (r: &LispValue)
        requires
            i < self@.len(),
        ensures
            r@ == self@[i as int],
    {
        proof {
            lemma_views_of(self.items@);
        }
        &self.items[i]
    }
}

/// Values well-formed with respect to a store that has `ne` scopes and
/// `na` cells: every cell handle and every captured scope is in bounds.
pub open spec fn wf_val(v: SpecVal, ne: int, na: int) -> bool
    decreases v,
{
    match v {
        SpecVal::List(items) => wf_vals(items, ne, na),
        SpecVal::Function(f) => wf_fn(f, ne, na),
        SpecVal::Macro(f) => wf_fn(f, ne, na),
        SpecVal::Atom(i) => 0 <= i < na,
        _ => true,
    }
}

pub open spec fn wf_vals(s: Seq<SpecVal>, ne: int, na: int) -> bool
    decreases s,
{
    if s.len() == 0 {
        true
    } else {
        wf_vals(s.drop_last(), ne, na) && wf_val(s.last(), ne, na)
    }
}

pub open spec fn wf_fn(f: SpecFn, ne: int, na: int) -> bool
    decreases f,
{
    match f {
        SpecFn::Builtin(_) => true,
        SpecFn::Closure(c) => 0 <= c.env < ne && wf_val(*c.body, ne, na),
    }
}

/// Element-wise reading of `wf_vals`.
pub proof fn lemma_wf_vals(s: Seq<SpecVal>, ne: int, na: int)
    ensures
        wf_vals(s, ne, na) <==> (forall|i: int| 0 <= i < s.len() ==> wf_val(#[trigger] s[i], ne, na)),
    decreases s,
{
    if s.len() > 0 {
        lemma_wf_vals(s.drop_last(), ne, na);
        assert(forall|i: int| 0 <= i < s.len() - 1 ==> s.drop_last()[i] == s[i]);
        assert(s.last() == s[s.len() - 1]);
    }
}

/// Well-formedness only depends on the store lengths monotonically:
/// growing the store keeps every value well-formed.
pub proof fn lemma_wf_val_grow(v: SpecVal, ne: int, na: int, ne2: int, na2: int)
    requires
        wf_val(v, ne, na),
        ne <= ne2,
        na <= na2,
    ensures
        wf_val(v, ne2, na2),
    decreases v,
{
    match v {
        SpecVal::List(items) => {
            lemma_wf_vals_grow(items, ne, na, ne2, na2);
        },
        SpecVal::Function(f) => {
            lemma_wf_fn_grow(f, ne, na, ne2, na2);
        },
        SpecVal::Macro(f) => {
            lemma_wf_fn_grow(f, ne, na, ne2, na2);
        },
        _ => {},
    }
}

pub proof fn lemma_wf_vals_grow(s: Seq<SpecVal>, ne: int, na: int, ne2: int, na2: int)
    requires
        wf_vals(s, ne, na),
        ne <= ne2,
        na <= na2,
    ensures
        wf_vals(s, ne2, na2),
    decreases s,
{
    if s.len() > 0 {
        lemma_wf_vals_grow(s.drop_last(), ne, na, ne2, na2);
        lemma_wf_val_grow(s.last(), ne, na, ne2, na2);
    }
}

pub proof fn lemma_wf_fn_grow(f: SpecFn, ne: int, na: int, ne2: int, na2: int)
    requires
        wf_fn(f, ne, na),
        ne <= ne2,
        na <= na2,
    ensures
        wf_fn(f, ne2, na2),
    decreases f,
{
    match f {
        SpecFn::Closure(c) => {
            lemma_wf_val_grow(*c.body, ne, na, ne2, na2);
        },
        SpecFn::Builtin(_) => {},
    }
}

impl Token {
    /// A fresh token with the same text and class.
    pub fn duplicate(&self) -> (r: Token)
        ensures
            r@ == self@,
    {
        Token::new(self.get_text().clone(), self.get_type())
    }
}

impl LispValue {
    /// A deep copy: the result has the same mathematical image.
    pub fn duplicate(&self) -> (r: LispValue)
        ensures
            r@ == self@,
        decreases *self,
    {
        match self {
            LispValue::List(l) => {
                proof {
                    lemma_views_of(l.items@);
                }
                let items = &l.items;
                let mut copied: Vec<LispValue> = Vec::new();
                let mut i: usize = 0;
                proof {
                    lemma_views_of(copied@);
                }
                while i < items.len()
                    invariant
                        *self == LispValue::List(*l),
                        i <= items.len(),
                        items@ == l.items@,
                        copied@.len() == i,
                        views_of(copied@) =~= views_of(items@).subrange(0, i as int),
                    decreases items@.len() - i,
                {
                    proof {
                        lemma_views_of(items@);
                        lemma_views_of(copied@);
                        assert(decreases_to!(*self => self->List_0));
                        assert(self->List_0 == *l);
                        assert(decreases_to!(*l => l.items));
                        assert(decreases_to!(l.items => l.items@));
                        assert(decreases_to!(l.items@ => l.items@[i as int]));
                        assert(decreases_to!(*self => l.items@[i as int]));
                    }
                    let c = items[i].duplicate();
                    copied.push(c);
                    i += 1;
                    proof {
                        lemma_views_of(copied@);
                        lemma_views_of(items@);
                        assert(views_of(copied@) =~= views_of(items@).subrange(0, i as int));
                    }
                }
                proof {
                    lemma_views_of(items@);
                    assert(views_of(items@).subrange(0, items@.len() as int) =~= views_of(items@));
                }
                LispValue::List(List::from_vec(copied))
            },
            LispValue::Unit(u) => LispValue::Unit(Unit::new(u.token().duplicate())),
            LispValue::Int(i) => LispValue::Int(*i),
            LispValue::Boolean(b) => LispValue::Boolean(*b),
            LispValue::Nil => LispValue::Nil,
            LispValue::Str(s) => LispValue::Str(s.clone()),
            LispValue::Function(f) => LispValue::Function(f.duplicate()),
            LispValue::Macro(f) => LispValue::Macro(f.duplicate()),
            LispValue::Error(m) => LispValue::Error(m.clone()),
            LispValue::Atom(i) => LispValue::Atom(*i),
        }
    }
}

impl FnVal {
    /// A deep copy: the result has the same mathematical image.
    pub fn duplicate(&self) -> (r: FnVal)
        ensures
            r@ == self@,
        decreases *self,
    {
        match self {
            FnVal::Builtin(b) => FnVal::Builtin(*b),
            FnVal::Closure(c) => {
                let mut params: Vec<Token> = Vec::new();
                let mut i: usize = 0;
                while i < c.params.len()
                    invariant
                        i <= c.params@.len(),
                        params@.len() == i,
                        forall|j: int| 0 <= j < i ==> params@[j]@ == c.params@[j]@,
                    decreases c.params@.len() - i,
                {
                    params.push(c.params[i].duplicate());
                    i += 1;
                }
                let body = c.body.duplicate();
                let r = FnVal::Closure(Closure { params, body: Box::new(body), env: c.env });
                proof {
                    assert(r@->Closure_0.params =~= self@->Closure_0.params);
                    assert(r@ =~= self@);
                }
                r
            },
        }
    }
}

} // verus!
