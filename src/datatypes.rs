use vstd::prelude::*;
use crate::ast::{ASTNode, Node};

verus! {

/// The native functions: their arguments are evaluated before the call.
#[derive(PartialEq, Eq, Structural, Debug, Clone, Copy)]
pub enum NativeFn {
    Add,
    Modulo,
    Equal,
}

/// The native special forms: they receive their arguments as syntax.
#[derive(PartialEq, Eq, Structural, Debug, Clone, Copy)]
pub enum NativeMacro {
    Global,
    Do,
    With,
    If,
    Lambda,
}

/// Why an evaluation failed.
#[derive(PartialEq, Eq, Structural, Debug, Clone, Copy)]
pub enum EvalError {
    /// An identifier that no scope binds.
    Unbound,
    /// A call with the wrong number of arguments.
    Arity,
    /// An argument of the wrong kind for a native function or form.
    Type,
    /// A special form whose arguments have the wrong shape.
    Malformed,
    /// A call whose head is not callable (or an empty list).
    NotCallable,
    /// `mod` with a zero divisor.
    DivisionByZero,
    /// An integer result outside 64 bits.
    Overflow,
    /// Nesting deeper than the evaluator allows.
    DepthExceeded,
}

/// A runtime value.
#[derive(Debug)]
pub enum Data {
    Integer(i64),
    String(String),
    Boolean(bool),
    NativeFunction(NativeFn),
    NativeMacro(NativeMacro),
    Quote(Box<ASTNode>),
    Lambda(Vec<String>, ASTNode),
    Null,
}

/// The mathematical value of a `Data`.
pub enum Value {
    Integer(i64),
    Str(Seq<char>),
    Boolean(bool),
    NativeFunction(NativeFn),
    NativeMacro(NativeMacro),
    Quote(Node),
    Lambda(Seq<Seq<char>>, Node),
    Null,
}

pub open spec fn names_view(v: Seq<String>) -> Seq<Seq<char>> {
    Seq::new(v.len(), |i: int| v[i]@)
}

pub open spec fn values(v: Seq<Data>) -> Seq<Value> {
    Seq::new(v.len(), |i: int| v[i]@)
}

/// Equality of values: by content, but a native function or form equals nothing.
pub open spec fn value_eq(a: Value, b: Value) -> bool {
    match (a, b) {
        (Value::Integer(x), Value::Integer(y)) => x == y,
        (Value::Str(x), Value::Str(y)) => x == y,
        (Value::Boolean(x), Value::Boolean(y)) => x == y,
        (Value::Quote(x), Value::Quote(y)) => x == y,
        (Value::Lambda(p, x), Value::Lambda(q, y)) => p == q && x == y,
        (Value::Null, Value::Null) => true,
        _ => false,
    }
}

pub open spec fn is_native(a: Value) -> bool {
    a is NativeFunction || a is NativeMacro
}

/// Equality is reflexive on every value but the natives, symmetric, and never
/// holds where either side is a native function or form.
pub proof fn lemma_value_eq_laws(a: Value, b: Value)
    ensures
        !is_native(a) ==> value_eq(a, a),
        value_eq(a, b) == value_eq(b, a),
        is_native(a) || is_native(b) ==> !value_eq(a, b),
{
}

impl Data {
    pub open spec fn view(&self) -> Value {
        match self {
            Data::Integer(i) => Value::Integer(*i),
            Data::String(s) => Value::Str(s@),
            Data::Boolean(b) => Value::Boolean(*b),
            Data::NativeFunction(f) => Value::NativeFunction(*f),
            Data::NativeMacro(m) => Value::NativeMacro(*m),
            Data::Quote(n) => Value::Quote((**n)@),
            Data::Lambda(p, body) => Value::Lambda(names_view(p@), body@),
            Data::Null => Value::Null,
        }
    }

    /// A deep copy with the same content.
    pub fn duplicate(&self) -> (r: Data)
        ensures
            r@ == self@,
    {
        match self {
            Data::Integer(i) => Data::Integer(*i),
            Data::String(s) => Data::String(s.clone()),
            Data::Boolean(b) => Data::Boolean(*b),
            Data::NativeFunction(f) => Data::NativeFunction(*f),
            Data::NativeMacro(m) => Data::NativeMacro(*m),
            Data::Quote(n) => Data::Quote(Box::new((**n).duplicate())),
            Data::Lambda(p, body) => {
                let params = copy_names(p);
                Data::Lambda(params, body.duplicate())
            },
            Data::Null => Data::Null,
        }
    }

    /// Equality of values, as `value_eq` states it.
    pub fn equals(&self, other: &Data) -> (r: bool)
        ensures
            r == value_eq(self@, other@),
    {
        match (self, other) {
            (Data::Integer(x), Data::Integer(y)) => *x == *y,
            (Data::String(x), Data::String(y)) => *x == *y,
            (Data::Boolean(x), Data::Boolean(y)) => *x == *y,
            (Data::Quote(x), Data::Quote(y)) => (**x).same_as(&**y),
            (Data::Lambda(p, x), Data::Lambda(q, y)) => {
                let same_names = names_equal(p, q);
                same_names && x.same_as(y)
            },
            (Data::Null, Data::Null) => true,
            _ => false,
        }
    }

    pub fn as_integer(&self) -> (r: Option<i64>)
        ensures
            r == (match self@ {
                Value::Integer(i) => Some(i),
                _ => None,
            }),
    {
        if let Data::Integer(i) = self {
            Some(*i)
        } else {
            None
        }
    }

    pub fn as_string(&self) -> (r: Option<String>)
        ensures
            match self@ {
                Value::Str(s) => r is Some && r->0@ == s,
                _ => r is None,
            },
    {
        if let Data::String(s) = self {
            Some(s.clone())
        } else {
            None
        }
    }

    pub fn as_bool(&self) -> (r: Option<bool>)
        ensures
            r == (match self@ {
                Value::Boolean(b) => Some(b),
                _ => None,
            }),
    {
        if let Data::Boolean(b) = self {
            Some(*b)
        } else {
            None
        }
    }

    pub fn as_native_function(&self) -> (r: Option<NativeFn>)
        ensures
            r == (match self@ {
                Value::NativeFunction(f) => Some(f),
                _ => None,
            }),
    {
        if let Data::NativeFunction(f) = self {
            Some(*f)
        } else {
            None
        }
    }

    pub fn as_native_macro(&self) -> (r: Option<NativeMacro>)
        ensures
            r == (match self@ {
                Value::NativeMacro(m) => Some(m),
                _ => None,
            }),
    {
        if let Data::NativeMacro(m) = self {
            Some(*m)
        } else {
            None
        }
    }

    pub fn as_quote(&self) -> (r: Option<&ASTNode>)
        ensures
            match self@ {
                Value::Quote(n) => r is Some && r->0@ == n,
                _ => r is None,
            },
    {
        if let Data::Quote(n) = self {
            Some(&**n)
        } else {
            None
        }
    }
}

impl Clone for Data {
    fn clone(&self) -> Self {
        self.duplicate()
    }
}

fn copy_names(p: &Vec<String>) -> (r: Vec<String>)
    ensures
        names_view(r@) == names_view(p@),
{
    let mut out: Vec<String> = Vec::new();
    let mut i: usize = 0;
    while i < p.len()
        invariant
            i <= p.len(),
            out@.len() == i,
            forall|j: int| 0 <= j < i ==> (#[trigger] out@[j])@ == p@[j]@,
        decreases p.len() - i,
    {
        out.push(p[i].clone());
        i = i + 1;
    }
    assert(names_view(out@) =~= names_view(p@));
    out
}

fn names_equal(p: &Vec<String>, q: &Vec<String>) -> (r: bool)
    ensures
        r == (names_view(p@) == names_view(q@)),
{
    if p.len() != q.len() {
        assert(names_view(p@).len() != names_view(q@).len());
        return false;
    }
    let mut i: usize = 0;
    while i < p.len()
        invariant
            i <= p.len(),
            p.len() == q.len(),
            forall|j: int| 0 <= j < i ==> (#[trigger] p@[j])@ == q@[j]@,
        decreases p.len() - i,
    {
        if p[i] != q[i] {
            assert(names_view(p@)[i as int] != names_view(q@)[i as int]);
            return false;
        }
        i = i + 1;
    }
    assert(names_view(p@) =~= names_view(q@));
    true
}

} // verus!
