use vstd::prelude::*;
use vstd::arithmetic::div_mod::{lemma_mod_pos_bound, lemma_small_mod};
use crate::datatypes::{Data, EvalError, NativeFn, Value, is_native, value_eq, values};
use crate::vm::VM;

verus! {

/// A result, with the value seen through its view.
pub open spec fn result_view(r: Result<Data, EvalError>) -> Result<Value, EvalError> {
    match r {
        Ok(d) => Ok(d@),
        Err(e) => Err(e),
    }
}

pub open spec fn all_integers(v: Seq<Value>) -> bool {
    forall|i: int| 0 <= i < v.len() ==> #[trigger] v[i] is Integer
}

/// The sum of the integers of `v`.
pub open spec fn int_sum(v: Seq<Value>) -> int
    decreases v.len(),
{
    if v.len() == 0 {
        0
    } else {
        int_sum(v.drop_last()) + match v.last() {
            Value::Integer(i) => i as int,
            _ => 0,
        }
    }
}

/// The remainder of truncating division: it takes the sign of the dividend.
pub open spec fn trunc_rem(a: int, b: int) -> int {
    let m = (if a < 0 { -a } else { a }) % (if b < 0 { -b } else { b });
    if a < 0 { -m } else { m }
}

/// `+`: the sum of integers, which must fit in 64 bits.
pub open spec fn add_spec(v: Seq<Value>) -> Result<Value, EvalError> {
    if !all_integers(v) {
        Err(EvalError::Type)
    } else if i64::MIN <= int_sum(v) <= i64::MAX {
        Ok(Value::Integer(int_sum(v) as i64))
    } else {
        Err(EvalError::Overflow)
    }
}

/// `mod`: the truncating remainder of two integers.
pub open spec fn modulo_spec(v: Seq<Value>) -> Result<Value, EvalError> {
    if v.len() != 2 {
        Err(EvalError::Arity)
    } else {
        match (v[0], v[1]) {
            (Value::Integer(a), Value::Integer(b)) => if b == 0 {
                Err(EvalError::DivisionByZero)
            } else {
                Ok(Value::Integer(trunc_rem(a as int, b as int) as i64))
            },
            _ => Err(EvalError::Type),
        }
    }
}

/// `==`: equality of two values.
pub open spec fn equal_spec(v: Seq<Value>) -> Result<Value, EvalError> {
    if v.len() != 2 {
        Err(EvalError::Arity)
    } else {
        Ok(Value::Boolean(value_eq(v[0], v[1])))
    }
}

pub open spec fn native_spec(f: NativeFn, v: Seq<Value>) -> Result<Value, EvalError> {
    match f {
        NativeFn::Add => add_spec(v),
        NativeFn::Modulo => modulo_spec(v),
        NativeFn::Equal => equal_spec(v),
    }
}

proof fn lemma_int_sum_bound(v: Seq<Value>)
    requires
        all_integers(v),
    ensures
        -(v.len() * 0x8000_0000_0000_0000) <= int_sum(v) <= v.len() * 0x8000_0000_0000_0000,
    decreases v.len(),
{
    if v.len() > 0 {
        let p = v.drop_last();
        assert forall|i: int| 0 <= i < p.len() implies #[trigger] p[i] is Integer by {
            assert(p[i] == v[i]);
        }
        lemma_int_sum_bound(p);
        assert(v.last() is Integer);
        assert((p.len() + 1) * 0x8000_0000_0000_0000 == p.len() * 0x8000_0000_0000_0000
            + 0x8000_0000_0000_0000) by (nonlinear_arith);
    }
}

proof fn lemma_trunc_rem_host(a: i64, b: i64)
    requires
        b != 0,
        !(a == i64::MIN && b == -1),
    ensures
        a.checked_rem(b) == Some(trunc_rem(a as int, b as int) as i64),
        i64::MIN <= trunc_rem(a as int, b as int) <= i64::MAX,
{
    let x = a as int;
    let d = b as int;
    let ax = if x < 0 { -x } else { x };
    let ad = if d < 0 { -d } else { d };
    lemma_mod_pos_bound(ax, ad);
    if x == 0 {
        lemma_small_mod(0, ad as nat);
    }
    assert(x * -1 == -x);
    assert(d * -1 == -d);
    assert(((x * -1) % (d * -1)) * -1 == -((-x) % (-d)));
    assert(((x * -1) % d) * -1 == -((-x) % d));
}

proof fn lemma_rem_by_minus_one(a: i64)
    ensures
        trunc_rem(a as int, -1) == 0,
{
    let x = a as int;
    let ax = if x < 0 { -x } else { x };
    assert(ax % 1 == 0) by {
        lemma_mod_pos_bound(ax, 1);
    }
}

pub fn plus(args: &Vec<Data>) -> (r: Result<Data, EvalError>)
    ensures
        result_view(r) == add_spec(values(args@)),
{
    let ghost v = values(args@);
    let mut acc: i128 = 0;
    let mut i: usize = 0;
    while i < args.len()
        invariant
            i <= args.len(),
            v == values(args@),
            all_integers(v.subrange(0, i as int)),
            acc == int_sum(v.subrange(0, i as int)),
        decreases args.len() - i,
    {
        proof {
            assert(v.subrange(0, i + 1).drop_last() =~= v.subrange(0, i as int));
        }
        match args[i].as_integer() {
            Some(x) => {
                proof {
                    lemma_int_sum_bound(v.subrange(0, i as int));
                    assert(i * 0x8000_0000_0000_0000 <= 0xffff_ffff_ffff_ffff * 0x8000_0000_0000_0000)
                        by (nonlinear_arith)
                        requires
                            i <= 0xffff_ffff_ffff_ffff,
                    ;
                }
                acc = acc + x as i128;
                proof {
                    let w = v.subrange(0, i + 1);
                    assert forall|j: int| 0 <= j < w.len() implies #[trigger] w[j] is Integer by {
                        if j < i {
                            assert(w[j] == v.subrange(0, i as int)[j]);
                        }
                    }
                }
                i = i + 1;
            },
            None => {
                proof {
                    assert(!(v[i as int] is Integer));
                }
                return Err(EvalError::Type);
            },
        }
    }
    assert(v.subrange(0, i as int) =~= v);
    if acc < i64::MIN as i128 || acc > i64::MAX as i128 {
        Err(EvalError::Overflow)
    } else {
        Ok(Data::Integer(acc as i64))
    }
}

pub fn modulo(args: &Vec<Data>) -> (r: Result<Data, EvalError>)
    ensures
        result_view(r) == modulo_spec(values(args@)),
{
    if args.len() != 2 {
        return Err(EvalError::Arity);
    }
    let a = match args[0].as_integer() {
        Some(a) => a,
        None => {
            return Err(EvalError::Type);
        },
    };
    let b = match args[1].as_integer() {
        Some(b) => b,
        None => {
            return Err(EvalError::Type);
        },
    };
    if b == 0 {
        return Err(EvalError::DivisionByZero);
    }
    if b == -1 {
        proof {
            lemma_rem_by_minus_one(a);
        }
        return Ok(Data::Integer(0));
    }
    proof {
        lemma_trunc_rem_host(a, b);
    }
    match a.checked_rem(b) {
        Some(m) => Ok(Data::Integer(m)),
        None => Err(EvalError::Overflow),
    }
}

pub fn equal(args: &Vec<Data>) -> (r: Result<Data, EvalError>)
    ensures
        result_view(r) == equal_spec(values(args@)),
{
    if args.len() != 2 {
        return Err(EvalError::Arity);
    }
    Ok(Data::Boolean(args[0].equals(&args[1])))
}

/// Applies a native function to evaluated arguments.
pub fn call_native(f: NativeFn, args: &Vec<Data>) -> (r: Result<Data, EvalError>)
    ensures
        result_view(r) == native_spec(f, values(args@)),
{
    match f {
        NativeFn::Add => plus(args),
        NativeFn::Modulo => modulo(args),
        NativeFn::Equal => equal(args),
    }
}

/// The global bindings of the native functions.
pub open spec fn with_native_functions(g: Map<Seq<char>, Value>) -> Map<Seq<char>, Value> {
    g.insert("+"@, Value::NativeFunction(NativeFn::Add)).insert(
        "mod"@,
        Value::NativeFunction(NativeFn::Modulo),
    ).insert("=="@, Value::NativeFunction(NativeFn::Equal))
}

/// Binds `+`, `mod` and `==` in the global scope.
pub fn load_native_functions(vm: &mut VM)
    ensures
        final(vm).globals() == with_native_functions(old(vm).globals()),
        final(vm).frames() == old(vm).frames(),
{
    vm.declare_global("+", Data::NativeFunction(NativeFn::Add));
    vm.declare_global("mod", Data::NativeFunction(NativeFn::Modulo));
    vm.declare_global("==", Data::NativeFunction(NativeFn::Equal));
}

/// `mod` agrees with the host's remainder operator wherever that operator
/// gives a result.
pub proof fn lemma_modulo_matches_host(a: i64, b: i64)
    requires
        b != 0,
        !(a == i64::MIN && b == -1),
    ensures
        modulo_spec(seq![Value::Integer(a), Value::Integer(b)]) == Ok::<Value, EvalError>(
            Value::Integer(a.checked_rem(b)->Some_0),
        ),
        a.checked_rem(b) is Some,
{
    lemma_trunc_rem_host(a, b);
}

/// `==` is reflexive on every value but the natives and symmetric, and it is
/// false wherever either side is a native function or form.
pub proof fn lemma_equal_laws(a: Value, b: Value)
    ensures
        !is_native(a) ==> equal_spec(seq![a, a]) == Ok::<Value, EvalError>(Value::Boolean(true)),
        equal_spec(seq![a, b]) == equal_spec(seq![b, a]),
        is_native(a) || is_native(b) ==> equal_spec(seq![a, b]) == Ok::<Value, EvalError>(
            Value::Boolean(false),
        ),
{
    crate::datatypes::lemma_value_eq_laws(a, b);
}

/// `+` over integers gives their arithmetic sum, where that sum fits in 64 bits.
pub proof fn lemma_add_is_sum(v: Seq<Value>)
    requires
        all_integers(v),
        i64::MIN <= int_sum(v) <= i64::MAX,
    ensures
        add_spec(v) == Ok::<Value, EvalError>(Value::Integer(int_sum(v) as i64)),
{
}

} // verus!
