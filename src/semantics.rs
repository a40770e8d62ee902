use vstd::prelude::*;
use crate::ast::Node;
use crate::datatypes::{EvalError, NativeMacro, Value};
use crate::native_functions::{native_spec, int_sum, lemma_add_is_sum, lemma_modulo_matches_host};
use crate::datatypes::NativeFn;
use crate::native_macros::{lambda_spec, malformed};
use crate::vm::scope_lookup;

verus! {

/// The mathematical state of an interpreter: the global bindings and the
/// stack of local frames, innermost last.
pub struct Env {
    pub globals: Map<Seq<char>, Value>,
    pub frames: Seq<Map<Seq<char>, Value>>,
}

pub open spec fn env_resolve(e: Env, k: Seq<char>) -> Option<Value> {
    scope_lookup(e.frames, e.globals, k)
}

pub open spec fn env_global(e: Env, k: Seq<char>, v: Value) -> Env {
    Env { globals: e.globals.insert(k, v), frames: e.frames }
}

pub open spec fn env_push(e: Env) -> Env {
    Env { globals: e.globals, frames: e.frames.push(Map::empty()) }
}

pub open spec fn env_pop(e: Env) -> Env {
    Env {
        globals: e.globals,
        frames: if e.frames.len() > 0 {
            e.frames.drop_last()
        } else {
            e.frames
        },
    }
}

pub open spec fn env_local(e: Env, k: Seq<char>, v: Value) -> Env {
    Env {
        globals: e.globals,
        frames: e.frames.update(e.frames.len() - 1, e.frames.last().insert(k, v)),
    }
}

/// What a node that is not a list evaluates to.
pub open spec fn atom_value(e: Env, n: Node) -> Result<Value, EvalError> {
    match n {
        Node::Number(i) => Ok(Value::Integer(i)),
        Node::Str(s) => Ok(Value::Str(s)),
        Node::Ident(k) => match env_resolve(e, k) {
            Some(v) => Ok(v),
            None => Err(EvalError::Unbound),
        },
        Node::Quote(b) => Ok(Value::Quote(*b)),
        Node::Bool(b) => Ok(Value::Boolean(b)),
        Node::Null => Ok(Value::Null),
        Node::List(_) => Err(EvalError::NotCallable),
    }
}

/// Binds `ps[i..]` to `vs[i..]` in the innermost frame, in order.
pub open spec fn bind_from(e: Env, ps: Seq<Seq<char>>, vs: Seq<Value>, i: int) -> Env
    decreases ps.len() - i,
{
    if i >= ps.len() || i < 0 {
        e
    } else {
        bind_from(env_local(e, ps[i], vs[i]), ps, vs, i + 1)
    }
}

/// Evaluating `n` in `e`, nested at most `depth` deep: the state after, and
/// the result.
pub open spec fn eval_spec(e: Env, n: Node, depth: nat) -> (Env, Result<Value, EvalError>)
    decreases depth, 0int, 0int,
{
    if depth == 0 {
        (e, Err(EvalError::DepthExceeded))
    } else {
        match n {
            Node::List(items) => if items.len() == 0 {
                (e, Err(EvalError::NotCallable))
            } else {
                let (e1, h) = eval_spec(e, items[0], (depth - 1) as nat);
                match h {
                    Err(x) => (e1, Err(x)),
                    Ok(Value::NativeFunction(f)) => {
                        let (e2, a) = args_from(e1, items, 1, Seq::empty(), (depth - 1) as nat);
                        match a {
                            Err(x) => (e2, Err(x)),
                            Ok(vs) => (e2, native_spec(f, vs)),
                        }
                    },
                    Ok(Value::NativeMacro(m)) => macro_spec(e1, m, items, (depth - 1) as nat),
                    Ok(Value::Lambda(ps, body)) => {
                        let (e2, a) = args_from(e1, items, 1, Seq::empty(), (depth - 1) as nat);
                        match a {
                            Err(x) => (e2, Err(x)),
                            Ok(vs) => if vs.len() != ps.len() {
                                (e2, Err(EvalError::Arity))
                            } else {
                                let e3 = bind_from(env_push(e2), ps, vs, 0);
                                let (e4, r) = eval_spec(e3, body, (depth - 1) as nat);
                                (env_pop(e4), r)
                            },
                        }
                    },
                    Ok(_) => (e1, Err(EvalError::NotCallable)),
                }
            },
            _ => (e, atom_value(e, n)),
        }
    }
}

/// Evaluates `items[i..]` left to right after the values `acc` already had.
pub open spec fn args_from(e: Env, items: Seq<Node>, i: int, acc: Seq<Value>, depth: nat) -> (
    Env,
    Result<Seq<Value>, EvalError>,
)
    decreases depth, 1int, items.len() - i,
{
    if i >= items.len() || i < 0 {
        (e, Ok(acc))
    } else {
        let (e1, r) = eval_spec(e, items[i], depth);
        match r {
            Err(x) => (e1, Err(x)),
            Ok(v) => args_from(e1, items, i + 1, acc.push(v), depth),
        }
    }
}

/// `do` from `items[i]` on, where `last` is the latest value.
pub open spec fn do_from(e: Env, items: Seq<Node>, i: int, last: Value, depth: nat) -> (
    Env,
    Result<Value, EvalError>,
)
    decreases depth, 1int, items.len() - i,
{
    if i >= items.len() || i < 0 {
        (e, Ok(last))
    } else {
        let (e1, r) = eval_spec(e, items[i], depth);
        match r {
            Err(x) => (e1, Err(x)),
            Ok(v) => do_from(e1, items, i + 1, v, depth),
        }
    }
}

/// `with` from the binding pair at `i` on; the frame it opened is closed
/// on every way out.
pub open spec fn with_from(e: Env, bs: Seq<Node>, i: int, body: Node, depth: nat) -> (
    Env,
    Result<Value, EvalError>,
)
    decreases depth, 1int, bs.len() - i,
{
    if i + 1 >= bs.len() || i < 0 {
        let (e1, r) = eval_spec(e, body, depth);
        (env_pop(e1), r)
    } else {
        match bs[i] {
            Node::Ident(k) => {
                let (e1, r) = eval_spec(e, bs[i + 1], depth);
                match r {
                    Err(x) => (env_pop(e1), Err(x)),
                    Ok(v) => with_from(env_local(e1, k, v), bs, i + 2, body, depth),
                }
            },
            _ => (env_pop(e), Err(EvalError::Malformed)),
        }
    }
}

/// A special form applied to the unevaluated call `call`.
pub open spec fn macro_spec(e: Env, m: NativeMacro, call: Seq<Node>, depth: nat) -> (
    Env,
    Result<Value, EvalError>,
)
    decreases depth, 2int, 0int,
{
    if malformed(m, call) {
        (e, Err(EvalError::Malformed))
    } else {
        match m {
            NativeMacro::Global => {
                let (e1, r) = eval_spec(e, call[2], depth);
                match r {
                    Err(x) => (e1, Err(x)),
                    Ok(v) => (env_global(e1, call[1]->Ident_0, v), Ok(Value::Null)),
                }
            },
            NativeMacro::Do => do_from(e, call, 1, Value::Null, depth),
            NativeMacro::With => with_from(env_push(e), call[1]->List_0, 0, call[2], depth),
            NativeMacro::If => {
                let (e1, c) = eval_spec(e, call[1], depth);
                match c {
                    Err(x) => (e1, Err(x)),
                    Ok(Value::Boolean(true)) => eval_spec(e1, call[2], depth),
                    Ok(Value::Boolean(false)) => eval_spec(e1, call[3], depth),
                    Ok(_) => (e1, Err(EvalError::Type)),
                }
            },
            NativeMacro::Lambda => (e, Ok(lambda_spec(call))),
        }
    }
}

/// Evaluates `nodes` in order, each within `depth`, after the results `acc`.
pub open spec fn run_all(e: Env, nodes: Seq<Node>, acc: Seq<Result<Value, EvalError>>, depth: nat) -> (
    Env,
    Seq<Result<Value, EvalError>>,
)
    decreases nodes.len(),
{
    if nodes.len() == 0 {
        (e, acc)
    } else {
        let (e1, r) = eval_spec(e, nodes[0], depth);
        run_all(e1, nodes.drop_first(), acc.push(r), depth)
    }
}

proof fn lemma_bind_keeps_outer(e: Env, ps: Seq<Seq<char>>, vs: Seq<Value>, i: int)
    requires
        e.frames.len() >= 1,
    ensures
        bind_from(e, ps, vs, i).frames.len() == e.frames.len(),
        bind_from(e, ps, vs, i).frames.drop_last() == e.frames.drop_last(),
        bind_from(e, ps, vs, i).globals == e.globals,
    decreases ps.len() - i,
{
    if !(i >= ps.len() || i < 0) {
        let e1 = env_local(e, ps[i], vs[i]);
        assert(e1.frames.drop_last() =~= e.frames.drop_last());
        lemma_bind_keeps_outer(e1, ps, vs, i + 1);
    }
}

/// Every evaluation leaves the stack of local frames as it found it.
pub proof fn lemma_eval_keeps_frames(e: Env, n: Node, depth: nat)
    ensures
        eval_spec(e, n, depth).0.frames == e.frames,
    decreases depth, 0int, 0int,
{
    if depth > 0 {
        if let Node::List(items) = n {
            if items.len() > 0 {
                let d1 = (depth - 1) as nat;
                lemma_eval_keeps_frames(e, items[0], d1);
                let (e1, h) = eval_spec(e, items[0], d1);
                lemma_args_keep_frames(e1, items, 1, Seq::empty(), d1);
                let (e2, a) = args_from(e1, items, 1, Seq::empty(), d1);
                match h {
                    Ok(Value::NativeMacro(m)) => {
                        lemma_macro_keeps_frames(e1, m, items, d1);
                    },
                    Ok(Value::Lambda(ps, body)) => {
                        if let Ok(vs) = a {
                            let e3 = bind_from(env_push(e2), ps, vs, 0);
                            lemma_bind_keeps_outer(env_push(e2), ps, vs, 0);
                            lemma_eval_keeps_frames(e3, body, d1);
                            assert(env_push(e2).frames.drop_last() =~= e2.frames);
                        }
                    },
                    _ => {},
                }
            }
        }
    }
}

proof fn lemma_args_keep_frames(e: Env, items: Seq<Node>, i: int, acc: Seq<Value>, depth: nat)
    ensures
        args_from(e, items, i, acc, depth).0.frames == e.frames,
    decreases depth, 1int, items.len() - i,
{
    if !(i >= items.len() || i < 0) {
        lemma_eval_keeps_frames(e, items[i], depth);
        let (e1, r) = eval_spec(e, items[i], depth);
        if let Ok(v) = r {
            lemma_args_keep_frames(e1, items, i + 1, acc.push(v), depth);
        }
    }
}

proof fn lemma_do_keeps_frames(e: Env, items: Seq<Node>, i: int, last: Value, depth: nat)
    ensures
        do_from(e, items, i, last, depth).0.frames == e.frames,
    decreases depth, 1int, items.len() - i,
{
    if !(i >= items.len() || i < 0) {
        lemma_eval_keeps_frames(e, items[i], depth);
        let (e1, r) = eval_spec(e, items[i], depth);
        if let Ok(v) = r {
            lemma_do_keeps_frames(e1, items, i + 1, v, depth);
        }
    }
}

proof fn lemma_with_pops_frame(e: Env, bs: Seq<Node>, i: int, body: Node, depth: nat)
    requires
        e.frames.len() >= 1,
    ensures
        with_from(e, bs, i, body, depth).0.frames == e.frames.drop_last(),
    decreases depth, 1int, bs.len() - i,
{
    if i + 1 >= bs.len() || i < 0 {
        lemma_eval_keeps_frames(e, body, depth);
    } else {
        if let Node::Ident(k) = bs[i] {
            lemma_eval_keeps_frames(e, bs[i + 1], depth);
            let (e1, r) = eval_spec(e, bs[i + 1], depth);
            if let Ok(v) = r {
                let e2 = env_local(e1, k, v);
                assert(e2.frames.drop_last() =~= e.frames.drop_last());
                lemma_with_pops_frame(e2, bs, i + 2, body, depth);
            }
        }
    }
}

proof fn lemma_macro_keeps_frames(e: Env, m: NativeMacro, call: Seq<Node>, depth: nat)
    ensures
        macro_spec(e, m, call, depth).0.frames == e.frames,
    decreases depth, 2int, 0int,
{
    if !malformed(m, call) {
        match m {
            NativeMacro::Global => {
                lemma_eval_keeps_frames(e, call[2], depth);
            },
            NativeMacro::Do => {
                lemma_do_keeps_frames(e, call, 1, Value::Null, depth);
            },
            NativeMacro::With => {
                lemma_with_pops_frame(env_push(e), call[1]->List_0, 0, call[2], depth);
                assert(env_push(e).frames.drop_last() =~= e.frames);
            },
            NativeMacro::If => {
                lemma_eval_keeps_frames(e, call[1], depth);
                let (e1, c) = eval_spec(e, call[1], depth);
                lemma_eval_keeps_frames(e1, call[2], depth);
                lemma_eval_keeps_frames(e1, call[3], depth);
            },
            NativeMacro::Lambda => {},
        }
    }
}

/// The bindings that `with` makes are gone once it returns: the local
/// frames after it are those before it, so a name then resolves as it did
/// before, up to what `global` changed meanwhile.
pub proof fn lemma_with_scoping(e: Env, call: Seq<Node>, depth: nat)
    ensures
        macro_spec(e, NativeMacro::With, call, depth).0.frames == e.frames,
        forall|k: Seq<char>|
            env_resolve(macro_spec(e, NativeMacro::With, call, depth).0, k) == scope_lookup(
                e.frames,
                macro_spec(e, NativeMacro::With, call, depth).0.globals,
                k,
            ),
{
    lemma_macro_keeps_frames(e, NativeMacro::With, call, depth);
}

/// The integers of `xs` as values.
pub open spec fn int_values(xs: Seq<i64>) -> Seq<Value> {
    Seq::new(xs.len(), |i: int| Value::Integer(xs[i]))
}

/// The call `(head x1 x2 ...)` of integer literals.
pub open spec fn int_call(head: Seq<char>, xs: Seq<i64>) -> Seq<Node> {
    seq![Node::Ident(head)] + Seq::new(xs.len(), |i: int| Node::Number(xs[i]))
}

proof fn lemma_literal_args(e: Env, head: Seq<char>, xs: Seq<i64>, i: int, acc: Seq<Value>, depth: nat)
    requires
        depth >= 1,
        1 <= i <= xs.len() + 1,
    ensures
        args_from(e, int_call(head, xs), i, acc, depth) == (e, Ok::<Seq<Value>, EvalError>(
            acc + int_values(xs).subrange(i - 1, xs.len() as int),
        )),
    decreases xs.len() + 1 - i,
{
    let items = int_call(head, xs);
    assert(items.len() == xs.len() + 1);
    if i < items.len() {
        assert(items[i] == Node::Number(xs[i - 1]));
        assert(eval_spec(e, items[i], depth) == (e, Ok::<Value, EvalError>(
            Value::Integer(xs[i - 1]),
        )));
        lemma_literal_args(e, head, xs, i + 1, acc.push(Value::Integer(xs[i - 1])), depth);
        assert(acc.push(Value::Integer(xs[i - 1])) + int_values(xs).subrange(i, xs.len() as int)
            =~= acc + int_values(xs).subrange(i - 1, xs.len() as int));
    } else {
        assert(acc + int_values(xs).subrange(i - 1, xs.len() as int) =~= acc);
    }
}

/// Evaluating `(+ x1 ... xn)` over integer literals, where `+` is bound to
/// the native sum, gives the arithmetic sum of the xi wherever that sum fits
/// in 64 bits, and changes no binding.
pub proof fn lemma_eval_sum(e: Env, xs: Seq<i64>, depth: nat)
    requires
        depth >= 2,
        env_resolve(e, "+"@) == Some(Value::NativeFunction(NativeFn::Add)),
        i64::MIN <= int_sum(int_values(xs)) <= i64::MAX,
    ensures
        eval_spec(e, Node::List(int_call("+"@, xs)), depth) == (e, Ok::<Value, EvalError>(
            Value::Integer(int_sum(int_values(xs)) as i64),
        )),
{
    let items = int_call("+"@, xs);
    let d1 = (depth - 1) as nat;
    assert(items[0] == Node::Ident("+"@));
    assert(eval_spec(e, items[0], d1) == (e, Ok::<Value, EvalError>(
        Value::NativeFunction(NativeFn::Add),
    )));
    lemma_literal_args(e, "+"@, xs, 1, Seq::empty(), d1);
    assert(Seq::<Value>::empty() + int_values(xs).subrange(0, xs.len() as int) =~= int_values(xs));
    assert(args_from(e, items, 1, Seq::empty(), d1) == (e, Ok::<Seq<Value>, EvalError>(
        int_values(xs),
    )));
    lemma_add_is_sum(int_values(xs));
}

/// Evaluating `(mod a b)` over integer literals, where `mod` is bound to the
/// native remainder, gives what the host's remainder operator gives.
pub proof fn lemma_eval_modulo(e: Env, a: i64, b: i64, depth: nat)
    requires
        depth >= 2,
        env_resolve(e, "mod"@) == Some(Value::NativeFunction(NativeFn::Modulo)),
        b != 0,
        !(a == i64::MIN && b == -1),
    ensures
        eval_spec(e, Node::List(int_call("mod"@, seq![a, b])), depth) == (e, Ok::<Value, EvalError>(
            Value::Integer(a.checked_rem(b)->Some_0),
        )),
{
    let xs = seq![a, b];
    let items = int_call("mod"@, xs);
    let d1 = (depth - 1) as nat;
    assert(items[0] == Node::Ident("mod"@));
    assert(eval_spec(e, items[0], d1) == (e, Ok::<Value, EvalError>(
        Value::NativeFunction(NativeFn::Modulo),
    )));
    lemma_literal_args(e, "mod"@, xs, 1, Seq::empty(), d1);
    let vs = seq![Value::Integer(a), Value::Integer(b)];
    assert(Seq::<Value>::empty() + int_values(xs).subrange(0, 2) =~= vs);
    assert(args_from(e, items, 1, Seq::empty(), d1) == (e, Ok::<Seq<Value>, EvalError>(vs)));
    lemma_modulo_matches_host(a, b);
}

/// `if` evaluates its condition and then only the branch that the condition
/// picks: the other branch has no effect on the state or the result.
pub proof fn lemma_if_ignores_untaken(
    e: Env,
    head: Node,
    c: Node,
    a: Node,
    b: Node,
    a2: Node,
    b2: Node,
    depth: nat,
)
    ensures
        eval_spec(e, c, depth).1 == Ok::<Value, EvalError>(Value::Boolean(true)) ==> macro_spec(
            e,
            NativeMacro::If,
            seq![head, c, a, b],
            depth,
        ) == macro_spec(e, NativeMacro::If, seq![head, c, a, b2], depth) && macro_spec(
            e,
            NativeMacro::If,
            seq![head, c, a, b],
            depth,
        ) == eval_spec(eval_spec(e, c, depth).0, a, depth),
        eval_spec(e, c, depth).1 == Ok::<Value, EvalError>(Value::Boolean(false)) ==> macro_spec(
            e,
            NativeMacro::If,
            seq![head, c, a, b],
            depth,
        ) == macro_spec(e, NativeMacro::If, seq![head, c, a2, b], depth) && macro_spec(
            e,
            NativeMacro::If,
            seq![head, c, a, b],
            depth,
        ) == eval_spec(eval_spec(e, c, depth).0, b, depth),
{
}

} // verus!
