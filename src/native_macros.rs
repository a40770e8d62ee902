use vstd::prelude::*;
use crate::ast::{ASTNode, Node};
use crate::datatypes::{Data, EvalError, NativeMacro, Value, names_view};
use crate::native_functions::result_view;
use crate::parser::views;
use crate::vm::VM;
use crate::semantics::{do_from, env_local, env_pop, env_push, macro_spec, with_from};

verus! {

/// The names of the identifiers among `items`, in order; other items are skipped.
pub open spec fn ident_names(items: Seq<Node>) -> Seq<Seq<char>>
    decreases items.len(),
{
    if items.len() == 0 {
        Seq::empty()
    } else {
        ident_names(items.drop_last()) + match items.last() {
            Node::Ident(k) => seq![k],
            _ => Seq::empty(),
        }
    }
}

/// Whether a call of form `m`, written as `call` (the form's name first),
/// has arguments of the wrong shape.
pub open spec fn malformed(m: NativeMacro, call: Seq<Node>) -> bool {
    match m {
        NativeMacro::Global => call.len() != 3 || !(call[1] is Ident),
        NativeMacro::Do => call.len() < 2,
        NativeMacro::With => call.len() != 3 || !(call[1] is List) || call[1]->List_0.len() % 2
            != 0,
        NativeMacro::If => call.len() != 4,
        NativeMacro::Lambda => call.len() != 3 || !(call[1] is List),
    }
}

/// `fn`: a closure of the parameter names and the body, unevaluated.
pub open spec fn lambda_spec(call: Seq<Node>) -> Value {
    Value::Lambda(ident_names(call[1]->List_0), call[2])
}

fn param_names(items: &Vec<ASTNode>) -> (r: Vec<String>)
    ensures
        names_view(r@) == ident_names(views(items@)),
{
    let mut out: Vec<String> = Vec::new();
    let mut i: usize = 0;
    while i < items.len()
        invariant
            i <= items.len(),
            names_view(out@) == ident_names(views(items@.subrange(0, i as int))),
        decreases items.len() - i,
    {
        let ghost before = out@;
        proof {
            assert(views(items@.subrange(0, i + 1)).drop_last() =~= views(
                items@.subrange(0, i as int),
            ));
        }
        match &items[i] {
            ASTNode::Identifier(name) => {
                out.push(name.clone());
                proof {
                    assert(names_view(out@) =~= names_view(before) + seq![name@]);
                }
            },
            _ => {},
        }
        i = i + 1;
    }
    proof {
        assert(items@.subrange(0, i as int) =~= items@);
    }
    out
}

/// The global bindings of the special forms.
pub open spec fn with_native_macros(g: Map<Seq<char>, Value>) -> Map<Seq<char>, Value> {
    g.insert("global"@, Value::NativeMacro(NativeMacro::Global)).insert(
        "do"@,
        Value::NativeMacro(NativeMacro::Do),
    ).insert("with"@, Value::NativeMacro(NativeMacro::With)).insert(
        "if"@,
        Value::NativeMacro(NativeMacro::If),
    ).insert("fn"@, Value::NativeMacro(NativeMacro::Lambda))
}

/// Binds `global`, `do`, `with`, `if` and `fn` in the global scope.
pub fn load_native_macros(vm: &mut VM)
    ensures
        final(vm).globals() == with_native_macros(old(vm).globals()),
        final(vm).frames() == old(vm).frames(),
{
    vm.declare_global("global", Data::NativeMacro(NativeMacro::Global));
    vm.declare_global("do", Data::NativeMacro(NativeMacro::Do));
    vm.declare_global("with", Data::NativeMacro(NativeMacro::With));
    vm.declare_global("if", Data::NativeMacro(NativeMacro::If));
    vm.declare_global("fn", Data::NativeMacro(NativeMacro::Lambda));
}

/// Applies a special form to the unevaluated call `call`, whose first
/// element names the form.
pub fn apply_macro(vm: &mut VM, m: NativeMacro, call: &Vec<ASTNode>, depth: u64) -> (r: Result<
    Data,
    EvalError,
>)
    requires
        call.len() >= 1,
    ensures
        (final(vm).env(), result_view(r)) == macro_spec(old(vm).env(), m, views(call@), depth as nat),
        final(vm).frames() == old(vm).frames(),
    decreases depth, 1int,
{
    proof {
        assert(views(call@).len() == call.len());
    }
    match m {
        NativeMacro::Global => {
            if call.len() != 3 {
                return Err(EvalError::Malformed);
            }
            proof {
                assert(views(call@)[1] == call@[1]@);
            }
            match &call[1] {
                ASTNode::Identifier(name) => {
                    proof {
                        assert(views(call@)[2] == call@[2]@);
                    }
                    let val = match vm.eval_at(&call[2], depth) {
                        Ok(v) => v,
                        Err(e) => {
                            return Err(e);
                        },
                    };
                    vm.declare_global(name.as_str(), val);
                    Ok(Data::Null)
                },
                _ => Err(EvalError::Malformed),
            }
        },
        NativeMacro::Do => {
            if call.len() < 2 {
                return Err(EvalError::Malformed);
            }
            let mut last = Data::Null;
            let mut i: usize = 1;
            while i < call.len()
                invariant
                    1 <= i <= call.len(),
                    vm.frames() == old(vm).frames(),
                    m == NativeMacro::Do,
                    !malformed(m, views(call@)),
                    do_from(vm.env(), views(call@), i as int, last@, depth as nat) == do_from(
                        old(vm).env(),
                        views(call@),
                        1,
                        Value::Null,
                        depth as nat,
                    ),
                decreases call.len() - i,
            {
                proof {
                    assert(views(call@)[i as int] == call@[i as int]@);
                }
                last = match vm.eval_at(&call[i], depth) {
                    Ok(v) => v,
                    Err(e) => {
                        return Err(e);
                    },
                };
                i = i + 1;
            }
            Ok(last)
        },
        NativeMacro::With => {
            if call.len() != 3 {
                return Err(EvalError::Malformed);
            }
            proof {
                assert(views(call@)[1] == call@[1]@);
            }
            let bindings = match &call[1] {
                ASTNode::List(b) => b,
                _ => {
                    return Err(EvalError::Malformed);
                },
            };
            if bindings.len() % 2 != 0 {
                return Err(EvalError::Malformed);
            }
            let ghost bs = views(bindings@);
            let ghost body = views(call@)[2];
            proof {
                assert(call@[1]@->List_0 =~= bs);
                assert(body == call@[2]@);
            }
            vm.scope_begin();
            let mut i: usize = 0;
            while i < bindings.len()
                invariant
                    i <= bindings.len(),
                    bindings.len() % 2 == 0,
                    i % 2 == 0,
                    vm.frames().len() == old(vm).frames().len() + 1,
                    vm.frames().drop_last() == old(vm).frames(),
                    m == NativeMacro::With,
                    !malformed(m, views(call@)),
                    bs == views(bindings@),
                    body == call@[2]@,
                    macro_spec(old(vm).env(), m, views(call@), depth as nat) == with_from(
                        env_push(old(vm).env()),
                        bs,
                        0,
                        body,
                        depth as nat,
                    ),
                    with_from(vm.env(), bs, i as int, body, depth as nat) == with_from(
                        env_push(old(vm).env()),
                        bs,
                        0,
                        body,
                        depth as nat,
                    ),
                decreases bindings.len() - i,
            {
                proof {
                    assert(i + 1 < bindings.len());
                    assert(bs[i as int] == bindings@[i as int]@);
                    assert(bs[i + 1] == bindings@[i + 1]@);
                }
                let name = match &bindings[i] {
                    ASTNode::Identifier(n) => n,
                    _ => {
                        vm.scope_end();
                        proof {
                            assert(vm.frames() == old(vm).frames());
                        }
                        return Err(EvalError::Malformed);
                    },
                };
                let val = match vm.eval_at(&bindings[i + 1], depth) {
                    Ok(v) => v,
                    Err(e) => {
                        vm.scope_end();
                        return Err(e);
                    },
                };
                let ghost before = vm.frames();
                let ghost before_env = vm.env();
                vm.declare_local(name.as_str(), val);
                proof {
                    assert(vm.frames().drop_last() =~= before.drop_last());
                    assert(vm.env() == env_local(before_env, name@, val@));
                }
                i = i + 2;
            }
            let r = vm.eval_at(&call[2], depth);
            vm.scope_end();
            r
        },
        NativeMacro::If => {
            if call.len() != 4 {
                return Err(EvalError::Malformed);
            }
            proof {
                assert(views(call@)[1] == call@[1]@);
                assert(views(call@)[2] == call@[2]@);
                assert(views(call@)[3] == call@[3]@);
            }
            let cond = match vm.eval_at(&call[1], depth) {
                Ok(v) => v,
                Err(e) => {
                    return Err(e);
                },
            };
            match cond.as_bool() {
                Some(true) => vm.eval_at(&call[2], depth),
                Some(false) => vm.eval_at(&call[3], depth),
                None => Err(EvalError::Type),
            }
        },
        NativeMacro::Lambda => {
            if call.len() != 3 {
                return Err(EvalError::Malformed);
            }
            proof {
                assert(views(call@)[1] == call@[1]@);
            }
            match &call[1] {
                ASTNode::List(items) => {
                    let params = param_names(items);
                    let body = call[2].duplicate();
                    proof {
                        assert(views(call@)[1] == call@[1]@);
                        assert(views(call@)[2] == call@[2]@);
                        assert(call@[1]@->List_0 =~= views(items@));
                    }
                    Ok(Data::Lambda(params, body))
                },
                _ => Err(EvalError::Malformed),
            }
        },
    }
}

} // verus!
