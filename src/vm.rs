use vstd::prelude::*;
use crate::ast::ASTNode;
use crate::datatypes::{Data, EvalError, Value};
use crate::native_functions::{call_native, load_native_functions, result_view, with_native_functions};
use crate::native_macros::{apply_macro, load_native_macros, with_native_macros};
use crate::parser::{Parser, parse_all, views};
use crate::semantics::{Env, args_from, eval_spec, run_all};
use crate::datatypes::{names_view, values};
use crate::scopes::{
    Frames, Scope, bindings_of, frames_get, frames_get_mut, frames_len, frames_new, frames_of,
    frames_pop, frames_push, scope_get, scope_get_mut, scope_insert, scope_new,
};

verus! {

/// What a name resolves to: the innermost local frame that binds it, else the
/// global scope.
pub open spec fn scope_lookup(
    frames: Seq<Map<Seq<char>, Value>>,
    globals: Map<Seq<char>, Value>,
    k: Seq<char>,
) -> Option<Value>
    decreases frames.len(),
{
    if frames.len() == 0 {
        if globals.contains_key(k) {
            Some(globals[k])
        } else {
            None
        }
    } else if frames.last().contains_key(k) {
        Some(frames.last()[k])
    } else {
        scope_lookup(frames.drop_last(), globals, k)
    }
}

pub open spec fn results_view(v: Seq<Result<Data, EvalError>>) -> Seq<Result<Value, EvalError>> {
    Seq::new(v.len(), |i: int| result_view(v[i]))
}

/// The deepest nesting of evaluations that `eval` allows.
pub const MAX_DEPTH: u64 = 200;

/// The interpreter's state: one global scope and a stack of local frames.
pub struct VM {
    global_scope: Scope,
    stack: Frames,
}

proof fn lemma_assign_at(fs: Seq<Map<Seq<char>, Value>>, i: int, k: Seq<char>, v: Value)
    requires
        0 <= i < fs.len(),
        fs[i].contains_key(k),
        forall|t: int| i < t < fs.len() ==> !(#[trigger] fs[t]).contains_key(k),
    ensures
        assign_frames(fs, k, v) == fs.update(i, fs[i].insert(k, v)),
        frames_bind(fs, k),
    decreases fs.len(),
{
    if i < fs.len() - 1 {
        let p = fs.drop_last();
        assert forall|t: int| i < t < p.len() implies !(#[trigger] p[t]).contains_key(k) by {
            assert(p[t] == fs[t]);
        }
        lemma_assign_at(p, i, k, v);
        assert(!fs.last().contains_key(k));
        assert(p.update(i, p[i].insert(k, v)).push(fs.last()) =~= fs.update(i, fs[i].insert(k, v)));
    }
}

proof fn lemma_assign_none(fs: Seq<Map<Seq<char>, Value>>, k: Seq<char>, v: Value)
    requires
        forall|t: int| 0 <= t < fs.len() ==> !(#[trigger] fs[t]).contains_key(k),
    ensures
        assign_frames(fs, k, v) == fs,
        !frames_bind(fs, k),
    decreases fs.len(),
{
    if fs.len() > 0 {
        let p = fs.drop_last();
        assert forall|t: int| 0 <= t < p.len() implies !(#[trigger] p[t]).contains_key(k) by {
            assert(p[t] == fs[t]);
        }
        lemma_assign_none(p, k, v);
        assert(fs.last() == fs[fs.len() - 1]);
        assert(p.push(fs.last()) =~= fs);
    }
}

/// The frames and globals after `k` is set to `v` where it is bound: in the
/// innermost frame that binds it, else in the global scope.
pub open spec fn assign_frames(
    fs: Seq<Map<Seq<char>, Value>>,
    k: Seq<char>,
    v: Value,
) -> Seq<Map<Seq<char>, Value>>
    decreases fs.len(),
{
    if fs.len() == 0 {
        fs
    } else if fs.last().contains_key(k) {
        fs.update(fs.len() - 1, fs.last().insert(k, v))
    } else {
        assign_frames(fs.drop_last(), k, v).push(fs.last())
    }
}

pub open spec fn frames_bind(fs: Seq<Map<Seq<char>, Value>>, k: Seq<char>) -> bool {
    exists|i: int| 0 <= i < fs.len() && (#[trigger] fs[i]).contains_key(k)
}

impl VM {
    pub closed spec fn globals(&self) -> Map<Seq<char>, Value> {
        bindings_of(self.global_scope)
    }

    pub closed spec fn frames(&self) -> Seq<Map<Seq<char>, Value>> {
        frames_of(self.stack)
    }

    /// The state as a mathematical value.
    pub open spec fn env(&self) -> Env {
        Env { globals: self.globals(), frames: self.frames() }
    }

    /// What `k` resolves to in this state.
    pub open spec fn resolve(&self, k: Seq<char>) -> Option<Value> {
        scope_lookup(self.frames(), self.globals(), k)
    }

    /// A state with no binding at all.
    pub fn empty() -> (r: VM)
        ensures
            r.globals() == Map::<Seq<char>, Value>::empty(),
            r.frames().len() == 0,
    {
        VM { global_scope: scope_new(), stack: frames_new() }
    }

    /// A fresh interpreter: the natives bound globally, no local frame.
    pub fn new() -> (r: VM)
        ensures
            r.globals() == with_native_macros(with_native_functions(Map::empty())),
            r.frames().len() == 0,
    {
        let mut vm = VM::empty();
        load_native_functions(&mut vm);
        load_native_macros(&mut vm);
        vm
    }

    /// Evaluates `node` within the default nesting limit.
    pub fn eval(&mut self, node: &ASTNode) -> (r: Result<Data, EvalError>)
        ensures
            (final(self).env(), result_view(r)) == eval_spec(old(self).env(), node@, MAX_DEPTH as nat),
            final(self).frames() == old(self).frames(),
    {
        self.eval_at(node, MAX_DEPTH)
    }

    /// Parses `text` and evaluates its expressions in order: one result for
    /// each expression that could be read.
    pub fn execute(&mut self, text: &str) -> (r: Vec<Result<Data, EvalError>>)
        ensures
            r.len() == parse_all(text@, 0).len(),
            final(self).frames() == old(self).frames(),
            (final(self).env(), results_view(r@)) == run_all(
                old(self).env(),
                parse_all(text@, 0),
                Seq::empty(),
                MAX_DEPTH as nat,
            ),
    {
        let mut parser = Parser::new(text);
        let mut out: Vec<Result<Data, EvalError>> = Vec::new();
        proof {
            assert(results_view(out@) =~= Seq::<Result<Value, EvalError>>::empty());
        }
        loop
            invariant
                parser.wf(),
                parser.text() == text@,
                out.len() + parser.remaining().len() == parse_all(text@, 0).len(),
                self.frames() == old(self).frames(),
                run_all(self.env(), parser.remaining(), results_view(out@), MAX_DEPTH as nat)
                    == run_all(old(self).env(), parse_all(text@, 0), Seq::empty(), MAX_DEPTH as nat),
            decreases parser.remaining().len(),
        {
            let ghost rem = parser.remaining();
            let ghost before = out@;
            match parser.next() {
                Some(node) => {
                    let r = self.eval(&node);
                    out.push(r);
                    proof {
                        assert(rem.drop_first() =~= parser.remaining());
                        assert(results_view(out@) =~= results_view(before).push(result_view(r)));
                    }
                },
                None => {
                    return out;
                },
            }
        }
    }

    /// The value that `id` resolves to, searching the innermost frame first.
    pub fn lookup(&self, id: &String) -> (r: Option<&Data>)
        ensures
            match r {
                Some(d) => self.resolve(id@) == Some(d@),
                None => self.resolve(id@) is None,
            },
    {
        let mut s: usize = frames_len(&self.stack);
        assert(self.frames().subrange(0, s as int) =~= self.frames());
        while s > 0
            invariant
                s <= self.frames().len(),
                self.resolve(id@) == scope_lookup(
                    self.frames().subrange(0, s as int),
                    self.globals(),
                    id@,
                ),
            decreases s,
        {
            let ghost fr = self.frames().subrange(0, s as int);
            assert(fr.drop_last() =~= self.frames().subrange(0, s - 1));
            let frame = frames_get(&self.stack, s - 1).unwrap();
            match scope_get(frame, id) {
                Some(d) => {
                    return Some(d);
                },
                None => {},
            }
            s = s - 1;
        }
        scope_get(&self.global_scope, id)
    }

    /// Evaluates `node`, nested at most `depth` evaluations deep. Whatever
    /// the outcome, the local frames are as they were before.
    pub fn eval_at(&mut self, node: &ASTNode, depth: u64) -> (r: Result<Data, EvalError>)
        ensures
            (final(self).env(), result_view(r)) == eval_spec(old(self).env(), node@, depth as nat),
            final(self).frames() == old(self).frames(),
        decreases depth, 0int,
    {
        if depth == 0 {
            return Err(EvalError::DepthExceeded);
        }
        match node {
            ASTNode::List(l) => {
                if l.len() == 0 {
                    return Err(EvalError::NotCallable);
                }
                let ghost items = views(l@);
                proof {
                    assert(node@->List_0 =~= items);
                    assert(items[0] == l@[0]@);
                }
                let head = match self.eval_at(&l[0], depth - 1) {
                    Ok(h) => h,
                    Err(e) => {
                        return Err(e);
                    },
                };
                match head {
                    Data::NativeFunction(f) => {
                        let args = match self.eval_args(l, depth - 1) {
                            Ok(a) => a,
                            Err(e) => {
                                return Err(e);
                            },
                        };
                        call_native(f, &args)
                    },
                    Data::NativeMacro(m) => apply_macro(self, m, l, depth - 1),
                    Data::Lambda(params, body) => {
                        let args = match self.eval_args(l, depth - 1) {
                            Ok(a) => a,
                            Err(e) => {
                                return Err(e);
                            },
                        };
                        let ghost ps = names_view(params@);
                        let ghost vs = values(args@);
                        if args.len() != params.len() {
                            return Err(EvalError::Arity);
                        }
                        let ghost e2 = self.env();
                        self.scope_begin();
                        let mut i: usize = 0;
                        while i < params.len()
                            invariant
                                i <= params.len(),
                                params.len() == args.len(),
                                ps == names_view(params@),
                                vs == values(args@),
                                self.frames().len() == old(self).frames().len() + 1,
                                self.frames().drop_last() == old(self).frames(),
                                crate::semantics::bind_from(self.env(), ps, vs, i as int)
                                    == crate::semantics::bind_from(
                                    crate::semantics::env_push(e2),
                                    ps,
                                    vs,
                                    0,
                                ),
                            decreases params.len() - i,
                        {
                            let ghost before = self.frames();
                            let ghost before_env = self.env();
                            self.declare_local(params[i].as_str(), args[i].duplicate());
                            proof {
                                assert(self.frames().drop_last() =~= before.drop_last());
                                assert(self.env() == crate::semantics::env_local(
                                    before_env,
                                    ps[i as int],
                                    vs[i as int],
                                ));
                            }
                            i = i + 1;
                        }
                        let r = self.eval_at(&body, depth - 1);
                        self.scope_end();
                        r
                    },
                    _ => Err(EvalError::NotCallable),
                }
            },
            ASTNode::NumberLiteral(i) => Ok(Data::Integer(*i)),
            ASTNode::StringLiteral(s) => Ok(Data::String(s.clone())),
            ASTNode::Identifier(id) => match self.lookup(id) {
                Some(d) => Ok(d.duplicate()),
                None => Err(EvalError::Unbound),
            },
            ASTNode::Quote(b) => Ok(Data::Quote(Box::new((**b).duplicate()))),
            ASTNode::BoolLiteral(b) => Ok(Data::Boolean(*b)),
            ASTNode::Null => Ok(Data::Null),
        }
    }

    /// Evaluates the arguments of the call `call` (all its elements but the
    /// first), left to right.
    fn eval_args(&mut self, call: &Vec<ASTNode>, depth: u64) -> (r: Result<Vec<Data>, EvalError>)
        requires
            call.len() >= 1,
        ensures
            final(self).frames() == old(self).frames(),
            r is Ok ==> r->Ok_0.len() == call.len() - 1,
            (final(self).env(), match r {
                Ok(v) => Ok(values(v@)),
                Err(x) => Err(x),
            }) == args_from(old(self).env(), views(call@), 1, Seq::empty(), depth as nat),
        decreases depth, 1int,
    {
        let ghost items = views(call@);
        let mut out: Vec<Data> = Vec::new();
        let mut i: usize = 1;
        proof {
            assert(values(out@) =~= Seq::<Value>::empty());
        }
        while i < call.len()
            invariant
                1 <= i <= call.len(),
                out.len() == i - 1,
                self.frames() == old(self).frames(),
                items == views(call@),
                args_from(self.env(), items, i as int, values(out@), depth as nat) == args_from(
                    old(self).env(),
                    items,
                    1,
                    Seq::empty(),
                    depth as nat,
                ),
            decreases call.len() - i,
        {
            proof {
                assert(items[i as int] == call@[i as int]@);
            }
            let ghost before = out@;
            match self.eval_at(&call[i], depth) {
                Ok(v) => {
                    out.push(v);
                    proof {
                        assert(values(out@) =~= values(before).push(v@));
                    }
                },
                Err(e) => {
                    return Err(e);
                },
            }
            i = i + 1;
        }
        Ok(out)
    }

    /// The value that `id` resolves to, for change in place.
    pub fn lookup_mut(&mut self, id: &String) -> (r: Option<&mut Data>)
        ensures
            match r {
                Some(d) => old(self).resolve(id@) == Some((*d)@) && final(self).frames()
                    == assign_frames(old(self).frames(), id@, (*final(d))@) && final(self).globals()
                    == (if frames_bind(old(self).frames(), id@) {
                    old(self).globals()
                } else {
                    old(self).globals().insert(id@, (*final(d))@)
                }),
                None => old(self).resolve(id@) is None && final(self).env() == old(self).env(),
            },
    {
        let mut s: usize = frames_len(&self.stack);
        assert(self.frames().subrange(0, s as int) =~= self.frames());
        while s > 0
            invariant
                s <= self.frames().len(),
                *self == *old(self),
                self.resolve(id@) == scope_lookup(
                    self.frames().subrange(0, s as int),
                    self.globals(),
                    id@,
                ),
                forall|t: int| s <= t < self.frames().len() ==> !(#[trigger] self.frames()[t]).contains_key(id@),
            decreases s,
        {
            let ghost fr = self.frames().subrange(0, s as int);
            assert(fr.drop_last() =~= self.frames().subrange(0, s - 1));
            if scope_get(frames_get(&self.stack, s - 1).unwrap(), id).is_some() {
                let frame = frames_get_mut(&mut self.stack, s - 1).unwrap();
                let r = scope_get_mut(frame, id);
                proof {
                    lemma_assign_at(old(self).frames(), s - 1, id@, (*final(r->0))@);
                }
                return r;
            }
            s = s - 1;
        }
        if scope_get(&self.global_scope, id).is_some() {
            let r = scope_get_mut(&mut self.global_scope, id);
            proof {
                lemma_assign_none(old(self).frames(), id@, (*final(r->0))@);
            }
            r
        } else {
            None
        }
    }

    /// Binds `id` in the global scope, replacing any earlier binding there.
    pub fn declare_global(&mut self, id: &str, data: Data)
        ensures
            final(self).globals() == old(self).globals().insert(id@, data@),
            final(self).frames() == old(self).frames(),
    {
        scope_insert(&mut self.global_scope, String::from_str(id), data);
    }

    /// Opens a new, empty local frame.
    pub fn scope_begin(&mut self)
        ensures
            final(self).frames() == old(self).frames().push(Map::empty()),
            final(self).globals() == old(self).globals(),
    {
        frames_push(&mut self.stack, scope_new());
    }

    /// Closes the innermost local frame, if there is one.
    pub fn scope_end(&mut self)
        ensures
            final(self).frames() == (if old(self).frames().len() > 0 {
                old(self).frames().drop_last()
            } else {
                old(self).frames()
            }),
            final(self).globals() == old(self).globals(),
    {
        if frames_len(&self.stack) > 0 {
            let _closed = frames_pop(&mut self.stack);
        }
    }

    /// Binds `id` in the innermost local frame.
    pub fn declare_local(&mut self, id: &str, data: Data)
        requires
            old(self).frames().len() > 0,
        ensures
            final(self).frames() == old(self).frames().update(
                old(self).frames().len() - 1,
                old(self).frames().last().insert(id@, data@),
            ),
            final(self).globals() == old(self).globals(),
    {
        let last = frames_len(&self.stack) - 1;
        let top = frames_get_mut(&mut self.stack, last).unwrap();
        scope_insert(top, String::from_str(id), data);
    }
}

} // verus!
