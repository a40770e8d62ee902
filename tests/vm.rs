use lisp_vm::{Data, EvalError, VM};

fn run(vm: &mut VM, text: &str) -> Vec<Result<Data, EvalError>> {
    vm.execute(text)
}

fn int_of(r: &Result<Data, EvalError>) -> i64 {
    r.as_ref().unwrap().as_integer().unwrap()
}

#[test]
fn test_gcd() {
    fn gcd(a: i64, b: i64) -> i64 {
        let (a, b) = (b, a % b);
        if b == 0 {
            a
        } else {
            gcd(a, b)
        }
    }

    let gcd_text =
        "(global gcd (fn (a b) (with (_a b _b (mod a b)) (if (== _b 0) _a (gcd _a _b)))))";
    let mut vm = VM::new();
    vm.execute(gcd_text);
    for i in 1..50 {
        for j in 1..50 {
            let query = format!("(gcd {i} {j})");
            let _r1 = vm.execute(&query);
            let r1 = _r1[0].as_ref().unwrap().as_integer().unwrap();
            let r2 = gcd(i, j);
            assert_eq!(r1, r2);
        }
    }
    for i in -50..0 {
        for j in -50..0 {
            let query = format!("(gcd {i} {j})");
            let _r1 = vm.execute(&query);
            let r1 = _r1[0].as_ref().unwrap().as_integer().unwrap();
            let r2 = gcd(i, j);
            assert_eq!(r1, r2);
        }
    }
}

#[test]
fn gcd_of_48_and_18() {
    let mut vm = VM::new();
    let r = run(
        &mut vm,
        "(global gcd (fn (a b) (with (_a b _b (mod a b)) (if (== _b 0) _a (gcd _a _b))))) (gcd 48 18)",
    );
    assert_eq!(r.len(), 2);
    assert!(r[0].as_ref().unwrap().as_integer().is_none());
    assert_eq!(int_of(&r[1]), 6);
}

#[test]
fn sum_scenarios() {
    let mut vm = VM::new();
    assert_eq!(int_of(&run(&mut vm, "(+ 1 2 3)")[0]), 6);
    assert_eq!(int_of(&run(&mut vm, "(+ )")[0]), 0);
    assert_eq!(int_of(&run(&mut vm, "(+ -5 2 -10)")[0]), -13);
    assert_eq!(run(&mut vm, "(+ 1 \"a\")")[0].as_ref().err(), Some(&EvalError::Type));
    assert_eq!(
        run(&mut vm, "(+ 9223372036854775807 1)")[0].as_ref().err(),
        Some(&EvalError::Overflow)
    );
    assert_eq!(
        int_of(&run(&mut vm, "(+ 9223372036854775807 1 -2)")[0]),
        9223372036854775806
    );
}

#[test]
fn modulo_follows_the_dividend_sign() {
    let mut vm = VM::new();
    for (a, b) in [(7i64, 3i64), (-7, 3), (7, -3), (-7, -3), (0, 5), (i64::MIN, 7), (5, -1)] {
        let r = run(&mut vm, &format!("(mod {a} {b})"));
        assert_eq!(int_of(&r[0]), a % b);
    }
    assert_eq!(int_of(&run(&mut vm, "(mod -9223372036854775808 -1)")[0]), 0);
    assert_eq!(
        run(&mut vm, "(mod 1 0)")[0].as_ref().err(),
        Some(&EvalError::DivisionByZero)
    );
    assert_eq!(run(&mut vm, "(mod 1)")[0].as_ref().err(), Some(&EvalError::Arity));
}

#[test]
fn equality_rules() {
    let mut vm = VM::new();
    let truth = |vm: &mut VM, t: &str| run(vm, t)[0].as_ref().unwrap().as_bool().unwrap();
    assert!(truth(&mut vm, "(== 3 3)"));
    assert!(!truth(&mut vm, "(== 3 4)"));
    assert!(truth(&mut vm, "(== \"a\" \"a\")"));
    assert!(truth(&mut vm, "(== true true)"));
    assert!(truth(&mut vm, "(== null null)"));
    assert!(truth(&mut vm, "(== '(a 1) '(a 1))"));
    assert!(!truth(&mut vm, "(== '(a 1) '(a 2))"));
    assert!(truth(&mut vm, "(== (fn (x) x) (fn (x) x))"));
    assert!(!truth(&mut vm, "(== + +)"));
    assert!(!truth(&mut vm, "(== if if)"));
    assert!(!truth(&mut vm, "(== 1 \"1\")"));
}

#[test]
fn with_bindings_leave_with_the_body() {
    let mut vm = VM::new();
    run(&mut vm, "(global x 1)");
    assert_eq!(int_of(&run(&mut vm, "(with (x 5 y 7) (+ x y))")[0]), 12);
    assert_eq!(int_of(&run(&mut vm, "x")[0]), 1);
    assert_eq!(run(&mut vm, "y")[0].as_ref().err(), Some(&EvalError::Unbound));
    assert_eq!(
        run(&mut vm, "(with (x) x)")[0].as_ref().err(),
        Some(&EvalError::Malformed)
    );
    assert_eq!(
        run(&mut vm, "(with (1 2) 3)")[0].as_ref().err(),
        Some(&EvalError::Malformed)
    );
    assert_eq!(int_of(&run(&mut vm, "x")[0]), 1);
}

#[test]
fn if_skips_the_untaken_branch() {
    let mut vm = VM::new();
    assert_eq!(int_of(&run(&mut vm, "(if true 1 (undefined))")[0]), 1);
    assert_eq!(int_of(&run(&mut vm, "(if false (undefined) 2)")[0]), 2);
    run(&mut vm, "(if true 0 (global z 9))");
    assert_eq!(run(&mut vm, "z")[0].as_ref().err(), Some(&EvalError::Unbound));
    assert_eq!(run(&mut vm, "(if 1 2 3)")[0].as_ref().err(), Some(&EvalError::Type));
}

#[test]
fn quote_is_not_evaluated() {
    let mut vm = VM::new();
    let r = run(&mut vm, "'(a b c)");
    let q = r[0].as_ref().unwrap().as_quote().unwrap();
    assert_eq!(
        *q,
        lisp_vm::ASTNode::List(vec![
            lisp_vm::ASTNode::Identifier("a".into()),
            lisp_vm::ASTNode::Identifier("b".into()),
            lisp_vm::ASTNode::Identifier("c".into()),
        ])
    );
}

#[test]
fn unbalanced_text_runs_closed_nodes_only() {
    let mut vm = VM::new();
    assert_eq!(run(&mut vm, "(a (b)").len(), 0);
    let r = run(&mut vm, "(+ 1 1) (+ 2");
    assert_eq!(r.len(), 1);
    assert_eq!(int_of(&r[0]), 2);
}

#[test]
fn do_returns_the_last_value() {
    let mut vm = VM::new();
    assert_eq!(int_of(&run(&mut vm, "(do (global a 4) (+ a 1))")[0]), 5);
    assert_eq!(run(&mut vm, "(do)")[0].as_ref().err(), Some(&EvalError::Malformed));
}

#[test]
fn call_errors() {
    let mut vm = VM::new();
    run(&mut vm, "(global id (fn (x) x))");
    assert_eq!(int_of(&run(&mut vm, "(id 3)")[0]), 3);
    assert_eq!(run(&mut vm, "(id 1 2)")[0].as_ref().err(), Some(&EvalError::Arity));
    assert_eq!(run(&mut vm, "(1 2)")[0].as_ref().err(), Some(&EvalError::NotCallable));
    assert_eq!(run(&mut vm, "()")[0].as_ref().err(), Some(&EvalError::NotCallable));
    assert_eq!(run(&mut vm, "(nope)")[0].as_ref().err(), Some(&EvalError::Unbound));
    assert_eq!(run(&mut vm, "(global 1 2)")[0].as_ref().err(), Some(&EvalError::Malformed));
    run(&mut vm, "(global loop (fn (n) (loop n)))");
    assert_eq!(
        run(&mut vm, "(loop 1)")[0].as_ref().err(),
        Some(&EvalError::DepthExceeded)
    );
    assert_eq!(int_of(&run(&mut vm, "(id 8)")[0]), 8);
}

#[test]
fn literals_evaluate_to_themselves() {
    let mut vm = VM::new();
    let r = run(&mut vm, "5 \"hi\" true null");
    assert_eq!(int_of(&r[0]), 5);
    assert_eq!(r[1].as_ref().unwrap().as_string(), Some("hi".to_string()));
    assert_eq!(r[2].as_ref().unwrap().as_bool(), Some(true));
    assert!(matches!(r[3].as_ref().unwrap(), Data::Null));
    let f = run(&mut vm, "+");
    assert!(f[0].as_ref().unwrap().as_native_function().is_some());
    let m = run(&mut vm, "with");
    assert!(m[0].as_ref().unwrap().as_native_macro().is_some());
}

#[test]
fn lookup_and_scopes() {
    let mut vm = VM::new();
    vm.declare_global("k", Data::Integer(1));
    vm.scope_begin();
    vm.declare_local("k", Data::Integer(2));
    assert_eq!(vm.lookup(&"k".to_string()).unwrap().as_integer(), Some(2));
    vm.scope_end();
    assert_eq!(vm.lookup(&"k".to_string()).unwrap().as_integer(), Some(1));
    assert!(vm.lookup(&"missing".to_string()).is_none());
}

#[test]
fn lookup_mut_changes_the_innermost_binding() {
    let mut vm = VM::new();
    vm.declare_global("k", Data::Integer(1));
    vm.scope_begin();
    vm.declare_local("k", Data::Integer(2));
    *vm.lookup_mut(&"k".to_string()).unwrap() = Data::Integer(20);
    assert_eq!(vm.lookup(&"k".to_string()).unwrap().as_integer(), Some(20));
    vm.scope_end();
    assert_eq!(vm.lookup(&"k".to_string()).unwrap().as_integer(), Some(1));
    *vm.lookup_mut(&"k".to_string()).unwrap() = Data::Integer(10);
    assert_eq!(int_of(&run(&mut vm, "k")[0]), 10);
    assert!(vm.lookup_mut(&"none".to_string()).is_none());
}

#[test]
fn native_functions_directly() {
    let r = lisp_vm::plus(&vec![Data::Integer(2), Data::Integer(40)]);
    assert_eq!(r.unwrap().as_integer(), Some(42));
    let m = lisp_vm::modulo(&vec![Data::Integer(-7), Data::Integer(2)]);
    assert_eq!(m.unwrap().as_integer(), Some(-1));
    let e = lisp_vm::modulo(&vec![Data::Integer(1), Data::Boolean(true)]);
    assert_eq!(e.err(), Some(EvalError::Type));
}

#[test]
fn global_overwrites_silently() {
    let mut vm = VM::new();
    run(&mut vm, "(global v 1) (global v 2)");
    assert_eq!(int_of(&run(&mut vm, "v")[0]), 2);
    let f = run(&mut vm, "(fn (a 1 b) (+ a b))");
    match f[0].as_ref().unwrap() {
        Data::Lambda(ps, _) => assert_eq!(ps, &vec!["a".to_string(), "b".to_string()]),
        _ => panic!("not a closure"),
    }
}

#[test]
fn closures_see_the_caller_scope() {
    let mut vm = VM::new();
    run(&mut vm, "(global f (fn () y))");
    assert_eq!(int_of(&run(&mut vm, "(with (y 3) (f))")[0]), 3);
    assert_eq!(run(&mut vm, "(f)")[0].as_ref().err(), Some(&EvalError::Unbound));
}

#[test]
fn values_display_as_text() {
    let mut vm = VM::new();
    let r = run(&mut vm, "-12 \"hi\" false null + if '(a 1) (fn (x) x)");
    let shown: Vec<String> = r.iter().map(|x| x.as_ref().unwrap().to_text()).collect();
    assert_eq!(
        shown,
        vec![
            "-12",
            "hi",
            "false",
            "<Null>",
            "<Native function>",
            "<Native macro>",
            "<Quote (a 1 )>",
            "<Function>",
        ]
    );
}
