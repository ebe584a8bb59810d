use std::cmp::Ordering;

use pan::env::{DeBruijnPair, Heap};
use pan::ir::{Addr, Completion, Instruction, IrClosure, IrFunction, IrLiteral, Program};
use pan::value::{Bytes, Value};

fn unit(max_args: usize, storage_size: usize, frame_size: usize, code: Vec<Instruction>) -> IrFunction {
    IrFunction { max_args, storage_size, frame_size, code }
}

fn env(up: usize, index: usize) -> Addr {
    Addr::Environment(DeBruijnPair::new(up, index))
}

fn closure_of(prog: &Program, heap: &mut Heap, u: usize, entry: usize) -> IrClosure {
    match prog.materialize(&IrLiteral::Fun(u, entry), heap, 0) {
        Some(Value::Fun(c)) => c,
        _ => panic!("function literal did not materialize"),
    }
}

fn is_int(v: &Value, n: i64) -> bool {
    matches!(v, Value::Int(m) if *m == n)
}

fn string(s: &str) -> Value {
    let chars: Vec<char> = s.chars().collect();
    Value::String(pan::value::Rope::from_chars(&chars))
}

fn lit_str(s: &str) -> IrLiteral {
    IrLiteral::String(s.chars().collect())
}

#[test]
fn debruijn_pair_new_keeps_fields() {
    let p = DeBruijnPair::new(2, 5);
    assert_eq!(p.up, 2);
    assert_eq!(p.index, 5);
}

#[test]
fn bytes_from_slice_copies() {
    let b = Bytes::from_slice(&[1, 2, 255]);
    assert_eq!(b.len(), 3);
    assert_eq!(b.byte_at(0), 1);
    assert_eq!(b.byte_at(2), 255);
    assert_eq!(Bytes::from_slice(&[]).len(), 0);
}

#[test]
fn get_after_set_returns_value() {
    let mut heap = Heap::new(3);
    let a = DeBruijnPair::new(0, 1);
    assert!(heap.set(0, a, Value::Int(7)));
    assert!(is_int(&heap.get(0, a).unwrap(), 7));
    assert!(matches!(heap.get(0, DeBruijnPair::new(0, 0)), Some(Value::Nil)));
}

#[test]
fn set_through_parent_is_seen_by_parent() {
    let mut heap = Heap::new(3);
    let child = heap.child(0, 2);
    assert_eq!(child, 1);
    assert!(heap.set(child, DeBruijnPair::new(1, 2), Value::Bool(true)));
    assert!(matches!(heap.get(0, DeBruijnPair::new(0, 2)), Some(Value::Bool(true))));
    assert!(matches!(heap.get(child, DeBruijnPair::new(0, 1)), Some(Value::Nil)));
}

#[test]
fn invalid_addresses_do_not_resolve() {
    let mut heap = Heap::new(2);
    let child = heap.child(0, 1);
    assert!(heap.get(child, DeBruijnPair::new(2, 0)).is_none());
    assert!(heap.get(child, DeBruijnPair::new(0, 1)).is_none());
    assert!(heap.get(0, DeBruijnPair::new(0, 2)).is_none());
    assert!(!heap.set(child, DeBruijnPair::new(1, 2), Value::Int(1)));
    assert!(heap.get(5, DeBruijnPair::new(0, 0)).is_none());
}

#[test]
fn truthiness() {
    assert!(!Value::nil().truthy());
    assert!(!Value::Bool(false).truthy());
    assert!(Value::Bool(true).truthy());
    assert!(Value::Int(0).truthy());
    assert!(string("").truthy());
    assert!(Value::Array(0).truthy());
}

#[test]
fn map_literal_keeps_last_value_per_key() {
    let prog = Program { units: vec![] };
    let mut heap = Heap::new(0);
    let lit = IrLiteral::MapOf(vec![
        (IrLiteral::Int(1), lit_str("a")),
        (IrLiteral::Int(2), lit_str("b")),
        (IrLiteral::Int(1), lit_str("c")),
    ]);
    let m = match prog.materialize(&lit, &mut heap, 0) {
        Some(Value::MapRef(m)) => m,
        _ => panic!("map literal did not materialize"),
    };
    assert_eq!(heap.map_len(m), Some(2));
    assert!(heap.map_get(m, &Value::Int(1)).unwrap().same(&string("c")));
    assert!(heap.map_get(m, &Value::Int(2)).unwrap().same(&string("b")));
    assert!(heap.map_get(m, &Value::Int(3)).is_none());
}

#[test]
fn set_literal_keeps_one_element_per_key() {
    let prog = Program { units: vec![] };
    let mut heap = Heap::new(0);
    let lit = IrLiteral::SetOf(vec![
        lit_str("x"),
        IrLiteral::Int(2),
        lit_str("x"),
        IrLiteral::Int(2),
        IrLiteral::Nil,
    ]);
    let s = match prog.materialize(&lit, &mut heap, 0) {
        Some(Value::SetRef(s)) => s,
        _ => panic!("set literal did not materialize"),
    };
    assert_eq!(heap.set_len(s), Some(3));
    assert!(heap.set_contains(s, &string("x")));
    assert!(heap.set_contains(s, &Value::Nil));
    assert!(!heap.set_contains(s, &Value::Int(3)));
}

#[test]
fn array_literal_keeps_order_and_nesting() {
    let prog = Program { units: vec![] };
    let mut heap = Heap::new(0);
    let lit = IrLiteral::Array(vec![
        IrLiteral::Int(1),
        IrLiteral::Array(vec![IrLiteral::Char('z')]),
        IrLiteral::Bytes(vec![9, 8]),
        IrLiteral::Float(0x3ff0000000000000),
    ]);
    let a = match prog.materialize(&lit, &mut heap, 0) {
        Some(Value::Array(a)) => a,
        _ => panic!("array literal did not materialize"),
    };
    assert_eq!(heap.array_len(a), Some(4));
    assert!(is_int(&heap.array_get(a, 0).unwrap(), 1));
    let inner = match heap.array_get(a, 1) {
        Some(Value::Array(i)) => i,
        _ => panic!("nested array missing"),
    };
    assert!(matches!(heap.array_get(inner, 0), Some(Value::Char('z'))));
    assert!(matches!(heap.array_get(a, 3), Some(Value::Float(0x3ff0000000000000))));
    match heap.array_get(a, 2) {
        Some(Value::Bytes(b)) => assert_eq!(b.len(), 2),
        _ => panic!("bytes missing"),
    }
}

#[test]
fn function_literal_gets_fresh_child_frame() {
    let prog = Program { units: vec![unit(1, 0, 4, vec![Instruction::Return(env(0, 0))])] };
    let mut heap = Heap::new(1);
    let a = closure_of(&prog, &mut heap, 0, 0);
    let b = closure_of(&prog, &mut heap, 0, 0);
    assert_ne!(a.env, b.env);
    assert_eq!(heap.frame_size(a.env), 4);
    assert!(matches!(heap.get(a.env, DeBruijnPair::new(0, 3)), Some(Value::Nil)));
    assert!(prog.materialize(&IrLiteral::Fun(1, 0), &mut heap, 0).is_none());
}

// A unit whose code throws its first argument.
fn thrower() -> IrFunction {
    unit(1, 0, 1, vec![Instruction::Throw(env(0, 0))])
}

#[test]
fn uncaught_failure_ends_invocation() {
    let caller = unit(0, 2, 1, vec![
        Instruction::Literal(IrLiteral::Fun(0, 0), Addr::Storage(1)),
        Instruction::Literal(IrLiteral::Int(5), Addr::Storage(0)),
        Instruction::Apply { fun: Addr::Storage(1), num_args: 1, dst: Addr::Storage(0), catch: None },
        Instruction::Literal(IrLiteral::Int(99), env(1, 0)),
        Instruction::Return(Addr::Storage(0)),
    ]);
    let prog = Program { units: vec![thrower(), caller] };
    let mut heap = Heap::new(1);
    let c = closure_of(&prog, &mut heap, 1, 0);
    let (r, _) = c.run(&prog, &mut heap, &[], u64::MAX);
    assert!(matches!(r, Completion::Throw(Value::Int(5))));
    assert!(matches!(heap.get(0, DeBruijnPair::new(0, 0)), Some(Value::Nil)));
}

#[test]
fn caught_failure_resumes_at_catch_target() {
    let caller = unit(0, 2, 0, vec![
        Instruction::Literal(IrLiteral::Fun(0, 0), Addr::Storage(1)),
        Instruction::Literal(IrLiteral::Int(5), Addr::Storage(0)),
        Instruction::Apply { fun: Addr::Storage(1), num_args: 1, dst: Addr::Storage(1), catch: Some(5) },
        Instruction::Literal(IrLiteral::Int(99), Addr::Storage(0)),
        Instruction::Return(Addr::Storage(0)),
        Instruction::Return(Addr::Storage(0)),
    ]);
    let prog = Program { units: vec![thrower(), caller] };
    let mut heap = Heap::new(0);
    let c = closure_of(&prog, &mut heap, 1, 0);
    let (r, _) = c.run(&prog, &mut heap, &[], u64::MAX);
    assert!(matches!(r, Completion::Return(Value::Int(5))));
}

#[test]
fn caught_failure_rethrown_with_flag() {
    let caller = unit(0, 2, 0, vec![
        Instruction::Literal(IrLiteral::Fun(0, 0), Addr::Storage(1)),
        Instruction::Literal(lit_str("boom"), Addr::Storage(0)),
        Instruction::Apply { fun: Addr::Storage(1), num_args: 1, dst: Addr::Storage(1), catch: Some(4) },
        Instruction::Return(Addr::Storage(1)),
        Instruction::ThrowFlag,
        Instruction::Return(Addr::Storage(0)),
    ]);
    let prog = Program { units: vec![thrower(), caller] };
    let mut heap = Heap::new(0);
    let c = closure_of(&prog, &mut heap, 1, 0);
    match c.run(&prog, &mut heap, &[], u64::MAX).0 {
        Completion::Throw(v) => assert!(v.same(&string("boom"))),
        _ => panic!("expected a failure"),
    }
}

#[test]
fn throw_ignores_flag_and_catch() {
    let prog = Program { units: vec![unit(1, 1, 1, vec![
        Instruction::ThrowFlag,
        Instruction::Throw(env(0, 0)),
    ])] };
    let mut heap = Heap::new(0);
    let c = closure_of(&prog, &mut heap, 0, 0);
    let (r, left) = c.run(&prog, &mut heap, &[Value::Int(3)], 10);
    assert!(matches!(r, Completion::Throw(Value::Int(3))));
    assert_eq!(left, 8);
}

#[test]
fn return_with_flag_fails() {
    let prog = Program { units: vec![unit(1, 0, 1, vec![
        Instruction::ThrowFlag,
        Instruction::Return(env(0, 0)),
    ])] };
    let mut heap = Heap::new(0);
    let c = closure_of(&prog, &mut heap, 0, 0);
    assert!(matches!(c.run(&prog, &mut heap, &[Value::Char('q')], 10).0, Completion::Throw(Value::Char('q'))));
}

#[test]
fn mutual_tail_calls_run_in_one_invocation() {
    // Two group members at offsets 0 and 1 that call each other in tail position.
    let prog = Program { units: vec![unit(1, 0, 1, vec![Instruction::Jump(1), Instruction::Jump(0)])] };
    let mut heap = Heap::new(0);
    let c = closure_of(&prog, &mut heap, 0, 0);
    let (r, left) = c.run(&prog, &mut heap, &[Value::Int(200_000)], 200_000);
    assert!(matches!(r, Completion::OutOfFuel));
    assert_eq!(left, 0);
}

#[test]
fn tail_call_to_other_member_passes_new_argument() {
    // f (offset 0): if its argument is truthy, tail-call g with false; else return it.
    // g (offset 3): tail-call f with its argument.
    let prog = Program { units: vec![unit(1, 0, 1, vec![
        Instruction::CondJump(env(0, 0), 2),
        Instruction::Return(env(0, 0)),
        Instruction::Literal(IrLiteral::Bool(false), env(0, 0)),
        Instruction::Jump(0),
    ])] };
    let mut heap = Heap::new(0);
    let c = closure_of(&prog, &mut heap, 0, 0);
    let (r, left) = c.run(&prog, &mut heap, &[Value::Int(0)], 100);
    assert!(matches!(r, Completion::Return(Value::Bool(false))));
    assert_eq!(left, 95);
}

#[test]
fn extra_arguments_are_ignored() {
    let prog = Program { units: vec![
        unit(2, 0, 3, vec![Instruction::Return(env(0, 2))]),
        unit(2, 0, 3, vec![Instruction::Return(env(0, 1))]),
        unit(2, 0, 3, vec![Instruction::Return(env(0, 0))]),
    ] };
    let mut heap = Heap::new(0);
    let args = [Value::Int(1), Value::Int(2), Value::Int(3)];
    let c = closure_of(&prog, &mut heap, 0, 0);
    assert!(matches!(c.run(&prog, &mut heap, &args, 10).0, Completion::Return(Value::Nil)));
    let d = closure_of(&prog, &mut heap, 1, 0);
    assert!(matches!(d.run(&prog, &mut heap, &args, 10).0, Completion::Return(Value::Int(2))));
    let e = closure_of(&prog, &mut heap, 2, 0);
    assert!(matches!(e.run(&prog, &mut heap, &args, 10).0, Completion::Return(Value::Int(1))));
}

#[test]
fn throwing_body_fails_with_first_argument() {
    let prog = Program { units: vec![thrower()] };
    let mut heap = Heap::new(0);
    let c = closure_of(&prog, &mut heap, 0, 0);
    for arg in [Value::Int(-4), Value::Nil, Value::Bool(false), string("e"), Value::Float(7)] {
        let (r, _) = c.run(&prog, &mut heap, &[arg.copy()], 10);
        match r {
            Completion::Throw(v) => assert!(v.same(&arg)),
            _ => panic!("expected a failure"),
        }
    }
}

#[test]
fn applying_a_non_function_fails_with_it() {
    let prog = Program { units: vec![] };
    let mut heap = Heap::new(0);
    let (r, left) = Value::Int(4).apply(&prog, &mut heap, &[], 9);
    assert!(matches!(r, Completion::Throw(Value::Int(4))));
    assert_eq!(left, 9);
}

#[test]
fn conditional_jump_on_falsy_and_truthy() {
    let prog = Program { units: vec![unit(1, 1, 1, vec![
        Instruction::CondJump(env(0, 0), 3),
        Instruction::Literal(lit_str("falsy"), Addr::Storage(0)),
        Instruction::Return(Addr::Storage(0)),
        Instruction::Literal(lit_str("truthy"), Addr::Storage(0)),
        Instruction::Return(Addr::Storage(0)),
    ])] };
    let mut heap = Heap::new(0);
    let c = closure_of(&prog, &mut heap, 0, 0);
    let expect = [(Value::Nil, "falsy"), (Value::Bool(false), "falsy"), (Value::Int(0), "truthy"), (string(""), "truthy")];
    for (arg, want) in expect {
        match c.run(&prog, &mut heap, &[arg], 10).0 {
            Completion::Return(v) => assert!(v.same(&string(want))),
            _ => panic!("expected a result"),
        }
    }
}

#[test]
fn sibling_closures_share_enclosing_frame() {
    let prog = Program { units: vec![
        unit(1, 0, 1, vec![
            Instruction::Write { src: env(0, 0), dst: env(1, 0) },
            Instruction::Return(env(0, 0)),
        ]),
        unit(0, 0, 0, vec![Instruction::Return(env(1, 0))]),
    ] };
    let mut heap = Heap::new(1);
    let writer = closure_of(&prog, &mut heap, 0, 0);
    let reader = closure_of(&prog, &mut heap, 1, 0);
    assert!(matches!(reader.run(&prog, &mut heap, &[], 10).0, Completion::Return(Value::Nil)));
    writer.run(&prog, &mut heap, &[Value::Int(42)], 10);
    assert!(matches!(reader.run(&prog, &mut heap, &[], 10).0, Completion::Return(Value::Int(42))));
}

#[test]
fn nested_call_returns_into_destination() {
    // identity returns its argument; the caller stores the result in its frame.
    let prog = Program { units: vec![
        unit(1, 0, 1, vec![Instruction::Return(env(0, 0))]),
        unit(0, 2, 1, vec![
            Instruction::Literal(IrLiteral::Fun(0, 0), Addr::Storage(1)),
            Instruction::Literal(IrLiteral::Int(8), Addr::Storage(0)),
            Instruction::Apply { fun: Addr::Storage(1), num_args: 1, dst: env(0, 0), catch: None },
            Instruction::Return(env(0, 0)),
        ]),
    ] };
    let mut heap = Heap::new(0);
    let c = closure_of(&prog, &mut heap, 1, 0);
    let (r, left) = c.run(&prog, &mut heap, &[], 100);
    assert!(matches!(r, Completion::Return(Value::Int(8))));
    assert_eq!(left, 95);
}

#[test]
fn bad_offsets_and_addresses_fault() {
    let prog = Program { units: vec![
        unit(0, 1, 0, vec![Instruction::Return(Addr::Storage(1))]),
        unit(0, 1, 0, vec![Instruction::Jump(7)]),
        unit(0, 1, 0, vec![Instruction::Write { src: env(3, 0), dst: Addr::Storage(0) }]),
    ] };
    let mut heap = Heap::new(0);
    for u in 0..3 {
        let c = closure_of(&prog, &mut heap, u, 0);
        assert!(matches!(c.run(&prog, &mut heap, &[], 10).0, Completion::Fault));
    }
    let stray = IrClosure { unit: 9, entry: 0, env: 0 };
    assert!(matches!(stray.run(&prog, &mut heap, &[], 10), (Completion::Fault, 10)));
}

#[test]
fn no_fuel_means_no_step() {
    let prog = Program { units: vec![thrower()] };
    let mut heap = Heap::new(0);
    let c = closure_of(&prog, &mut heap, 0, 0);
    assert!(matches!(c.run(&prog, &mut heap, &[Value::Int(1)], 0), (Completion::OutOfFuel, 0)));
}

#[test]
fn float_keys_compare_by_class() {
    let prog = Program { units: vec![] };
    let mut heap = Heap::new(0);
    let lit = IrLiteral::SetOf(vec![
        IrLiteral::Float(0x0000000000000000),
        IrLiteral::Float(0x8000000000000000),
        IrLiteral::Float(0x7ff8000000000000),
        IrLiteral::Float(0xfff0000000000001),
        IrLiteral::Float(0x7ff0000000000000),
        IrLiteral::Float(0x3ff0000000000000),
    ]);
    let s = match prog.materialize(&lit, &mut heap, 0) {
        Some(Value::SetRef(s)) => s,
        _ => panic!("set literal did not materialize"),
    };
    assert_eq!(heap.set_len(s), Some(4));
    assert!(Value::Float(0x8000000000000000).same(&Value::Float(0)));
    assert!(Value::Float(0x7ff0000000000002).same(&Value::Float(0xfff8000000000000)));
    assert!(!Value::Float(0x7ff0000000000000).same(&Value::Float(0xfff0000000000000)));
    assert!(!Value::Float(0x3ff0000000000000).same(&Value::Int(1)));
}

#[test]
fn validate_checks_every_target() {
    let good = Program { units: vec![
        unit(0, 1, 0, vec![
            Instruction::CondJump(Addr::Storage(0), 2),
            Instruction::Jump(0),
            Instruction::Apply { fun: Addr::Storage(0), num_args: 0, dst: Addr::Storage(0), catch: Some(1) },
        ]),
    ] };
    assert!(good.validate());
    let bad_catch = Program { units: vec![
        unit(0, 1, 0, vec![Instruction::Return(Addr::Storage(0))]),
        unit(0, 1, 0, vec![
            Instruction::Apply { fun: Addr::Storage(0), num_args: 0, dst: Addr::Storage(0), catch: Some(1) },
        ]),
    ] };
    assert!(!bad_catch.validate());
    let bad_jump = Program { units: vec![unit(0, 0, 0, vec![Instruction::Jump(1)])] };
    assert!(!bad_jump.validate());
    assert!(Program { units: vec![] }.validate());
}

#[test]
fn order_ranks_variants_then_contents() {
    assert_eq!(Value::Nil.compare(&Value::Bool(false)), Ordering::Less);
    assert_eq!(Value::Int(100).compare(&Value::Float(0)), Ordering::Less);
    assert_eq!(string("a").compare(&Value::Char('z')), Ordering::Greater);
    assert_eq!(Value::Bool(true).compare(&Value::Bool(false)), Ordering::Greater);
    assert_eq!(Value::Int(-3).compare(&Value::Int(2)), Ordering::Less);
    assert_eq!(Value::Char('a').compare(&Value::Char('b')), Ordering::Less);
    assert_eq!(string("ab").compare(&string("abc")), Ordering::Less);
    assert_eq!(string("b").compare(&string("abc")), Ordering::Greater);
    assert_eq!(string("abc").compare(&string("abc")), Ordering::Equal);
    let b1 = Value::Bytes(Bytes::from_slice(&[1, 2]));
    let b2 = Value::Bytes(Bytes::from_slice(&[1, 3]));
    assert_eq!(b1.compare(&b2), Ordering::Less);
    let f = |unit, entry, env| Value::Fun(IrClosure { unit, entry, env });
    assert_eq!(f(1, 0, 5).compare(&f(1, 2, 0)), Ordering::Less);
    assert_eq!(f(1, 2, 7).compare(&f(1, 2, 7)), Ordering::Equal);
    assert_eq!(Value::Array(3).compare(&Value::SetRef(0)), Ordering::Less);
}

#[test]
fn float_order_is_total() {
    let neg_inf = Value::Float(0xfff0000000000000);
    let neg_one = Value::Float(0xbff0000000000000);
    let neg_zero = Value::Float(0x8000000000000000);
    let zero = Value::Float(0);
    let one = Value::Float(0x3ff0000000000000);
    let inf = Value::Float(0x7ff0000000000000);
    let nan = Value::Float(0x7ff8000000000000);
    let other_nan = Value::Float(0xfff0000000000001);
    assert_eq!(neg_inf.compare(&neg_one), Ordering::Less);
    assert_eq!(neg_one.compare(&neg_zero), Ordering::Less);
    assert_eq!(neg_zero.compare(&zero), Ordering::Equal);
    assert_eq!(zero.compare(&one), Ordering::Less);
    assert_eq!(one.compare(&inf), Ordering::Less);
    assert_eq!(inf.compare(&nan), Ordering::Less);
    assert_eq!(nan.compare(&other_nan), Ordering::Equal);
    assert_eq!(other_nan.compare(&neg_inf), Ordering::Greater);
}

#[test]
fn nested_call_of_same_closure_keeps_own_arguments() {
    // f(x): if x is truthy, call f(false) through the enclosing binding, then return x.
    let prog = Program { units: vec![unit(1, 2, 1, vec![
        Instruction::CondJump(env(0, 0), 2),
        Instruction::Return(env(0, 0)),
        Instruction::Write { src: env(1, 0), dst: Addr::Storage(1) },
        Instruction::Literal(IrLiteral::Bool(false), Addr::Storage(0)),
        Instruction::Apply { fun: Addr::Storage(1), num_args: 1, dst: Addr::Storage(1), catch: None },
        Instruction::Return(env(0, 0)),
    ])] };
    let mut heap = Heap::new(1);
    let c = closure_of(&prog, &mut heap, 0, 0);
    assert!(heap.set(0, DeBruijnPair::new(0, 0), Value::Fun(c)));
    let (r, _) = c.run(&prog, &mut heap, &[Value::Bool(true)], 100);
    assert!(matches!(r, Completion::Return(Value::Bool(true))));
}

#[test]
fn each_invocation_starts_with_fresh_frame() {
    // Returns slot 1, then sets it; a later call sees nothing there again.
    let prog = Program { units: vec![unit(0, 0, 2, vec![
        Instruction::Write { src: env(0, 1), dst: env(1, 0) },
        Instruction::Literal(IrLiteral::Int(6), env(0, 1)),
        Instruction::Return(env(1, 0)),
    ])] };
    let mut heap = Heap::new(1);
    let c = closure_of(&prog, &mut heap, 0, 0);
    assert!(matches!(c.run(&prog, &mut heap, &[], 10).0, Completion::Return(Value::Nil)));
    assert!(matches!(c.run(&prog, &mut heap, &[], 10).0, Completion::Return(Value::Nil)));
}
