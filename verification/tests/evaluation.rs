use rlisp::ast::{ASTNode, ASTValue};
use rlisp::execution::{NativeHost, build_call_frame, evaluate, execute, execute_expression, finish_call};
use rlisp::lexer::tokenify;
use rlisp::parser::parse;
use rlisp::rustapi::{get_number, get_string, push_return};
use rlisp::stdlib::{
    HANDLE_DIVIDE, HANDLE_MINUS, HANDLE_PLUS, HANDLE_PRINT, HANDLE_TIMES, make_scope, put_function,
};
use rlisp::types::{
    EvalError, FunctionEnv, Interp, Value, child_scope, new_object, obj_at, obj_get, resolve,
};

/// The starter library as a host: IEEE-double arithmetic and a `print`
/// that captures its output for inspection.
struct TestHost {
    printed: Vec<String>,
}

fn format_f64(x: f64) -> String {
    format!("{}", x)
}

impl NativeHost for TestHost {
    fn call(&mut self, handle: u32, frame: &mut FunctionEnv) -> Result<(), EvalError> {
        if handle == HANDLE_PRINT {
            let s = get_string(frame, 1)?;
            self.printed.push(format!("{}\n", s));
            return Ok(());
        }
        let a: f64 = get_number(frame, 1)?.parse().map_err(|_| EvalError::TypeMismatch)?;
        let b: f64 = get_number(frame, 2)?.parse().map_err(|_| EvalError::TypeMismatch)?;
        let r = if handle == HANDLE_PLUS {
            a + b
        } else if handle == HANDLE_MINUS {
            a - b
        } else if handle == HANDLE_TIMES {
            a * b
        } else if handle == HANDLE_DIVIDE {
            a / b
        } else {
            return Err(EvalError::NotCallable);
        };
        push_return(frame, Value::Number(format_f64(r)));
        Ok(())
    }
}

fn run(src: &str) -> (Result<Value, EvalError>, TestHost, Interp, usize) {
    let toks = tokenify(src);
    let ast = parse(toks).expect("program should parse");
    let (mut env, root) = make_scope();
    let mut host = TestHost { printed: Vec::new() };
    let r = execute(&mut env, &mut host, root, &ast);
    (r, host, env, root)
}

fn num_text(v: &Value) -> &str {
    match v {
        Value::Number(t) => t,
        other => panic!("expected a number, got {}", kind_name(other)),
    }
}

fn kind_name(v: &Value) -> &'static str {
    match v {
        Value::Nil => "nil",
        Value::False => "false",
        Value::True => "true",
        Value::Number(_) => "number",
        Value::Object(_) => "object",
        Value::String(_) => "string",
        Value::Function(_) => "function",
        Value::ForeignFunction(_) => "foreign function",
        Value::ForeignObject(_) => "foreign object",
    }
}

#[test]
fn arithmetic_natives_follow_ieee_semantics() {
    // For all numeric a, b the four operators compute under f64 semantics;
    // exact expected values for representative pairs.
    let cases = [
        ("(+ 1 2)", 1.0 + 2.0),
        ("(- 1 2)", 1.0 - 2.0),
        ("(* 3 4)", 3.0 * 4.0),
        ("(/ 7 2)", 7.0 / 2.0),
        ("(+ 1.5 .5)", 1.5 + 0.5),
        ("(- 2 5.25)", 2.0 - 5.25),
    ];
    for (src, expected) in cases {
        let (r, _, _, _) = run(src);
        let v = r.unwrap();
        let got: f64 = num_text(&v).parse().unwrap();
        assert_eq!(got, expected, "{}", src);
    }
    // Division by zero yields an infinity, not an error.
    let (r, _, _, _) = run("(/ 1 0)");
    let got: f64 = num_text(&r.unwrap()).parse().unwrap();
    assert!(got.is_infinite() && got > 0.0);
}

#[test]
fn nested_expression_composition() {
    let (r, _, _, _) = run("(+ 1 (+ 2 3))");
    let got: f64 = num_text(&r.unwrap()).parse().unwrap();
    assert_eq!(got, 6.0);
}

#[test]
fn print_writes_line_and_returns_nil() {
    let (r, host, _, _) = run("(print \"hello\")");
    assert!(matches!(r.unwrap(), Value::Nil));
    assert_eq!(host.printed, vec!["hello\n".to_string()]);
}

#[test]
fn print_of_computed_argument() {
    // Arguments are evaluated before the call; printing a resolved string.
    let toks = tokenify("(print greeting)");
    let ast = parse(toks).unwrap();
    let (mut env, root) = make_scope();
    let assign = ASTNode::Equals("greeting".to_string(), ASTValue::String("hi".to_string()));
    let mut host = TestHost { printed: Vec::new() };
    evaluate(&mut env, &mut host, root, &assign).unwrap();
    let r = execute(&mut env, &mut host, root, &ast);
    assert!(matches!(r.unwrap(), Value::Nil));
    assert_eq!(host.printed, vec!["hi\n".to_string()]);
}

#[test]
fn assignment_binds_and_yields_value() {
    let (mut env, root) = make_scope();
    let mut host = TestHost { printed: Vec::new() };
    let assign = ASTNode::Equals("x".to_string(), ASTValue::Number("2".to_string()));
    let r = evaluate(&mut env, &mut host, root, &assign).unwrap();
    assert_eq!(num_text(&r), "2");
    // Resolving `x` in the same scope yields Number(2).
    let v = resolve(&env, root, &"x".to_string()).unwrap();
    assert_eq!(num_text(&v), "2");
    let v2 = evaluate(&mut env, &mut host, root, &ASTNode::Id("x".to_string())).unwrap();
    assert_eq!(num_text(&v2), "2");
}

#[test]
fn assignment_in_sibling_scope_is_not_visible() {
    let (mut env, root) = make_scope();
    let mut host = TestHost { printed: Vec::new() };
    let scope_a = child_scope(&mut env, root);
    let scope_b = child_scope(&mut env, root);
    let assign = ASTNode::Equals("x".to_string(), ASTValue::Number("2".to_string()));
    evaluate(&mut env, &mut host, scope_a, &assign).unwrap();
    // Visible where it was bound ...
    assert_eq!(num_text(&resolve(&env, scope_a, &"x".to_string()).unwrap()), "2");
    // ... but a sibling scope that does not descend from it fails with
    // UnboundName, never a silent Nil.
    match resolve(&env, scope_b, &"x".to_string()) {
        Err(EvalError::UnboundName(n)) => assert_eq!(n, "x"),
        other => panic!("expected unbound name, got {:?}", other.is_ok()),
    }
}

#[test]
fn assignment_shadows_outer_binding_without_mutating_it() {
    let (mut env, root) = make_scope();
    let mut host = TestHost { printed: Vec::new() };
    let outer = ASTNode::Equals("x".to_string(), num_rhs("1"));
    evaluate(&mut env, &mut host, root, &outer).unwrap();
    let child = child_scope(&mut env, root);
    let inner = ASTNode::Equals("x".to_string(), num_rhs("9"));
    evaluate(&mut env, &mut host, child, &inner).unwrap();
    assert_eq!(num_text(&resolve(&env, child, &"x".to_string()).unwrap()), "9");
    // The ancestor's binding is untouched.
    assert_eq!(num_text(&resolve(&env, root, &"x".to_string()).unwrap()), "1");
}

fn num_rhs(t: &str) -> ASTValue {
    ASTValue::Number(t.to_string())
}

#[test]
fn unbound_identifier_fails_with_unbound_name() {
    let (mut env, root) = make_scope();
    let mut host = TestHost { printed: Vec::new() };
    match evaluate(&mut env, &mut host, root, &ASTNode::Id("nowhere".to_string())) {
        Err(EvalError::UnboundName(n)) => assert_eq!(n, "nowhere"),
        _ => panic!("expected unbound name"),
    }
}

#[test]
fn calling_a_non_function_fails_with_not_callable() {
    let (mut env, root) = make_scope();
    let mut host = TestHost { printed: Vec::new() };
    let bind = ASTNode::Equals("x".to_string(), num_rhs("1"));
    evaluate(&mut env, &mut host, root, &bind).unwrap();
    let ast = parse(tokenify("(x 2)")).unwrap();
    let r = execute(&mut env, &mut host, root, &ast);
    assert!(matches!(r, Err(EvalError::NotCallable)));
    let (r2, _, _, _) = run("(1 2)");
    assert!(matches!(r2, Err(EvalError::NotCallable)));
}

#[test]
fn empty_form_yields_nil() {
    let (r, _, _, _) = run("()");
    assert!(matches!(r.unwrap(), Value::Nil));
}

#[test]
fn empty_program_yields_nil() {
    let toks = tokenify("");
    let ast = parse(toks).unwrap();
    let (mut env, root) = make_scope();
    let mut host = TestHost { printed: Vec::new() };
    let r = execute(&mut env, &mut host, root, &ast);
    assert!(matches!(r.unwrap(), Value::Nil));
}

#[test]
fn execute_runs_forms_in_order_and_returns_last() {
    let (r, host, _, _) = run("(print 'a')\n(print 'b')\n(+ 1 1)");
    assert_eq!(num_text(&r.unwrap()), "2");
    assert_eq!(host.printed, vec!["a\n".to_string(), "b\n".to_string()]);
}

#[test]
fn execute_expression_builds_frame_and_calls_host() {
    let toks = tokenify("(+ 20 22)");
    let ast = parse(toks).unwrap();
    let children = match ast.into_iter().next().unwrap() {
        ASTNode::Expression(items) => items,
        _ => panic!("expected expression"),
    };
    let (mut env, root) = make_scope();
    let mut host = TestHost { printed: Vec::new() };
    let r = execute_expression(&mut env, &mut host, root, &children).unwrap();
    assert_eq!(num_text(&r), "42");
}

#[test]
fn native_argument_accessors_are_typed() {
    let frame = FunctionEnv {
        scope: 0,
        stack: vec![
            Value::ForeignFunction(0),
            Value::Number("7".to_string()),
            Value::String("s".to_string()),
        ],
        retval: Value::Nil,
    };
    assert_eq!(get_number(&frame, 1).unwrap(), "7");
    assert_eq!(get_string(&frame, 2).unwrap(), "s");
    assert!(matches!(get_number(&frame, 2), Err(EvalError::TypeMismatch)));
    assert!(matches!(get_string(&frame, 1), Err(EvalError::TypeMismatch)));
    // The bound check is inclusive: index == stack length is already out
    // of range, not just index > length.
    assert!(matches!(get_number(&frame, 3), Err(EvalError::IndexOutOfRange)));
    assert!(matches!(get_string(&frame, 4), Err(EvalError::IndexOutOfRange)));
}

#[test]
fn push_return_overwrites_return_slot_only() {
    let mut frame = FunctionEnv { scope: 3, stack: vec![Value::True], retval: Value::Nil };
    push_return(&mut frame, Value::Number("1".to_string()));
    assert_eq!(num_text(&frame.retval), "1");
    assert_eq!(frame.scope, 3);
    assert_eq!(frame.stack.len(), 1);
}

#[test]
fn value_accessors_are_typed() {
    let n = Value::Number("2".to_string());
    let s = Value::String("t".to_string());
    assert_eq!(n.get_number().unwrap(), "2");
    assert_eq!(s.get_string().unwrap(), "t");
    assert!(matches!(s.get_number(), Err(EvalError::TypeMismatch)));
    assert!(matches!(n.get_string(), Err(EvalError::TypeMismatch)));
    assert!(matches!(n.get_object(), Err(EvalError::TypeMismatch)));
    assert!(Value::ForeignFunction(0).is_func());
    assert!(Value::Function(0).is_func());
    assert!(!Value::Nil.is_func());
}

#[test]
fn object_tables_share_mutation_across_aliases() {
    let (mut env, _root) = make_scope();
    let h = new_object(&mut env);
    let alias_a = Value::Object(h);
    let alias_b = Value::Object(h);
    alias_a.put(&mut env, "k".to_string(), Value::Number("5".to_string())).unwrap();
    // Mutation through one alias is visible through the other.
    let got = obj_get(&env, alias_b.get_object().unwrap(), &"k".to_string()).unwrap();
    assert_eq!(num_text(&got), "5");
    // An absent key reads as Nil; iteration sees the one entry.
    assert!(matches!(obj_get(&env, h, &"absent".to_string()).unwrap(), Value::Nil));
    let (k, v) = obj_at(&env, h, 0).unwrap();
    assert_eq!(k, "k");
    assert_eq!(num_text(&v), "5");
    assert!(matches!(obj_at(&env, h, 1), Err(EvalError::IndexOutOfRange)));
    // put on a non-object is a type mismatch.
    assert!(matches!(
        Value::Nil.put(&mut env, "k".to_string(), Value::Nil),
        Err(EvalError::TypeMismatch)
    ));
}

#[test]
fn object_put_with_equal_key_overwrites_in_place() {
    let (mut env, _root) = make_scope();
    let h = new_object(&mut env);
    let obj = Value::Object(h);
    obj.put(&mut env, "k".to_string(), Value::Number("1".to_string())).unwrap();
    obj.put(&mut env, "k".to_string(), Value::Number("2".to_string())).unwrap();
    // The latest write for a key wins ...
    let got = obj_get(&env, h, &"k".to_string()).unwrap();
    assert_eq!(num_text(&got), "2");
    // ... and the table keeps one entry per key, so iteration never sees
    // the stale value.
    let (k0, v0) = obj_at(&env, h, 0).unwrap();
    assert_eq!(k0, "k");
    assert_eq!(num_text(&v0), "2");
    assert!(matches!(obj_at(&env, h, 1), Err(EvalError::IndexOutOfRange)));
}

#[test]
fn execute_two_form_program_assign_then_resolve() {
    // A two-form program: bind x to 2, then resolve x. The program's
    // value is the bound number, and the binding persists.
    let (mut env, root) = make_scope();
    let mut host = TestHost { printed: Vec::new() };
    let program = vec![
        ASTNode::Equals("x".to_string(), ASTValue::Number("2".to_string())),
        ASTNode::Id("x".to_string()),
    ];
    let r = execute(&mut env, &mut host, root, &program).unwrap();
    assert_eq!(num_text(&r), "2");
    assert_eq!(num_text(&resolve(&env, root, &"x".to_string()).unwrap()), "2");
}

/// A host that records the frame it is handed: handle, stack, the return
/// slot at entry, and the frame's scope handle.
struct RecordingHost {
    handle: Option<u32>,
    stack: Vec<Value>,
    retval_at_entry: Option<Value>,
    frame_scope: Option<usize>,
}

impl NativeHost for RecordingHost {
    fn call(&mut self, handle: u32, frame: &mut FunctionEnv) -> Result<(), EvalError> {
        self.handle = Some(handle);
        self.stack = frame.stack.clone();
        self.retval_at_entry = Some(frame.retval.clone());
        self.frame_scope = Some(frame.scope);
        push_return(frame, Value::Number("42".to_string()));
        Ok(())
    }
}

#[test]
fn call_frame_layout_follows_the_convention() {
    let toks = tokenify("(+ 20 22)");
    let ast = parse(toks).unwrap();
    let (mut env, root) = make_scope();
    let mut host = RecordingHost {
        handle: None,
        stack: Vec::new(),
        retval_at_entry: None,
        frame_scope: None,
    };
    let r = execute(&mut env, &mut host, root, &ast).unwrap();
    // The call's result is exactly the frame's return slot after the one
    // invocation.
    assert_eq!(num_text(&r), "42");
    // Slot 0 holds the resolved callee, user arguments start at slot 1,
    // in left-to-right order.
    assert_eq!(host.handle, Some(HANDLE_PLUS));
    assert_eq!(host.stack.len(), 3);
    assert!(matches!(host.stack[0], Value::ForeignFunction(h) if h == HANDLE_PLUS));
    assert_eq!(num_text(&host.stack[1]), "20");
    assert_eq!(num_text(&host.stack[2]), "22");
    // The return slot starts as Nil.
    assert!(matches!(host.retval_at_entry, Some(Value::Nil)));
    // The frame's scope is a fresh child of the caller's scope with an
    // empty local table.
    let fs = host.frame_scope.unwrap();
    assert_eq!(env.scopes[fs].parent, Some(root));
    assert!(env.scopes[fs].local.is_empty());
}

#[test]
fn build_call_frame_produces_convention_frame() {
    let toks = tokenify("(+ 1 2)");
    let ast = parse(toks).unwrap();
    let children = match ast.into_iter().next().unwrap() {
        ASTNode::Expression(items) => items,
        _ => panic!("expected expression"),
    };
    let (mut env, root) = make_scope();
    let mut host = TestHost { printed: Vec::new() };
    let (frame, handle) = build_call_frame(&mut env, &mut host, root, &children).unwrap();
    assert_eq!(handle, HANDLE_PLUS);
    assert_eq!(frame.stack.len(), 3);
    assert!(matches!(frame.stack[0], Value::ForeignFunction(h) if h == HANDLE_PLUS));
    assert_eq!(num_text(&frame.stack[1]), "1");
    assert_eq!(num_text(&frame.stack[2]), "2");
    assert!(matches!(frame.retval, Value::Nil));
    assert_eq!(env.scopes[frame.scope].parent, Some(root));
    assert!(env.scopes[frame.scope].local.is_empty());
    // A successful native call's result is exactly the return slot.
    let r = finish_call(frame, Ok(())).unwrap();
    assert!(matches!(r, Value::Nil));
}

#[test]
fn arguments_evaluate_left_to_right() {
    // The first argument binds x as a side effect; the second resolves
    // it. Right-to-left evaluation would fail with UnboundName instead.
    let (r, _, _, _) = run("(+ = x 1 x)");
    assert_eq!(num_text(&r.unwrap()), "2");
}

#[test]
fn make_scope_registers_starter_library() {
    let (env, root) = make_scope();
    for (name, handle) in [
        ("+", HANDLE_PLUS),
        ("-", HANDLE_MINUS),
        ("*", HANDLE_TIMES),
        ("/", HANDLE_DIVIDE),
        ("print", HANDLE_PRINT),
    ] {
        match resolve(&env, root, &name.to_string()).unwrap() {
            Value::ForeignFunction(h) => assert_eq!(h, handle),
            _ => panic!("expected a native function for {}", name),
        }
    }
}

#[test]
fn put_function_registers_under_name() {
    let (mut env, root) = make_scope();
    put_function(&mut env, root, "twice", 9);
    match resolve(&env, root, &"twice".to_string()).unwrap() {
        Value::ForeignFunction(h) => assert_eq!(h, 9),
        _ => panic!("expected a native function"),
    }
}

#[test]
fn native_error_is_attributed_to_the_call() {
    // `print` demands a string argument: a number there surfaces as a
    // TypeMismatch result, not a crash.
    let (r, host, _, _) = run("(print 5)");
    assert!(matches!(r, Err(EvalError::TypeMismatch)));
    assert!(host.printed.is_empty());
}

#[test]
fn assignment_as_subexpression_side_effect_persists() {
    // `(= x 2)` evaluated as a whole form performs the binding while the
    // form itself then fails to call the assigned value.
    let (r, _host, env, root) = run("(= x 2)");
    assert!(matches!(r, Err(EvalError::NotCallable)));
    assert_eq!(num_text(&resolve(&env, root, &"x".to_string()).unwrap()), "2");
}
