use kaleidoscope::codegen::Codegen;
use kaleidoscope::driver::{Action, Session};
use kaleidoscope::ir::{Inst, Module, PrototypeRegistry};
use kaleidoscope::lexer::Lexer;
use kaleidoscope::parser::{ExprAST, FunctionAST, Parser, PrototypeAST};
use kaleidoscope::Either;

fn parser(input: &str) -> Parser {
    let mut p = Parser::new(Lexer::new(input.chars().collect()));
    p.get_next_token();
    p
}

fn def(src: &str) -> FunctionAST {
    parser(src).parse_definition().unwrap()
}

fn ext(src: &str) -> PrototypeAST {
    parser(src).parse_extern().unwrap()
}

fn compile_def(module: &mut Module, reg: &mut PrototypeRegistry, src: &str) -> Result<usize, String> {
    let f = def(src);
    Codegen::compile(module, reg, Either::B(&f))
}

/// The instructions of the body of function `f`.
fn values(module: &Module, f: usize) -> &Vec<Inst> {
    &module.functions[f].body.as_ref().unwrap().values
}

fn returned(module: &Module, f: usize) -> usize {
    match values(module, f).last() {
        Some(Inst::Ret(v)) => *v,
        other => panic!("expected a return, got {:?}", other),
    }
}

#[test]
fn extern_compiled_twice_succeeds() {
    let mut module = Module::new();
    let mut reg = PrototypeRegistry::new();
    let proto = ext("extern sin(x)");
    let a = Codegen::compile(&mut module, &mut reg, Either::A(&proto));
    let b = Codegen::compile(&mut module, &mut reg, Either::A(&proto));
    assert_eq!(a, Ok(0));
    assert_eq!(b, Ok(0));
    assert_eq!(module.functions.len(), 1);
    assert!(module.functions[0].body.is_none());
}

#[test]
fn extern_is_registered_for_later_units() {
    let mut module = Module::new();
    let mut reg = PrototypeRegistry::new();
    let proto = ext("extern sin(x)");
    Codegen::compile(&mut module, &mut reg, Either::A(&proto)).unwrap();
    assert_eq!(*reg.lookup(&"sin".to_string()).unwrap(), proto);
    let mut fresh = Module::new();
    assert_eq!(compile_def(&mut fresh, &mut reg, "def f(y) sin(y)"), Ok(0));
    assert_eq!(fresh.functions[1].name, "sin");
}

#[test]
fn definition_twice_in_one_unit_fails() {
    let mut module = Module::new();
    let mut reg = PrototypeRegistry::new();
    assert_eq!(compile_def(&mut module, &mut reg, "def foo(x) x + 1"), Ok(0));
    assert_eq!(
        compile_def(&mut module, &mut reg, "def foo(x) x * 2"),
        Err("function cannot be redefined".to_string())
    );
}

#[test]
fn definition_again_in_fresh_unit_succeeds() {
    let mut reg = PrototypeRegistry::new();
    let mut first = Module::new();
    assert_eq!(compile_def(&mut first, &mut reg, "def foo(x) x + 1"), Ok(0));
    let mut second = Module::new();
    assert_eq!(compile_def(&mut second, &mut reg, "def foo(x) x * 2"), Ok(0));
    let v = returned(&second, 0);
    assert!(matches!(values(&second, 0)[v], Inst::FMul(_, _)));
}

#[test]
fn call_of_unknown_function_fails() {
    let mut module = Module::new();
    let mut reg = PrototypeRegistry::new();
    assert_eq!(
        compile_def(&mut module, &mut reg, "def f(x) g(x)"),
        Err("unknown function referenced".to_string())
    );
    // The prototype stays registered, the declaration stays without a body.
    assert!(reg.lookup(&"f".to_string()).is_some());
    assert!(module.functions[0].body.is_none());
}

#[test]
fn call_with_wrong_argument_count_fails() {
    let mut module = Module::new();
    let mut reg = PrototypeRegistry::new();
    let proto = ext("extern g(a b)");
    Codegen::compile(&mut module, &mut reg, Either::A(&proto)).unwrap();
    assert_eq!(
        compile_def(&mut module, &mut reg, "def f(x) g(x)"),
        Err("incorrect number of arguments".to_string())
    );
}

#[test]
fn call_declares_registered_function_in_new_unit() {
    let mut reg = PrototypeRegistry::new();
    let mut first = Module::new();
    compile_def(&mut first, &mut reg, "def g(a b) a - b").unwrap();
    let mut second = Module::new();
    let f = compile_def(&mut second, &mut reg, "def f(x) g(x, 2)").unwrap();
    assert_eq!(f, 0);
    assert_eq!(second.functions.len(), 2);
    assert_eq!(second.functions[1].name, "g");
    assert_eq!(second.functions[1].params, vec!["a".to_string(), "b".to_string()]);
    let v = returned(&second, f);
    match &values(&second, f)[v] {
        Inst::Call(callee, args) => {
            assert_eq!(*callee, 1);
            assert_eq!(args.len(), 2);
        }
        other => panic!("expected a call, got {:?}", other),
    }
}

#[test]
fn recursive_call_resolves_to_itself() {
    let mut module = Module::new();
    let mut reg = PrototypeRegistry::new();
    let f = compile_def(&mut module, &mut reg, "def fib(x) if x < 3 then 1 else fib(x-1)+fib(x-2)")
        .unwrap();
    assert_eq!(module.functions.len(), 1);
    let v = returned(&module, f);
    match &values(&module, f)[v] {
        Inst::Phi(incoming) => assert_eq!(incoming.len(), 2),
        other => panic!("expected a merge node, got {:?}", other),
    }
}

#[test]
fn unknown_variable_fails() {
    let mut module = Module::new();
    let mut reg = PrototypeRegistry::new();
    assert_eq!(
        compile_def(&mut module, &mut reg, "def f(x) y"),
        Err("unknown variable name".to_string())
    );
    let mut module = Module::new();
    assert_eq!(
        compile_def(&mut module, &mut reg, "def h(x) (for i = 1, i < 3 in i) + i"),
        Err("unknown variable name".to_string())
    );
}

#[test]
fn invalid_binary_operator_fails() {
    let mut module = Module::new();
    let mut reg = PrototypeRegistry::new();
    let body = ExprAST::Binary(
        '/',
        Box::new(ExprAST::Number("1".into())),
        Box::new(ExprAST::Number("2".into())),
    );
    let f = FunctionAST(PrototypeAST("f".into(), vec![]), body);
    assert_eq!(
        Codegen::compile(&mut module, &mut reg, Either::B(&f)),
        Err("invalid binary operator".to_string())
    );
}

#[test]
fn for_loop_value_is_zero() {
    let mut module = Module::new();
    let mut reg = PrototypeRegistry::new();
    let f = compile_def(&mut module, &mut reg, "def f(n) for i = 1, i < n, 2 in n * i").unwrap();
    let v = returned(&module, f);
    match &values(&module, f)[v] {
        Inst::Const(text) => assert_eq!(text.parse::<f64>().unwrap(), 0.0),
        other => panic!("expected a constant, got {:?}", other),
    }
}

#[test]
fn loop_variable_shadows_parameter_then_restores_it() {
    let mut module = Module::new();
    let mut reg = PrototypeRegistry::new();
    let f = compile_def(&mut module, &mut reg, "def f(i) (for i = 1, i < 10 in i) + i").unwrap();
    let vals = values(&module, f);
    // The parameter is value 0.
    assert!(matches!(vals[0], Inst::Arg(0)));
    // Inside the loop `i` is the merge node.
    let cmp = vals
        .iter()
        .find_map(|inst| match inst {
            Inst::FCmpUlt(l, _) => Some(*l),
            _ => None,
        })
        .unwrap();
    assert!(matches!(vals[cmp], Inst::Phi(_)));
    // After the loop `i` is the parameter again.
    let v = returned(&module, f);
    match &vals[v] {
        Inst::FAdd(_, r) => assert_eq!(*r, 0),
        other => panic!("expected an addition, got {:?}", other),
    }
}

#[test]
fn less_than_is_widened_to_a_number() {
    let mut module = Module::new();
    let mut reg = PrototypeRegistry::new();
    let f = compile_def(&mut module, &mut reg, "def lt(a b) a < b").unwrap();
    let vals = values(&module, f);
    let v = returned(&module, f);
    match &vals[v] {
        Inst::UiToFp(c) => assert!(matches!(vals[*c], Inst::FCmpUlt(0, 1))),
        other => panic!("expected a widening, got {:?}", other),
    }
}

#[test]
fn if_builds_three_blocks_and_a_merge() {
    let mut module = Module::new();
    let mut reg = PrototypeRegistry::new();
    let f = compile_def(&mut module, &mut reg, "def f(x) if x then 2 else 3").unwrap();
    let body = module.functions[f].body.as_ref().unwrap();
    // entry, then, else, merge
    assert_eq!(body.layout, vec![0, 1, 2, 3]);
    let v = returned(&module, f);
    match &body.values[v] {
        Inst::Phi(incoming) => {
            assert_eq!(incoming[0].1, 1);
            assert_eq!(incoming[1].1, 2);
        }
        other => panic!("expected a merge node, got {:?}", other),
    }
}

#[test]
fn registry_later_declaration_wins() {
    let mut reg = PrototypeRegistry::new();
    reg.declare(PrototypeAST("f".into(), vec!["a".into()]));
    reg.declare(PrototypeAST("g".into(), vec![]));
    reg.declare(PrototypeAST("f".into(), vec!["a".into(), "b".into()]));
    assert_eq!(reg.lookup(&"f".to_string()).unwrap().1.len(), 2);
    assert_eq!(reg.lookup(&"g".to_string()).unwrap().1.len(), 0);
    assert!(reg.lookup(&"h".to_string()).is_none());
}

fn session(src: &str) -> Session {
    Session::new(parser(src))
}

#[test]
fn session_handles_each_kind_of_construct() {
    let mut s = session("extern sin(x); def foo(a) sin(a) * 2; foo(1) ; ) 4");
    match s.step() {
        Action::Declare { func } => assert_eq!(func, 0),
        _ => panic!("expected a declaration"),
    }
    assert!(matches!(s.step(), Action::Skipped));
    match s.step() {
        Action::Define { name, unit, func } => {
            assert_eq!(name, "foo");
            assert_eq!(unit.functions[func].name, "foo");
            // The unit holds the declaration of `sin` made before.
            assert_eq!(unit.functions[0].name, "sin");
        }
        _ => panic!("expected a definition"),
    }
    assert!(matches!(s.step(), Action::Skipped));
    match s.step() {
        Action::Evaluate { unit, func } => {
            assert_eq!(unit.functions[func].name, "__anon_expr");
            // `foo` comes from the registry into the fresh unit.
            assert!(unit.functions.iter().any(|f| f.name == "foo" && f.body.is_none()));
        }
        _ => panic!("expected an evaluation"),
    }
    assert!(matches!(s.step(), Action::Skipped));
    match s.step() {
        Action::ParseError(m) => assert_eq!(m, "unknown token when expecting an expression"),
        _ => panic!("expected a parse error"),
    }
    assert!(matches!(s.step(), Action::Evaluate { .. }));
    assert!(matches!(s.step(), Action::Done));
    assert!(matches!(s.step(), Action::Done));
}

#[test]
fn session_reports_codegen_errors() {
    let mut s = session("def f(x) y");
    match s.step() {
        Action::CodegenError(m) => assert_eq!(m, "unknown variable name"),
        _ => panic!("expected a code generation error"),
    }
    assert!(matches!(s.step(), Action::Done));
}

#[test]
fn unit_lookup_finds_first_declaration() {
    let mut module = Module::new();
    let mut reg = PrototypeRegistry::new();
    let a = ext("extern a()");
    let b = ext("extern b(x)");
    assert_eq!(Codegen::compile(&mut module, &mut reg, Either::A(&a)), Ok(0));
    assert_eq!(Codegen::compile(&mut module, &mut reg, Either::A(&b)), Ok(1));
    assert_eq!(module.get_fn(&"b".to_string()), Some(1));
    assert_eq!(module.get_fn(&"c".to_string()), None);
    // Compiling a prototype registers it.
    assert_eq!(*reg.lookup(&"b".to_string()).unwrap(), b);
    assert!(reg.lookup(&"c".to_string()).is_none());
}

#[test]
fn for_loop_merge_node_takes_start_and_stepped_values() {
    let mut module = Module::new();
    let mut reg = PrototypeRegistry::new();
    let f = compile_def(&mut module, &mut reg, "def f(n) for i = 1, i < n, 2 in n").unwrap();
    let body = module.functions[f].body.as_ref().unwrap();
    let vals = &body.values;
    let phi = vals.iter().position(|v| matches!(v, Inst::Phi(_))).unwrap();
    let loop_bb = body.blocks.iter().position(|b| b.contains(&phi)).unwrap();
    match &vals[phi] {
        Inst::Phi(first) => {
            assert_eq!(first.len(), 1);
            assert_eq!(first[0].1, 0);
            assert!(matches!(&vals[first[0].0], Inst::Const(t) if t == "1"));
        }
        _ => unreachable!(),
    }
    assert_eq!(body.incoming.len(), 1);
    let (p, next, from) = body.incoming[0];
    assert_eq!(p, phi);
    match &vals[next] {
        Inst::FAdd(l, r) => {
            assert_eq!(*l, phi);
            assert!(matches!(&vals[*r], Inst::Const(t) if t == "2"));
        }
        other => panic!("expected an addition, got {:?}", other),
    }
    // The loop ends with a branch back to the loop block.
    let back = *body.blocks[from].last().unwrap();
    match &vals[back] {
        Inst::CondBr(_, to, _) => assert_eq!(*to, loop_bb),
        other => panic!("expected a branch, got {:?}", other),
    }
}
