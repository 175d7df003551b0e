use scada::lexer::Call1;
use scada::program::{parse_script, sorted_unique, ScriptProgram};
use scada::script::{parse_expr, BinOp, Expr, Instr};

/// The keys of a program's `rv(...)` literals, as the scheduler takes
/// them: each literal's value as an integer, sorted, each once.
fn used_rv_keys(p: &ScriptProgram) -> Vec<i32> {
    let keys: Vec<i32> = p.rv_literals.iter().map(|t| t.parse::<f64>().expect("number") as i32).collect();
    sorted_unique(&keys)
}

#[test]
fn used_rv_keys_extracts_unique_constants() {
    let src = r#"
            let a = rv(100) + rv(200);
            let b = rv(100);
            if (rv(300) > 0) { reg(1) = a + b; }
        "#;
    let s = parse_script(src).expect("parse");
    assert_eq!(used_rv_keys(&s), vec![100, 200, 300]);
}

#[test]
fn used_rv_keys_ignores_non_constant_rv_argument() {
    let src = r#"
            let x = 123;
            let a = rv(x);
            let b = rv(42);
            reg(1) = a + b;
        "#;
    let s = parse_script(src).expect("parse");
    assert_eq!(used_rv_keys(&s), vec![42]);
}

fn texts(p: &ScriptProgram) -> Vec<String> {
    p.instrs.iter().map(|i| format!("{:?}", i)).collect()
}

#[test]
fn simple_statements_compile_in_order() {
    let p = parse_script("let a = 1 + 2; reg(1001) = a; emit(1700000000, 1002, 5);").expect("parse");
    assert_eq!(
        texts(&p),
        vec![
            "Step", "PushNum(\"1\")", "PushNum(\"2\")", "Bin(Add)", "StoreVar(\"a\")",
            "Step", "PushNum(\"1001\")", "LoadVar(\"a\")", "Reg",
            "Step", "PushNum(\"1700000000\")", "PushNum(\"1002\")", "PushNum(\"5\")", "Emit",
        ]
    );
}

#[test]
fn loops_and_branches_jump_to_absolute_indices() {
    let p = parse_script("while(1){ let a = 1; }").expect("parse");
    assert_eq!(
        texts(&p),
        vec!["Step", "Step", "PushNum(\"1\")", "JumpIfZero(9)", "Step", "Step", "PushNum(\"1\")", "StoreVar(\"a\")", "Jump(1)"]
    );
    let p = parse_script("if (x) y = 1; else y = 2;").expect("parse");
    assert_eq!(
        texts(&p),
        vec![
            "Step", "LoadVar(\"x\")", "JumpIfZero(7)", "Step", "PushNum(\"1\")", "StoreVar(\"y\")", "Jump(10)",
            "Step", "PushNum(\"2\")", "StoreVar(\"y\")",
        ]
    );
    let p = parse_script("for(let i=0; i<3; i=i+1){ emit(1700000000+i, 1000+i, i*10); }").expect("parse");
    let t = texts(&p);
    assert_eq!(&t[0..4], &["Step", "Step", "PushNum(\"0\")", "StoreVar(\"i\")"]);
    assert_eq!(t[4], "Step");
    assert_eq!(t.last().unwrap(), "Jump(4)");
    let p = parse_script("for(;;){ }").expect("parse");
    assert_eq!(texts(&p), vec!["Step", "Step", "PushNum(\"1.0\")", "JumpIfZero(6)", "Step", "Jump(1)"]);
}

#[test]
fn expressions_follow_precedence_and_calls() {
    match parse_expr("1 + 2 * 3").expect("expr") {
        Expr::Bin(BinOp::Add, l, r) => {
            assert!(matches!(*l, Expr::Num(ref t) if t == "1"));
            assert!(matches!(*r, Expr::Bin(BinOp::Mul, _, _)));
        }
        other => panic!("unexpected tree {:?}", other),
    }
    match parse_expr("-rv(7) < 2 || x").expect("expr") {
        Expr::Bin(BinOp::Or, l, _) => assert!(matches!(*l, Expr::Bin(BinOp::Lt, _, _))),
        other => panic!("unexpected tree {:?}", other),
    }
    assert!(matches!(parse_expr("rv(1)").expect("expr"), Expr::Call1(Call1::Rv, _)));
    assert!(matches!(parse_expr("clamp(1, 2, 3)").expect("expr"), Expr::Call3(_, _, _, _)));
    assert!(parse_expr("9223372036854775807").is_ok());
    assert!(parse_expr("9223372036854775808").is_err());
    assert!(parse_expr("1e400").is_ok());
    assert!(parse_expr("nosuch(1)").is_err());
    assert!(parse_expr("(1").is_err());
    assert!(parse_expr("1 2").is_err());
}

#[test]
fn script_errors() {
    assert!(parse_script("print(1);").is_err());
    assert!(parse_script("{ let a = 1;").is_err());
    assert!(parse_script("let 1 = 2;").is_err());
    assert!(parse_script("let a = ;").is_err());
    assert!(parse_script("let a = 1").is_err());
    assert!(parse_script("foo;").is_err());
    assert!(parse_script("for(x; ; ) {}").is_err());
    assert!(parse_script(";; # comment\n let a = 1; // c\n").is_ok());
}
