use std::rc::Rc;

use secd_lisp::compiler::Compiler;
use secd_lisp::data::AST;
use secd_lisp::data::CodeOP;
use secd_lisp::data::CompileErr;
use secd_lisp::data::Info;
use secd_lisp::data::Lisp;
use secd_lisp::data::RuntimeErr;
use secd_lisp::data::SExpr;
use secd_lisp::data::val_eq;
use secd_lisp::vm::SECD;

const FUEL: u64 = 1_000_000;

fn at(line: u64, col: u64) -> Info {
    Info { line, col }
}

fn num_at(n: i32, info: Info) -> AST {
    AST { sexpr: SExpr::Int(n), info }
}

fn num(n: i32) -> AST {
    num_at(n, at(1, 1))
}

fn sym_at(s: &str, info: Info) -> AST {
    AST {
        sexpr: SExpr::Atom(s.to_string()),
        info,
    }
}

fn sym(s: &str) -> AST {
    sym_at(s, at(1, 1))
}

fn list(items: Vec<AST>) -> AST {
    AST {
        sexpr: SExpr::List(items),
        info: at(1, 1),
    }
}

fn compile(ast: AST) -> Result<secd_lisp::data::Code, CompileErr> {
    let mut c = Compiler::new();
    c.compile(ast)
}

fn run(ast: AST) -> Result<Rc<Lisp>, RuntimeErr> {
    let code = compile(ast).expect("program should compile");
    let mut m = SECD::new(code);
    m.run(FUEL)
}



fn expect_rerr(r: Result<Rc<Lisp>, RuntimeErr>, e: RuntimeErr) {
    match r {
        Err(got) => assert_eq!(got, e),
        Ok(_) => panic!("expected a runtime error"),
    }
}

fn expect_cerr(r: Result<secd_lisp::data::Code, CompileErr>, e: CompileErr) {
    match r {
        Err(got) => assert_eq!(got, e),
        Ok(_) => panic!("expected a compile error"),
    }
}

fn expect_int(r: Result<Rc<Lisp>, RuntimeErr>, n: i32) {
    match r {
        Ok(v) => match &*v {
            Lisp::Int(m) => assert_eq!(*m, n),
            other => panic!("expected integer, got {:?}", std::mem::discriminant(other)),
        },
        Err(e) => panic!("expected a value, got error {:?}", e),
    }
}

#[test]
fn integer_literal_compiles_to_one_ldc() {
    let code = compile(num(42)).unwrap();
    assert_eq!(code.len(), 1);
    match &code[0].op {
        CodeOP::LDC(v) => assert!(matches!(&**v, Lisp::Int(42))),
        _ => panic!("expected LDC"),
    }
    assert_eq!(code[0].info, at(1, 1));
}

#[test]
fn integer_literal_evaluates_to_itself() {
    expect_int(run(num(42)), 42);
}

#[test]
fn reserved_names_load_constants() {
    assert!(matches!(&*run(sym("nil")).unwrap(), Lisp::Nil));
    assert!(matches!(&*run(sym("true")).unwrap(), Lisp::True));
    assert!(matches!(&*run(sym("false")).unwrap(), Lisp::False));
}

#[test]
fn empty_list_is_nil() {
    assert!(matches!(&*run(list(vec![])).unwrap(), Lisp::Nil));
}

#[test]
fn add_round_trip() {
    expect_int(run(list(vec![sym("+"), num(1), num(2)])), 3);
}

#[test]
fn sub_keeps_operand_order() {
    expect_int(run(list(vec![sym("-"), num(5), num(2)])), 3);
}

#[test]
fn add_wraps_at_fixed_width() {
    expect_int(
        run(list(vec![sym("+"), num(i32::MAX), num(1)])),
        i32::MIN,
    );
}

#[test]
fn cons_car_cdr_round_trip() {
    let make = |which: &str| {
        list(vec![
            sym(which),
            list(vec![sym("cons"), num(1), num(2)]),
        ])
    };
    expect_int(run(make("car")), 1);
    expect_int(run(make("cdr")), 2);
}

#[test]
fn let_binds_value_for_body() {
    expect_int(
        run(list(vec![
            sym("let"),
            sym("x"),
            num(1),
            list(vec![sym("+"), sym("x"), num(1)]),
        ])),
        2,
    );
}

#[test]
fn let_shadows_outer_binding() {
    expect_int(
        run(list(vec![
            sym("let"),
            sym("x"),
            num(1),
            list(vec![sym("let"), sym("x"), num(2), sym("x")]),
        ])),
        2,
    );
}

#[test]
fn lambda_application_restores_caller_stack() {
    // The partial sum below the application survives the call exactly.
    expect_int(
        run(list(vec![
            sym("+"),
            num(1),
            list(vec![
                list(vec![sym("lambda"), list(vec![sym("a")]), sym("a")]),
                num(5),
            ]),
        ])),
        6,
    );
}

#[test]
fn args_pack_in_source_order() {
    for (pick, expected) in [("a", 1), ("b", 2), ("c", 3)] {
        expect_int(
            run(list(vec![
                list(vec![
                    sym("lambda"),
                    list(vec![sym("a"), sym("b"), sym("c")]),
                    sym(pick),
                ]),
                num(1),
                num(2),
                num(3),
            ])),
            expected,
        );
    }
}

#[test]
fn single_symbol_binder_takes_one_argument() {
    expect_int(
        run(list(vec![
            list(vec![sym("lambda"), sym("x"), sym("x")]),
            num(7),
        ])),
        7,
    );
}

#[test]
fn letrec_factorial_of_five() {
    // mul a b = if b == 0 then 0 else a + mul a (b - 1)
    let mul_body = list(vec![
        sym("if"),
        list(vec![sym("eq"), sym("b"), num(0)]),
        num(0),
        list(vec![
            sym("+"),
            sym("a"),
            list(vec![sym("mul"), sym("a"), list(vec![sym("-"), sym("b"), num(1)])]),
        ]),
    ]);
    // fact n = if n == 0 then 1 else mul n (fact (n - 1))
    let fact_body = list(vec![
        sym("if"),
        list(vec![sym("eq"), sym("n"), num(0)]),
        num(1),
        list(vec![
            sym("mul"),
            sym("n"),
            list(vec![sym("fact"), list(vec![sym("-"), sym("n"), num(1)])]),
        ]),
    ]);
    let program = list(vec![
        sym("letrec"),
        sym("mul"),
        list(vec![sym("lambda"), list(vec![sym("a"), sym("b")]), mul_body]),
        list(vec![
            sym("letrec"),
            sym("fact"),
            list(vec![sym("lambda"), list(vec![sym("n")]), fact_body]),
            list(vec![sym("fact"), num(5)]),
        ]),
    ]);
    expect_int(run(program), 120);
}

#[test]
fn structural_equality_of_cons_chains() {
    let chain = || {
        list(vec![
            sym("cons"),
            num(1),
            list(vec![sym("cons"), num(2), sym("nil")]),
        ])
    };
    let equal = run(list(vec![sym("eq"), chain(), chain()])).unwrap();
    assert!(matches!(&*equal, Lisp::True));

    let other = list(vec![
        sym("cons"),
        num(1),
        list(vec![sym("cons"), num(3), sym("nil")]),
    ]);
    let unequal = run(list(vec![sym("eq"), chain(), other])).unwrap();
    assert!(matches!(&*unequal, Lisp::False));
}

#[test]
fn val_eq_is_structural_on_fresh_values() {
    let a = Lisp::Cons(Rc::new(Lisp::Int(1)), Rc::new(Lisp::Nil));
    let b = Lisp::Cons(Rc::new(Lisp::Int(1)), Rc::new(Lisp::Nil));
    let c = Lisp::Cons(Rc::new(Lisp::Int(2)), Rc::new(Lisp::Nil));
    assert!(val_eq(&a, &b));
    assert!(!val_eq(&a, &c));
    assert!(!val_eq(&a, &Lisp::Nil));
}

#[test]
fn if_selects_branches() {
    expect_int(run(list(vec![sym("if"), sym("true"), num(1), num(2)])), 1);
    expect_int(run(list(vec![sym("if"), sym("false"), num(1), num(2)])), 2);
}

#[test]
fn if_on_non_boolean_is_a_typed_error() {
    let program = list(vec![sym_at("if", at(3, 7)), num(1), num(2), num(3)]);
    let code = compile(program).unwrap();
    let mut m = SECD::new(code);
    expect_rerr(m.run(FUEL), RuntimeErr::SelExpectedBool(at(3, 7)));
}

#[test]
fn puts_records_the_value_and_keeps_it() {
    let code = compile(list(vec![
        sym("puts"),
        list(vec![sym("+"), num(1), num(2)]),
    ]))
    .unwrap();
    let mut m = SECD::new(code);
    let r = m.run(FUEL).unwrap();
    assert!(matches!(&*r, Lisp::Int(3)));
    let out = m.output();
    assert_eq!(out.len(), 1);
    assert!(matches!(&*out[0], Lisp::Int(3)));
}

#[test]
fn unbound_identifier_is_reported() {
    let code = compile(sym_at("y", at(2, 4))).unwrap();
    let mut m = SECD::new(code);
    expect_rerr(m.run(FUEL), RuntimeErr::UnboundId(at(2, 4)));
}

#[test]
fn applying_a_non_closure_fails() {
    let program = list(vec![
        sym("let"),
        sym("f"),
        num(1),
        list(vec![sym_at("f", at(5, 2))]),
    ]);
    let code = compile(program).unwrap();
    let mut m = SECD::new(code);
    expect_rerr(m.run(FUEL), RuntimeErr::ApExpectedClosure(at(5, 2)));
}

#[test]
fn wrong_argument_count_fails() {
    let program = list(vec![
        list(vec![
            sym_at("lambda", at(4, 4)),
            list(vec![sym("a"), sym("b")]),
            sym("a"),
        ]),
        num(1),
    ]);
    let code = compile(program).unwrap();
    let mut m = SECD::new(code);
    assert!(matches!(m.run(FUEL), Err(RuntimeErr::ApWrongArgCount(_))));
}

#[test]
fn car_of_non_pair_fails() {
    let code = compile(list(vec![sym_at("car", at(1, 2)), num(1)])).unwrap();
    let mut m = SECD::new(code);
    expect_rerr(m.run(FUEL), RuntimeErr::CarExpectedCons(at(1, 2)));
}

#[test]
fn cdr_of_non_pair_fails() {
    let code = compile(list(vec![sym_at("cdr", at(1, 2)), sym("nil")])).unwrap();
    let mut m = SECD::new(code);
    expect_rerr(m.run(FUEL), RuntimeErr::CdrExpectedCons(at(1, 2)));
}

#[test]
fn arithmetic_on_non_integer_fails() {
    let code = compile(list(vec![sym_at("+", at(1, 2)), num(1), sym("nil")])).unwrap();
    let mut m = SECD::new(code);
    expect_rerr(m.run(FUEL), RuntimeErr::AddExpectedInt(at(1, 2)));
    let code = compile(list(vec![sym_at("-", at(1, 3)), num(1), sym("nil")])).unwrap();
    let mut m = SECD::new(code);
    expect_rerr(m.run(FUEL), RuntimeErr::SubExpectedInt(at(1, 3)));
}

#[test]
fn empty_program_has_no_result() {
    let mut m = SECD::new(Vec::new());
    expect_rerr(m.run(FUEL), RuntimeErr::EmptyStack);
}

#[test]
fn runaway_recursion_hits_the_step_limit() {
    let program = list(vec![
        sym("letrec"),
        sym("f"),
        list(vec![
            sym("lambda"),
            list(vec![sym("x")]),
            list(vec![sym("f"), sym("x")]),
        ]),
        list(vec![sym("f"), num(1)]),
    ]);
    let code = compile(program).unwrap();
    let mut m = SECD::new(code);
    expect_rerr(m.run(200), RuntimeErr::StepLimit);
}

#[test]
fn integer_in_head_position_is_rejected() {
    expect_cerr(compile(list(vec![num_at(7, at(2, 9)), num(1)])), CompileErr::ApplyInt(at(2, 9)));
}

#[test]
fn lambda_arity_errors() {
    expect_cerr(compile(list(vec![sym_at("lambda", at(1, 5)), sym("x")])), CompileErr::LambdaSyntax(at(1, 5)));
    // A non-symbol binder is reported at the binder for an integer...
    expect_cerr(compile(list(vec![
            sym_at("lambda", at(1, 5)),
            num_at(1, at(1, 9)),
            sym("x"),
        ])), CompileErr::LambdaArgs(at(1, 9)));
    // ...and at the form's head for a bad element of a binder list.
    expect_cerr(compile(list(vec![
            sym_at("lambda", at(1, 5)),
            list(vec![sym("x"), num(1)]),
            sym("x"),
        ])), CompileErr::LambdaArgs(at(1, 5)));
}

#[test]
fn let_syntax_errors() {
    expect_cerr(compile(list(vec![sym_at("let", at(1, 2)), sym("x"), num(1)])), CompileErr::LetSyntax(at(1, 2)));
    expect_cerr(compile(list(vec![
            sym_at("let", at(1, 2)),
            num(9),
            num(1),
            sym("x"),
        ])), CompileErr::LetBindId(at(1, 2)));
    expect_cerr(compile(list(vec![sym_at("letrec", at(2, 2)), sym("x"), num(1)])), CompileErr::LetSyntax(at(2, 2)));
}

#[test]
fn operator_arity_errors() {
    expect_cerr(compile(list(vec![sym_at("if", at(1, 2)), num(1), num(2)])), CompileErr::IfSyntax(at(1, 2)));
    expect_cerr(compile(list(vec![sym_at("+", at(1, 2)), num(1)])), CompileErr::AddSyntax(at(1, 2)));
    expect_cerr(compile(list(vec![sym_at("-", at(1, 2)), num(1)])), CompileErr::SubSyntax(at(1, 2)));
    expect_cerr(compile(list(vec![sym_at("eq", at(1, 2)), num(1)])), CompileErr::EqSyntax(at(1, 2)));
    expect_cerr(compile(list(vec![sym_at("cons", at(1, 2)), num(1)])), CompileErr::ConsSyntax(at(1, 2)));
    expect_cerr(compile(list(vec![sym_at("car", at(1, 2)), num(1), num(2)])), CompileErr::CarSyntax(at(1, 2)));
    expect_cerr(compile(list(vec![sym_at("cdr", at(1, 2))])), CompileErr::CdrSyntax(at(1, 2)));
    expect_cerr(compile(list(vec![sym_at("puts", at(1, 2))])), CompileErr::PutsSyntax(at(1, 2)));
}

#[test]
fn letrec_call_sites_use_rap_and_let_removes_them() {
    // Inside the letrec body the bound name compiles to RAP...
    let program = list(vec![
        sym("letrec"),
        sym("f"),
        list(vec![sym("lambda"), list(vec![sym("x")]), sym("x")]),
        list(vec![sym("f"), num(1)]),
    ]);
    let code = compile(program).unwrap();
    assert!(code.iter().any(|c| matches!(c.op, CodeOP::RAP)));
    assert!(!code.iter().any(|c| matches!(c.op, CodeOP::AP)));

    // ...but an intervening `let` of the same name makes calls plain again.
    let program = list(vec![
        sym("letrec"),
        sym("f"),
        list(vec![sym("lambda"), list(vec![sym("x")]), sym("x")]),
        list(vec![
            sym("let"),
            sym("f"),
            list(vec![sym("lambda"), list(vec![sym("x")]), sym("x")]),
            list(vec![sym("f"), num(2)]),
        ]),
    ]);
    let code = compile(program).unwrap();
    assert!(!code.iter().any(|c| matches!(c.op, CodeOP::RAP)));
    expect_int(run_code(code), 2);
}

fn run_code(code: secd_lisp::data::Code) -> Result<Rc<Lisp>, RuntimeErr> {
    let mut m = SECD::new(code);
    m.run(FUEL)
}
