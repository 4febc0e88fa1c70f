use phpvm::ast::{Expression, Op, Statement};
use phpvm::compiler::compile;
use phpvm::error::{CompileError, RuntimeError};
use phpvm::vm::{run, Status};

const FUEL: u64 = 1_000_000;

fn exec(ast: Vec<Statement>) -> (Vec<String>, Status) {
    let (constants, code, globals) = compile(ast).expect("program should compile");
    run(constants, code, globals, FUEL)
}

fn lit(i: i64) -> Expression {
    Expression::Integer(i)
}

fn float(f: f64) -> Expression {
    Expression::Float(f.to_bits())
}

fn string(s: &str) -> Expression {
    Expression::String(s.to_string())
}

fn var(n: &str) -> Expression {
    Expression::Variable(n.to_string())
}

fn infix(l: Expression, op: Op, r: Expression) -> Expression {
    Expression::Infix(Box::new(l), op, Box::new(r))
}

fn assign(n: &str, v: Expression) -> Statement {
    Statement::Expression(Expression::Assign(Box::new(var(n)), Box::new(v)))
}

fn echo(e: Expression) -> Statement {
    Statement::Echo(e)
}

fn call(name: &str, args: Vec<Expression>) -> Expression {
    Expression::Call(name.to_string(), args)
}

#[test]
fn echo_string_literal() {
    let (out, st) = exec(vec![echo(string("hello"))]);
    assert_eq!(st, Status::Done);
    assert_eq!(out, vec!["hello".to_string()]);
}

#[test]
fn if_true_prints_then_branch() {
    let (out, st) = exec(vec![Statement::IfElse(
        Expression::True,
        vec![echo(string("a"))],
        vec![echo(string("b"))],
    )]);
    assert_eq!(st, Status::Done);
    assert_eq!(out, vec!["a".to_string()]);
}

#[test]
fn if_false_prints_else_branch() {
    let (out, st) = exec(vec![Statement::IfElse(
        Expression::False,
        vec![echo(string("a"))],
        vec![echo(string("b"))],
    )]);
    assert_eq!(st, Status::Done);
    assert_eq!(out, vec!["b".to_string()]);
}

#[test]
fn if_without_else_skips_body() {
    let (out, st) = exec(vec![
        Statement::IfElse(Expression::False, vec![echo(string("skipped"))], vec![]),
        echo(string("after")),
    ]);
    assert_eq!(st, Status::Done);
    assert_eq!(out, vec!["after".to_string()]);
}

#[test]
fn folded_integer_addition_prints_three() {
    let (out, st) = exec(vec![echo(infix(lit(1), Op::Add, lit(2)))]);
    assert_eq!(st, Status::Done);
    assert_eq!(out, vec!["3".to_string()]);
}

#[test]
fn unfolded_addition_matches_folded_output() {
    // The same sum routed through a variable, so the fast path cannot fire.
    let (out, st) = exec(vec![assign("x", lit(1)), echo(infix(var("x"), Op::Add, lit(2)))]);
    assert_eq!(st, Status::Done);
    assert_eq!(out, vec!["3".to_string()]);
}

#[test]
fn folding_pools_single_constant() {
    let (constants, code, _globals) = compile(vec![echo(infix(lit(1), Op::Add, lit(2)))]).unwrap();
    assert_eq!(constants.len(), 1);
    assert!(matches!(constants[0], phpvm::object::Object::Integer(3)));
    assert_eq!(code.len(), 2);
}

#[test]
fn integer_arithmetic_stays_integer() {
    let (out, st) = exec(vec![
        echo(infix(lit(7), Op::Subtract, lit(3))),
        echo(infix(lit(6), Op::Multiply, lit(7))),
    ]);
    assert_eq!(st, Status::Done);
    assert_eq!(out, vec!["4".to_string(), "42".to_string()]);
}

#[test]
fn integer_division_promotes_to_float() {
    let (out, st) = exec(vec![echo(infix(lit(7), Op::Divide, lit(2)))]);
    assert_eq!(st, Status::Done);
    assert_eq!(out, vec!["3.5".to_string()]);
}

#[test]
fn unfolded_integer_division_promotes_too() {
    let (out, st) = exec(vec![assign("x", lit(7)), echo(infix(var("x"), Op::Divide, lit(2)))]);
    assert_eq!(st, Status::Done);
    assert_eq!(out, vec!["3.5".to_string()]);
}

#[test]
fn float_operand_promotes_addition() {
    let (out, st) = exec(vec![assign("x", lit(1)), echo(infix(var("x"), Op::Add, float(0.5)))]);
    assert_eq!(st, Status::Done);
    assert_eq!(out, vec!["1.5".to_string()]);
}

#[test]
fn float_arithmetic_exact_values() {
    let (out, st) = exec(vec![
        assign("x", float(1.5)),
        echo(infix(var("x"), Op::Add, float(2.25))),
        echo(infix(var("x"), Op::Subtract, float(0.5))),
        echo(infix(var("x"), Op::Multiply, float(2.0))),
        echo(infix(var("x"), Op::Divide, float(0.5))),
    ]);
    assert_eq!(st, Status::Done);
    assert_eq!(
        out,
        vec!["3.75".to_string(), "1".to_string(), "3".to_string(), "3".to_string()]
    );
}

#[test]
fn comparisons_yield_booleans() {
    // True displays as "1", False as the empty string.
    let (out, st) = exec(vec![
        echo(infix(lit(1), Op::LessThan, lit(2))),
        echo(infix(lit(2), Op::LessThan, lit(1))),
        echo(infix(lit(2), Op::GreaterThan, lit(1))),
    ]);
    assert_eq!(st, Status::Done);
    assert_eq!(out, vec!["1".to_string(), "".to_string(), "1".to_string()]);
}

#[test]
fn float_comparison_uses_numeric_order() {
    let (out, st) = exec(vec![
        assign("x", float(1.5)),
        echo(infix(var("x"), Op::LessThan, float(2.5))),
        echo(infix(var("x"), Op::GreaterThan, float(2.5))),
    ]);
    assert_eq!(st, Status::Done);
    assert_eq!(out, vec!["1".to_string(), "".to_string()]);
}

#[test]
fn concat_stringifies_both_operands() {
    let (out, st) = exec(vec![
        echo(infix(string("n="), Op::Concat, lit(42))),
        echo(infix(lit(1), Op::Concat, lit(2))),
    ]);
    assert_eq!(st, Status::Done);
    assert_eq!(out, vec!["n=42".to_string(), "12".to_string()]);
}

#[test]
fn while_loop_counts_to_three() {
    // $i = 0; while ($i < 3) { echo $i; $i = $i + 1; }
    let (out, st) = exec(vec![
        assign("i", lit(0)),
        Statement::While(
            infix(var("i"), Op::LessThan, lit(3)),
            vec![echo(var("i")), assign("i", infix(var("i"), Op::Add, lit(1)))],
        ),
    ]);
    assert_eq!(st, Status::Done);
    assert_eq!(out, vec!["0".to_string(), "1".to_string(), "2".to_string()]);
}

#[test]
fn while_loop_with_false_condition_never_runs() {
    let (out, st) = exec(vec![
        Statement::While(Expression::False, vec![echo(string("never"))]),
        echo(string("end")),
    ]);
    assert_eq!(st, Status::Done);
    assert_eq!(out, vec!["end".to_string()]);
}

#[test]
fn break_terminates_innermost_loop_only() {
    // Outer loop runs 2 iterations; the inner loop breaks on its first pass
    // each time, so the outer count is unaffected.
    let (out, st) = exec(vec![
        assign("i", lit(0)),
        Statement::While(
            infix(var("i"), Op::LessThan, lit(2)),
            vec![
                assign("j", lit(0)),
                Statement::While(
                    infix(var("j"), Op::LessThan, lit(10)),
                    vec![
                        echo(infix(var("i"), Op::Concat, var("j"))),
                        assign("j", infix(var("j"), Op::Add, lit(1))),
                        Statement::Break,
                    ],
                ),
                assign("i", infix(var("i"), Op::Add, lit(1))),
            ],
        ),
        echo(string("done")),
    ]);
    assert_eq!(st, Status::Done);
    assert_eq!(out, vec!["00".to_string(), "10".to_string(), "done".to_string()]);
}

#[test]
fn break_after_inner_loop_still_binds_outer() {
    // A break that follows a nested loop must still see the outer breakable
    // scope and terminate the outer loop after one iteration.
    let (out, st) = exec(vec![
        assign("i", lit(0)),
        Statement::While(
            infix(var("i"), Op::LessThan, lit(5)),
            vec![
                Statement::While(Expression::False, vec![echo(string("inner"))]),
                echo(string("outer")),
                Statement::Break,
            ],
        ),
    ]);
    assert_eq!(st, Status::Done);
    assert_eq!(out, vec!["outer".to_string()]);
}

#[test]
fn factorial_of_five_is_120() {
    // function fact($n) { if ($n < 2) { return 1; } return $n * fact($n - 1); }
    // echo fact(5);
    let body = vec![
        Statement::IfElse(
            infix(var("n"), Op::LessThan, lit(2)),
            vec![Statement::Return(Some(lit(1)))],
            vec![],
        ),
        Statement::Return(Some(infix(
            var("n"),
            Op::Multiply,
            call("fact", vec![infix(var("n"), Op::Subtract, lit(1))]),
        ))),
    ];
    let (out, st) = exec(vec![
        Statement::Function("fact".to_string(), vec!["n".to_string()], body),
        echo(call("fact", vec![lit(5)])),
    ]);
    assert_eq!(st, Status::Done);
    assert_eq!(out, vec!["120".to_string()]);
}

#[test]
fn arguments_arrive_in_declaration_order() {
    // function pair($a, $b) { return $a . "," . $b; } echo pair("x", "y");
    let body = vec![Statement::Return(Some(infix(
        infix(var("a"), Op::Concat, string(",")),
        Op::Concat,
        var("b"),
    )))];
    let (out, st) = exec(vec![
        Statement::Function("pair".to_string(), vec!["a".to_string(), "b".to_string()], body),
        echo(call("pair", vec![string("x"), string("y")])),
    ]);
    assert_eq!(st, Status::Done);
    assert_eq!(out, vec!["x,y".to_string()]);
}

#[test]
fn function_without_return_yields_null() {
    // Null displays as the empty string.
    let (out, st) = exec(vec![
        Statement::Function("noop".to_string(), vec![], vec![]),
        echo(call("noop", vec![])),
        echo(string("end")),
    ]);
    assert_eq!(st, Status::Done);
    assert_eq!(out, vec!["".to_string(), "end".to_string()]);
}

#[test]
fn undefined_variable_keeps_earlier_output() {
    let (out, st) = exec(vec![echo(string("before")), echo(var("missing"))]);
    assert_eq!(st, Status::Failed(RuntimeError::UndefinedVariable));
    assert_eq!(out, vec!["before".to_string()]);
}

#[test]
fn undefined_function_is_fatal() {
    let (out, st) = exec(vec![echo(string("ok")), Statement::Expression(call("nope", vec![]))]);
    assert_eq!(st, Status::Failed(RuntimeError::UndefinedFunction));
    assert_eq!(out, vec!["ok".to_string()]);
}

#[test]
fn undefined_constant_is_fatal() {
    let (out, st) = exec(vec![echo(Expression::Identifier("MISSING".to_string()))]);
    assert_eq!(st, Status::Failed(RuntimeError::UndefinedConstant));
    assert!(out.is_empty());
}

#[test]
fn arithmetic_on_boolean_is_type_fault() {
    let (_, st) = exec(vec![echo(infix(Expression::True, Op::Add, lit(1)))]);
    assert_eq!(st, Status::Failed(RuntimeError::TypeMismatch));
}

#[test]
fn define_then_read_constant() {
    let (out, st) = exec(vec![
        Statement::Expression(call("define", vec![string("ANSWER"), lit(42)])),
        echo(Expression::Identifier("ANSWER".to_string())),
    ]);
    assert_eq!(st, Status::Done);
    assert_eq!(out, vec!["42".to_string()]);
}

#[test]
fn is_string_checks_shape() {
    let (out, st) = exec(vec![
        echo(call("is_string", vec![string("s")])),
        echo(call("is_string", vec![lit(3)])),
    ]);
    assert_eq!(st, Status::Done);
    assert_eq!(out, vec!["1".to_string(), "".to_string()]);
}

#[test]
fn strval_renders_numbers() {
    let (out, st) = exec(vec![echo(call("strval", vec![lit(-7)]))]);
    assert_eq!(st, Status::Done);
    assert_eq!(out, vec!["-7".to_string()]);
}

#[test]
fn basename_takes_final_component() {
    let (out, st) = exec(vec![echo(call("basename", vec![string("usr/local/lib.txt")]))]);
    assert_eq!(st, Status::Done);
    assert_eq!(out, vec!["lib.txt".to_string()]);
}

#[test]
fn basename_ignores_trailing_slashes() {
    let (out, st) = exec(vec![echo(call("basename", vec![string("a/b/")]))]);
    assert_eq!(st, Status::Done);
    assert_eq!(out, vec!["b".to_string()]);
}

#[test]
fn basename_of_all_slashes_is_fatal() {
    let (_, st) = exec(vec![echo(call("basename", vec![string("///")]))]);
    assert_eq!(st, Status::Failed(RuntimeError::TypeMismatch));
}

#[test]
fn host_arity_violation_is_fatal() {
    let (_, st) = exec(vec![echo(call("count", vec![lit(1), lit(2)]))]);
    assert_eq!(st, Status::Failed(RuntimeError::ArityMismatch));
}

#[test]
fn var_dump_of_integer() {
    let (out, st) = exec(vec![Statement::Expression(call("var_dump", vec![lit(5)]))]);
    assert_eq!(st, Status::Done);
    assert_eq!(out, vec!["int(5)\n".to_string()]);
}

#[test]
fn var_dump_of_string_and_bool() {
    let (out, st) = exec(vec![
        Statement::Expression(call("var_dump", vec![string("hi")])),
        Statement::Expression(call("var_dump", vec![Expression::True])),
    ]);
    assert_eq!(st, Status::Done);
    assert_eq!(out, vec!["string(2) \"hi\"\n".to_string(), "bool(true)\n".to_string()]);
}

#[test]
fn break_outside_loop_is_rejected() {
    assert_eq!(compile(vec![Statement::Break]).unwrap_err(), CompileError::InvalidBreakScope);
}

#[test]
fn break_in_function_body_outside_loop_is_rejected() {
    // A function body opens a fresh, non-breakable scope even when the
    // declaration itself sits inside a loop.
    let ast = vec![Statement::While(
        Expression::True,
        vec![Statement::Function("f".to_string(), vec![], vec![Statement::Break])],
    )];
    assert_eq!(compile(ast).unwrap_err(), CompileError::InvalidBreakScope);
}

#[test]
fn for_statement_is_unsupported() {
    let ast = vec![Statement::For(None, None, None, vec![])];
    assert_eq!(compile(ast).unwrap_err(), CompileError::UnsupportedStatement);
}

#[test]
fn const_statement_is_unsupported() {
    let ast = vec![Statement::Const("X".to_string(), lit(1))];
    assert_eq!(compile(ast).unwrap_err(), CompileError::UnsupportedStatement);
}

#[test]
fn null_literal_is_unsupported() {
    assert_eq!(
        compile(vec![echo(Expression::Null)]).unwrap_err(),
        CompileError::UnsupportedExpression
    );
}

#[test]
fn assignment_to_non_variable_is_rejected() {
    let ast = vec![Statement::Expression(Expression::Assign(
        Box::new(lit(1)),
        Box::new(lit(2)),
    ))];
    assert_eq!(compile(ast).unwrap_err(), CompileError::InvalidAssignTarget);
}

#[test]
fn assignment_pushes_its_value_for_chaining() {
    // echo $a = 5; prints the assigned value.
    let (out, st) = exec(vec![echo(Expression::Assign(Box::new(var("a")), Box::new(lit(5))))]);
    assert_eq!(st, Status::Done);
    assert_eq!(out, vec!["5".to_string()]);
}

#[test]
fn fuel_exhaustion_reports_running() {
    // while (true) {} never finishes; a tiny budget runs out.
    let ast = vec![Statement::While(Expression::True, vec![])];
    let (constants, code, globals) = compile(ast).unwrap();
    let (_, st) = run(constants, code, globals, 10);
    assert_eq!(st, Status::Running);
}

#[test]
fn truthiness_of_strings_and_numbers() {
    // Non-empty strings and positive numbers are true; zero and the empty
    // string are false.
    let (out, st) = exec(vec![
        Statement::IfElse(string("x"), vec![echo(string("s1"))], vec![echo(string("s0"))]),
        Statement::IfElse(string(""), vec![echo(string("e1"))], vec![echo(string("e0"))]),
        Statement::IfElse(lit(2), vec![echo(string("p1"))], vec![echo(string("p0"))]),
        Statement::IfElse(lit(0), vec![echo(string("z1"))], vec![echo(string("z0"))]),
        Statement::IfElse(lit(-1), vec![echo(string("n1"))], vec![echo(string("n0"))]),
        Statement::IfElse(float(0.5), vec![echo(string("f1"))], vec![echo(string("f0"))]),
        Statement::IfElse(float(-0.5), vec![echo(string("g1"))], vec![echo(string("g0"))]),
    ]);
    assert_eq!(st, Status::Done);
    assert_eq!(
        out,
        vec![
            "s1".to_string(),
            "e0".to_string(),
            "p1".to_string(),
            "z0".to_string(),
            "n0".to_string(),
            "f1".to_string(),
            "g0".to_string()
        ]
    );
}

#[test]
fn integer_overflow_wraps() {
    let (out, st) = exec(vec![echo(infix(lit(i64::MAX), Op::Add, lit(1)))]);
    assert_eq!(st, Status::Done);
    assert_eq!(out, vec![i64::MIN.to_string()]);
}

#[test]
fn forward_reference_to_user_function_fails_at_runtime() {
    // A call compiled before the function's declaration is dispatched as an
    // internal call; by run time the registry holds the user function, so the
    // staged frame is a bytecode frame and the internal invoke rejects it.
    let ast = vec![
        Statement::Expression(call("late", vec![])),
        Statement::Function("late".to_string(), vec![], vec![]),
    ];
    let (out, st) = {
        let (constants, code, globals) = compile(ast).unwrap();
        run(constants, code, globals, FUEL)
    };
    assert_eq!(st, Status::Failed(RuntimeError::CallKindMismatch));
    assert!(out.is_empty());
}

#[test]
fn basename_of_parent_reference_is_fatal() {
    let (_, st) = exec(vec![echo(call("basename", vec![string("..")]))]);
    assert_eq!(st, Status::Failed(RuntimeError::TypeMismatch));
}

#[test]
fn basename_without_slash_is_identity() {
    let (out, st) = exec(vec![echo(call("basename", vec![string("plain.txt")]))]);
    assert_eq!(st, Status::Done);
    assert_eq!(out, vec!["plain.txt".to_string()]);
}

#[test]
fn basename_of_non_string_is_fatal() {
    let (_, st) = exec(vec![echo(call("basename", vec![lit(3)]))]);
    assert_eq!(st, Status::Failed(RuntimeError::TypeMismatch));
}

#[test]
fn define_requires_string_name() {
    let (_, st) = exec(vec![Statement::Expression(call("define", vec![lit(1), lit(2)]))]);
    assert_eq!(st, Status::Failed(RuntimeError::TypeMismatch));
}

#[test]
fn division_by_zero_yields_infinity() {
    // Division never faults: a zero divisor produces the IEEE infinity.
    let (out, st) = exec(vec![echo(infix(lit(1), Op::Divide, lit(0)))]);
    assert_eq!(st, Status::Done);
    assert_eq!(out, vec!["+Inf".to_string()]);
}

#[test]
fn large_floats_print_plain_decimal() {
    // Magnitudes beyond the renderer's plain-decimal range come back in
    // scientific notation and are expanded to plain digits.
    let (out, st) = exec(vec![
        echo(float(1e6)),
        echo(float(1e20)),
        echo(float(-2.5e19)),
        echo(float(0.03125)),
    ]);
    assert_eq!(st, Status::Done);
    assert_eq!(
        out,
        vec![
            "1000000".to_string(),
            "100000000000000000000".to_string(),
            "-25000000000000000000".to_string(),
            "0.03125".to_string()
        ]
    );
}

#[test]
fn var_dump_counts_string_bytes() {
    // The dumped string length is the byte length: a two-byte character
    // counts twice.
    let (out, st) = exec(vec![Statement::Expression(call(
        "var_dump",
        vec![string("h\u{e9}llo")],
    ))]);
    assert_eq!(st, Status::Done);
    assert_eq!(out, vec!["string(6) \"h\u{e9}llo\"\n".to_string()]);
}
