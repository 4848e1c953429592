use minicc::code_generator::{generate_asm_for_function, generate_code, AsmToken};
use minicc::lexer::lex;
use minicc::machine::{run_assembly, RunOutcome};
use minicc::parser::{parse, Expression, Function, Program, Statement};

/// Lexes, parses and lowers a source text.
fn compile(source: &str) -> String {
    generate_code(parse(lex(source).unwrap()).unwrap())
}

/// Lexes, parses, lowers and interprets a source text.
fn compile_and_run(source: &str) -> RunOutcome {
    let program = parse(lex(source).unwrap()).unwrap();
    let Program(function) = program;
    run_assembly(&generate_asm_for_function(function))
}

#[test]
fn test_end_to_end_return_two() {
    let assembly = compile("int main() {\n    return 2;\n}");
    assert_eq!(assembly, ".globl main\nmain:\n  movl 2, %eax\n  ret");
}

#[test]
fn test_generation_is_deterministic() {
    let source = "int main() { return !~-5 + (2 * 3); }";
    let first = compile(source);
    let second = compile(source);
    assert_eq!(first, second);
}

#[test]
fn test_unary_operator_lines() {
    let assembly = compile("int main() { return !-~3; }");
    let expected = ".globl main\nmain:\n  movl 3, %eax\n  not %eax\n  neg %eax\n  cmpl $0, %eax\n  movl $0, %eax\n  sete %al\n  ret";
    assert_eq!(assembly, expected);
}

#[test]
fn test_binary_operator_lines() {
    let assembly = compile("int main() { return 2 + 3; }");
    let expected = ".globl main\nmain:\n  movl 2, %eax\n  push %rax\n  movl 3, %eax\n  movl %eax, %ecx\n  pop %rax\n  addl %ecx, %eax\n  ret";
    assert_eq!(assembly, expected);
}

#[test]
fn test_negative_immediate_renders_with_sign() {
    let program = Program(Function(
        "main".to_string(),
        Statement::Return(Expression::Constant(-5)),
    ));
    assert_eq!(
        generate_code(program),
        ".globl main\nmain:\n  movl -5, %eax\n  ret"
    );
}

#[test]
fn test_smallest_immediate_renders_exactly() {
    let program = Program(Function(
        "main".to_string(),
        Statement::Return(Expression::Constant(i32::MIN)),
    ));
    assert_eq!(
        generate_code(program),
        ".globl main\nmain:\n  movl -2147483648, %eax\n  ret"
    );
}

#[test]
fn test_constant_round_trip_in_the_accumulator() {
    assert_eq!(
        compile_and_run("int main() { return 42; }"),
        RunOutcome::Returned(42)
    );
    assert_eq!(
        compile_and_run("int main() { return 0; }"),
        RunOutcome::Returned(0)
    );
    assert_eq!(
        compile_and_run("int main() { return 2147483647; }"),
        RunOutcome::Returned(2147483647)
    );
}

#[test]
fn test_logical_not_of_zero_yields_one() {
    assert_eq!(
        compile_and_run("int main() { return !0; }"),
        RunOutcome::Returned(1)
    );
}

#[test]
fn test_logical_not_of_nonzero_yields_zero() {
    assert_eq!(
        compile_and_run("int main() { return !5; }"),
        RunOutcome::Returned(0)
    );
}

#[test]
fn test_negation_and_complement_evaluate() {
    assert_eq!(
        compile_and_run("int main() { return -5; }"),
        RunOutcome::Returned(-5)
    );
    assert_eq!(
        compile_and_run("int main() { return ~0; }"),
        RunOutcome::Returned(-1)
    );
}

#[test]
fn test_left_associative_subtraction_evaluates_to_two() {
    // (8 - 4) - 2, not 8 - (4 - 2)
    assert_eq!(
        compile_and_run("int main() { return 8 - 4 - 2; }"),
        RunOutcome::Returned(2)
    );
}

#[test]
fn test_precedence_evaluates_to_seven() {
    assert_eq!(
        compile_and_run("int main() { return 1 + 2 * 3; }"),
        RunOutcome::Returned(7)
    );
    assert_eq!(
        compile_and_run("int main() { return (1 + 2) * 3; }"),
        RunOutcome::Returned(9)
    );
}

#[test]
fn test_division_truncates_toward_zero() {
    assert_eq!(
        compile_and_run("int main() { return 7 / 2; }"),
        RunOutcome::Returned(3)
    );
    assert_eq!(
        compile_and_run("int main() { return -7 / 2; }"),
        RunOutcome::Returned(-3)
    );
}

#[test]
fn test_division_by_zero_faults() {
    assert_eq!(compile_and_run("int main() { return 1 / 0; }"), RunOutcome::Fault);
}

#[test]
fn test_arithmetic_wraps_like_the_machine() {
    assert_eq!(
        compile_and_run("int main() { return 2147483647 + 1; }"),
        RunOutcome::Returned(i32::MIN)
    );
    assert_eq!(
        compile_and_run("int main() { return 0 - 2147483647 - 2; }"),
        RunOutcome::Returned(i32::MAX)
    );
}

#[test]
fn test_overflowing_division_faults() {
    // the smallest value divided by minus one has no representable quotient
    let program = Program(Function(
        "main".to_string(),
        Statement::Return(Expression::BinaryOpExpression(
            minicc::parser::BinaryOperation::Divide,
            Box::new(Expression::Constant(i32::MIN)),
            Box::new(Expression::Constant(-1)),
        )),
    ));
    let Program(function) = program;
    assert_eq!(
        run_assembly(&generate_asm_for_function(function)),
        RunOutcome::Fault
    );
}

#[test]
fn test_interpreter_reports_code_without_a_return() {
    assert_eq!(run_assembly(&vec![AsmToken::MoveImmediate(5)]), RunOutcome::RanOff);
    assert_eq!(run_assembly(&vec![]), RunOutcome::RanOff);
}

#[test]
fn test_interpreter_faults_on_pop_from_empty_stack() {
    assert_eq!(
        run_assembly(&vec![AsmToken::PopAccumulator, AsmToken::Ret]),
        RunOutcome::Fault
    );
}

#[test]
fn test_function_name_appears_in_the_label() {
    let assembly = compile("int answer() { return 1; }");
    assert_eq!(assembly, ".globl answer\nanswer:\n  movl 1, %eax\n  ret");
}
