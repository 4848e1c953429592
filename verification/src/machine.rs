//! A semantics for the emitted instructions.
//!
//! The code generator's output is a straight line of instructions over one
//! accumulator register, one scratch register, an equality flag and a
//! stack. `spec_run` says what such a line does; `run_assembly` is an
//! executable interpreter proved to agree with it, so tests can run
//! generated code and check what lands in the accumulator.
//!
//! `cdq` only prepares the sign-extended dividend that `idivl` consumes,
//! so the model folds its effect into the division itself, and the
//! division faults — as the processor would — on a zero divisor or on the
//! one overflowing quotient.

use crate::code_generator::{spec_expression_asm, spec_program_asm, AsmToken};
use crate::parser::{BinaryOperation, Expression, Function, Program, Statement, UnaryOperation};
use vstd::prelude::*;
use vstd::wrapping::i32_specs;

verus! {

/// The state the instructions act on.
pub struct MachineState {
    pub accumulator: i32,
    pub scratch: i32,
    pub equal_flag: bool,
    pub stack: Seq<i32>,
}

/// The state a function's code starts in.
pub open spec fn init_state() -> MachineState {
    MachineState { accumulator: 0, scratch: 0, equal_flag: false, stack: Seq::empty() }
}

/// How a run of straight-line code ends.
#[derive(Debug, PartialEq, Eq, Clone, Copy)]
pub enum RunOutcome {
    /// A `ret` was reached with this value in the accumulator.
    Returned(i32),
    /// The machine faulted: a division by zero, the one overflowing
    /// division, or a pop from an empty stack.
    Fault,
    /// The code ran out without reaching a `ret`.
    RanOff,
}

/// Truncated signed division, as the division instruction computes it:
/// `None` on a zero divisor and on the one quotient that does not fit.
pub open spec fn spec_divide(lhs: i32, rhs: i32) -> Option<i32> {
    if rhs == 0 {
        None
    } else {
        let x = lhs as int;
        let d = rhs as int;
        let output = if x == 0 {
            0
        } else if x > 0 && d > 0 {
            x / d
        } else if x < 0 && d < 0 {
            ((x * -1) / (d * -1))
        } else if x < 0 {
            ((x * -1) / d) * -1
        } else {
            (x / (d * -1)) * -1
        };
        if output < i32::MIN || output > i32::MAX {
            None
        } else {
            Some(output as i32)
        }
    }
}

/// `sete %al`: the accumulator with its low byte replaced by the flag.
pub open spec fn spec_set_low_byte(acc: i32, flag: bool) -> i32 {
    ((acc & -256i32) + (if flag {
        1int
    } else {
        0int
    })) as i32
}

/// What running `code` from state `st` does.
pub open spec fn spec_run(code: Seq<AsmToken>, st: MachineState) -> RunOutcome
    decreases code.len(),
{
    if code.len() == 0 {
        RunOutcome::RanOff
    } else {
        let rest = code.skip(1);
        match code[0] {
            AsmToken::FunctionStart(name) => spec_run(rest, st),
            AsmToken::MoveImmediate(v) => spec_run(rest, MachineState { accumulator: v, ..st }),
            AsmToken::Negate => spec_run(
                rest,
                MachineState { accumulator: i32_specs::wrapping_sub(0, st.accumulator), ..st },
            ),
            AsmToken::Complement => spec_run(
                rest,
                MachineState { accumulator: (-1 - st.accumulator) as i32, ..st },
            ),
            AsmToken::CompareZero => spec_run(
                rest,
                MachineState { equal_flag: st.accumulator == 0, ..st },
            ),
            AsmToken::ClearAccumulator => spec_run(rest, MachineState { accumulator: 0, ..st }),
            AsmToken::SetIfEqual => spec_run(
                rest,
                MachineState {
                    accumulator: spec_set_low_byte(st.accumulator, st.equal_flag),
                    ..st
                },
            ),
            AsmToken::PushAccumulator => spec_run(
                rest,
                MachineState { stack: st.stack.push(st.accumulator), ..st },
            ),
            AsmToken::MoveAccumulatorToScratch => spec_run(
                rest,
                MachineState { scratch: st.accumulator, ..st },
            ),
            AsmToken::PopAccumulator => if st.stack.len() == 0 {
                RunOutcome::Fault
            } else {
                spec_run(
                    rest,
                    MachineState {
                        accumulator: st.stack.last(),
                        stack: st.stack.drop_last(),
                        ..st
                    },
                )
            },
            AsmToken::AddScratch => spec_run(
                rest,
                MachineState {
                    accumulator: i32_specs::wrapping_add(st.accumulator, st.scratch),
                    ..st
                },
            ),
            AsmToken::SubtractScratch => spec_run(
                rest,
                MachineState {
                    accumulator: i32_specs::wrapping_sub(st.accumulator, st.scratch),
                    ..st
                },
            ),
            AsmToken::MultiplyScratch => spec_run(
                rest,
                MachineState {
                    accumulator: i32_specs::wrapping_mul(st.accumulator, st.scratch),
                    ..st
                },
            ),
            AsmToken::SignExtend => spec_run(rest, st),
            AsmToken::DivideByScratch => match spec_divide(st.accumulator, st.scratch) {
                Some(q) => spec_run(rest, MachineState { accumulator: q, ..st }),
                None => RunOutcome::Fault,
            },
            AsmToken::Ret => RunOutcome::Returned(st.accumulator),
        }
    }
}

/// Runs an instruction sequence from the initial state, exactly as
/// `spec_run` prescribes.
pub fn run_assembly(code: &Vec<AsmToken>) -> (r: RunOutcome)
    ensures
        r == spec_run(code@, init_state()),
{
    let mut accumulator: i32 = 0;
    let mut scratch: i32 = 0;
    let mut equal_flag: bool = false;
    let mut stack: Vec<i32> = Vec::new();
    let mut i: usize = 0;
    proof {
        assert(code@.skip(0) =~= code@);
    }
    while i < code.len()
        invariant
            i <= code@.len(),
            spec_run(code@, init_state()) == spec_run(
                code@.skip(i as int),
                MachineState { accumulator, scratch, equal_flag, stack: stack@ },
            ),
        decreases code@.len() - i,
    {
        proof {
            assert(code@.skip(i as int).skip(1) =~= code@.skip(i + 1));
        }
        match &code[i] {
            AsmToken::FunctionStart(_) => {},
            AsmToken::MoveImmediate(v) => {
                accumulator = *v;
            },
            AsmToken::Negate => {
                accumulator = 0i32.wrapping_sub(accumulator);
            },
            AsmToken::Complement => {
                accumulator = -1 - accumulator;
            },
            AsmToken::CompareZero => {
                equal_flag = accumulator == 0;
            },
            AsmToken::ClearAccumulator => {
                accumulator = 0;
            },
            AsmToken::SetIfEqual => {
                proof {
                    assert((accumulator & -256i32) <= 0x7fffff00i32) by (bit_vector);
                }
                let base = accumulator & -256;
                accumulator = base + (if equal_flag {
                    1
                } else {
                    0
                });
            },
            AsmToken::PushAccumulator => {
                stack.push(accumulator);
            },
            AsmToken::MoveAccumulatorToScratch => {
                scratch = accumulator;
            },
            AsmToken::PopAccumulator => {
                match stack.pop() {
                    Some(v) => {
                        accumulator = v;
                    },
                    None => {
                        return RunOutcome::Fault;
                    },
                }
            },
            AsmToken::AddScratch => {
                accumulator = accumulator.wrapping_add(scratch);
            },
            AsmToken::SubtractScratch => {
                accumulator = accumulator.wrapping_sub(scratch);
            },
            AsmToken::MultiplyScratch => {
                accumulator = accumulator.wrapping_mul(scratch);
            },
            AsmToken::SignExtend => {},
            AsmToken::DivideByScratch => {
                match accumulator.checked_div(scratch) {
                    Some(q) => {
                        accumulator = q;
                    },
                    None => {
                        return RunOutcome::Fault;
                    },
                }
            },
            AsmToken::Ret => {
                return RunOutcome::Returned(accumulator);
            },
        }
        i = i + 1;
    }
    RunOutcome::RanOff
}

// ===== The generated code computes the expression =====

/// The value of an expression under the machine's arithmetic: wrapping
/// negation, addition, subtraction and multiplication, and the faulting
/// division of `spec_divide`. `None` is a fault.
pub open spec fn spec_eval(e: Expression) -> Option<i32>
    decreases e,
{
    match e {
        Expression::Constant(v) => Some(v),
        Expression::UnaryOpExpression(op, inner) => match spec_eval(*inner) {
            Some(v) => Some(
                match op {
                    UnaryOperation::Negation => i32_specs::wrapping_sub(0, v),
                    UnaryOperation::BitwiseNot => (-1 - v) as i32,
                    UnaryOperation::LogicalNot => if v == 0 {
                        1i32
                    } else {
                        0i32
                    },
                },
            ),
            None => None,
        },
        Expression::BinaryOpExpression(op, left, right) => match spec_eval(*left) {
            Some(a) => match spec_eval(*right) {
                Some(b) => match op {
                    BinaryOperation::Add => Some(i32_specs::wrapping_add(a, b)),
                    BinaryOperation::Subtract => Some(i32_specs::wrapping_sub(a, b)),
                    BinaryOperation::Multiply => Some(i32_specs::wrapping_mul(a, b)),
                    BinaryOperation::Divide => spec_divide(a, b),
                },
                None => None,
            },
            None => None,
        },
    }
}

/// The state in which an expression's instructions leave the machine: its
/// value in the accumulator, the scratch register and flag clobbered as
/// the instructions clobber them, the stack as it was. (The stack-length
/// guard only keeps the definition total; `lemma_expr_effect_stack` shows
/// the code never pops an empty stack.)
pub open spec fn spec_expr_effect(e: Expression, st: MachineState) -> Option<MachineState>
    decreases e,
{
    match e {
        Expression::Constant(v) => Some(MachineState { accumulator: v, ..st }),
        Expression::UnaryOpExpression(op, inner) => match spec_expr_effect(*inner, st) {
            Some(st1) => Some(
                match op {
                    UnaryOperation::Negation => MachineState {
                        accumulator: i32_specs::wrapping_sub(0, st1.accumulator),
                        ..st1
                    },
                    UnaryOperation::BitwiseNot => MachineState {
                        accumulator: (-1 - st1.accumulator) as i32,
                        ..st1
                    },
                    UnaryOperation::LogicalNot => MachineState {
                        accumulator: if st1.accumulator == 0 {
                            1i32
                        } else {
                            0i32
                        },
                        equal_flag: st1.accumulator == 0,
                        ..st1
                    },
                },
            ),
            None => None,
        },
        Expression::BinaryOpExpression(op, left, right) => match spec_expr_effect(*left, st) {
            Some(st1) => {
                let pushed = MachineState { stack: st1.stack.push(st1.accumulator), ..st1 };
                match spec_expr_effect(*right, pushed) {
                    Some(st2) => if st2.stack.len() > 0 {
                        let st3 = MachineState {
                            accumulator: st2.stack.last(),
                            scratch: st2.accumulator,
                            stack: st2.stack.drop_last(),
                            ..st2
                        };
                        match op {
                            BinaryOperation::Add => Some(
                                MachineState {
                                    accumulator: i32_specs::wrapping_add(
                                        st3.accumulator,
                                        st3.scratch,
                                    ),
                                    ..st3
                                },
                            ),
                            BinaryOperation::Subtract => Some(
                                MachineState {
                                    accumulator: i32_specs::wrapping_sub(
                                        st3.accumulator,
                                        st3.scratch,
                                    ),
                                    ..st3
                                },
                            ),
                            BinaryOperation::Multiply => Some(
                                MachineState {
                                    accumulator: i32_specs::wrapping_mul(
                                        st3.accumulator,
                                        st3.scratch,
                                    ),
                                    ..st3
                                },
                            ),
                            BinaryOperation::Divide => match spec_divide(
                                st3.accumulator,
                                st3.scratch,
                            ) {
                                Some(q) => Some(MachineState { accumulator: q, ..st3 }),
                                None => None,
                            },
                        }
                    } else {
                        None
                    },
                    None => None,
                }
            },
            None => None,
        },
    }
}

/// An expression's instructions leave the stack exactly as they found it.
pub proof fn lemma_expr_effect_stack(e: Expression, st: MachineState)
    ensures
        spec_expr_effect(e, st) matches Some(st2) ==> st2.stack == st.stack,
    decreases e,
{
    match e {
        Expression::Constant(v) => {},
        Expression::UnaryOpExpression(op, inner) => {
            lemma_expr_effect_stack(*inner, st);
        },
        Expression::BinaryOpExpression(op, left, right) => {
            lemma_expr_effect_stack(*left, st);
            match spec_expr_effect(*left, st) {
                Some(st1) => {
                    let pushed = MachineState { stack: st1.stack.push(st1.accumulator), ..st1 };
                    lemma_expr_effect_stack(*right, pushed);
                },
                None => {},
            }
        },
    }
}

/// The accumulator an expression's instructions produce is the value of
/// the expression, whatever state they start from; and they fault exactly
/// when evaluation faults.
pub proof fn lemma_expr_effect_eval(e: Expression, st: MachineState)
    ensures
        (spec_expr_effect(e, st) is Some) == (spec_eval(e) is Some),
        spec_expr_effect(e, st) matches Some(st2) ==> spec_eval(e) == Some(st2.accumulator),
    decreases e,
{
    match e {
        Expression::Constant(v) => {},
        Expression::UnaryOpExpression(op, inner) => {
            lemma_expr_effect_eval(*inner, st);
        },
        Expression::BinaryOpExpression(op, left, right) => {
            lemma_expr_effect_eval(*left, st);
            match spec_expr_effect(*left, st) {
                Some(st1) => {
                    let pushed = MachineState { stack: st1.stack.push(st1.accumulator), ..st1 };
                    lemma_expr_effect_eval(*right, pushed);
                    lemma_expr_effect_stack(*right, pushed);
                },
                None => {},
            }
        },
    }
}

/// Running an expression's instructions followed by `rest` is running
/// `rest` from the state the expression leaves behind — or a fault.
pub proof fn lemma_expression_asm_runs(e: Expression, rest: Seq<AsmToken>, st: MachineState)
    ensures
        spec_run(spec_expression_asm(e) + rest, st) == (match spec_expr_effect(e, st) {
            Some(st2) => spec_run(rest, st2),
            None => RunOutcome::Fault,
        }),
    decreases e, 1int,
{
    match e {
        Expression::Constant(v) => {
            let whole = spec_expression_asm(e) + rest;
            assert(whole[0] == AsmToken::MoveImmediate(v));
            assert(whole.skip(1) =~= rest);
        },
        Expression::UnaryOpExpression(op, inner) => {
            lemma_unary_asm_runs(e, op, *inner, rest, st);
        },
        Expression::BinaryOpExpression(op, left, right) => {
            lemma_binary_asm_runs(e, op, *left, *right, rest, st);
        },
    }
}

proof fn lemma_unary_asm_runs(
    e: Expression,
    op: UnaryOperation,
    inner: Expression,
    rest: Seq<AsmToken>,
    st: MachineState,
)
    requires
        e == Expression::UnaryOpExpression(op, Box::new(inner)),
    ensures
        spec_run(spec_expression_asm(e) + rest, st) == (match spec_expr_effect(e, st) {
            Some(st2) => spec_run(rest, st2),
            None => RunOutcome::Fault,
        }),
    decreases e, 0int,
{
    let opcode = match op {
        UnaryOperation::Negation => seq![AsmToken::Negate],
        UnaryOperation::BitwiseNot => seq![AsmToken::Complement],
        UnaryOperation::LogicalNot => seq![
            AsmToken::CompareZero,
            AsmToken::ClearAccumulator,
            AsmToken::SetIfEqual,
        ],
    };
    let tail = opcode + rest;
    assert(spec_expression_asm(e) + rest =~= spec_expression_asm(inner) + tail);
    lemma_expression_asm_runs(inner, tail, st);
    match spec_expr_effect(inner, st) {
        Some(st1) => {
            assert(spec_run(spec_expression_asm(e) + rest, st) == spec_run(tail, st1));
            match op {
                UnaryOperation::Negation => {
                    let done = MachineState {
                        accumulator: i32_specs::wrapping_sub(0, st1.accumulator),
                        ..st1
                    };
                    assert(tail[0] == AsmToken::Negate);
                    assert(tail.skip(1) =~= rest);
                    assert(spec_run(tail, st1) == spec_run(rest, done));
                    assert(spec_expr_effect(e, st) == Some(done));
                },
                UnaryOperation::BitwiseNot => {
                    let done = MachineState {
                        accumulator: (-1 - st1.accumulator) as i32,
                        ..st1
                    };
                    assert(tail[0] == AsmToken::Complement);
                    assert(tail.skip(1) =~= rest);
                    assert(spec_run(tail, st1) == spec_run(rest, done));
                    assert(spec_expr_effect(e, st) == Some(done));
                },
                UnaryOperation::LogicalNot => {
                    let tail2 = seq![AsmToken::ClearAccumulator, AsmToken::SetIfEqual] + rest;
                    let tail3 = seq![AsmToken::SetIfEqual] + rest;
                    let compared = MachineState { equal_flag: st1.accumulator == 0, ..st1 };
                    let cleared = MachineState { accumulator: 0, ..compared };
                    let done = MachineState {
                        accumulator: spec_set_low_byte(0, compared.equal_flag),
                        ..cleared
                    };
                    assert(tail[0] == AsmToken::CompareZero);
                    assert(tail.skip(1) =~= tail2);
                    assert(spec_run(tail, st1) == spec_run(tail2, compared));
                    assert(tail2[0] == AsmToken::ClearAccumulator);
                    assert(tail2.skip(1) =~= tail3);
                    assert(spec_run(tail2, compared) == spec_run(tail3, cleared));
                    assert(tail3[0] == AsmToken::SetIfEqual);
                    assert(tail3.skip(1) =~= rest);
                    assert(spec_run(tail3, cleared) == spec_run(rest, done));
                    assert(0i32 & -256i32 == 0i32) by (bit_vector);
                    assert(done.accumulator == (if st1.accumulator == 0 {
                        1i32
                    } else {
                        0i32
                    }));
                    assert(spec_expr_effect(e, st) == Some(done));
                },
            }
        },
        None => {
            assert(spec_run(spec_expression_asm(e) + rest, st) == RunOutcome::Fault);
            assert(spec_expr_effect(e, st) is None);
        },
    }
}

#[verifier::rlimit(50)]
#[verifier::spinoff_prover]
proof fn lemma_binary_asm_runs(
    e: Expression,
    op: BinaryOperation,
    left: Expression,
    right: Expression,
    rest: Seq<AsmToken>,
    st: MachineState,
)
    requires
        e == Expression::BinaryOpExpression(op, Box::new(left), Box::new(right)),
    ensures
        spec_run(spec_expression_asm(e) + rest, st) == (match spec_expr_effect(e, st) {
            Some(st2) => spec_run(rest, st2),
            None => RunOutcome::Fault,
        }),
    decreases e, 0int,
{
    let opcode = match op {
        BinaryOperation::Add => seq![AsmToken::AddScratch],
        BinaryOperation::Subtract => seq![AsmToken::SubtractScratch],
        BinaryOperation::Multiply => seq![AsmToken::MultiplyScratch],
        BinaryOperation::Divide => seq![AsmToken::SignExtend, AsmToken::DivideByScratch],
    };
    let tail3 = seq![AsmToken::MoveAccumulatorToScratch, AsmToken::PopAccumulator] + (opcode
        + rest);
    let tail2 = spec_expression_asm(right) + tail3;
    let tail1 = seq![AsmToken::PushAccumulator] + tail2;
    assert(spec_expression_asm(e) + rest =~= spec_expression_asm(left) + tail1);
    lemma_expression_asm_runs(left, tail1, st);
    match spec_expr_effect(left, st) {
        Some(st1) => {
            assert(spec_run(spec_expression_asm(e) + rest, st) == spec_run(tail1, st1));
            let pushed = MachineState { stack: st1.stack.push(st1.accumulator), ..st1 };
            assert(tail1[0] == AsmToken::PushAccumulator);
            assert(tail1.skip(1) =~= tail2);
            assert(spec_run(tail1, st1) == spec_run(tail2, pushed));
            lemma_expression_asm_runs(right, tail3, pushed);
            match spec_expr_effect(right, pushed) {
                Some(st2) => {
                    assert(spec_run(tail2, pushed) == spec_run(tail3, st2));
                    lemma_expr_effect_stack(right, pushed);
                    assert(st2.stack == st1.stack.push(st1.accumulator));
                    let tail4 = seq![AsmToken::PopAccumulator] + (opcode + rest);
                    let moved = MachineState { scratch: st2.accumulator, ..st2 };
                    assert(tail3[0] == AsmToken::MoveAccumulatorToScratch);
                    assert(tail3.skip(1) =~= tail4);
                    assert(spec_run(tail3, st2) == spec_run(tail4, moved));
                    assert(moved.stack.len() > 0);
                    let popped = MachineState {
                        accumulator: moved.stack.last(),
                        stack: moved.stack.drop_last(),
                        ..moved
                    };
                    assert(tail4[0] == AsmToken::PopAccumulator);
                    assert(tail4.skip(1) =~= opcode + rest);
                    assert(spec_run(tail4, moved) == spec_run(opcode + rest, popped));
                    match op {
                        BinaryOperation::Add => {
                            let done = MachineState {
                                accumulator: i32_specs::wrapping_add(
                                    popped.accumulator,
                                    popped.scratch,
                                ),
                                ..popped
                            };
                            assert((opcode + rest)[0] == AsmToken::AddScratch);
                            assert((opcode + rest).skip(1) =~= rest);
                            assert(spec_run(opcode + rest, popped) == spec_run(rest, done));
                            assert(spec_expr_effect(e, st) == Some(done));
                        },
                        BinaryOperation::Subtract => {
                            let done = MachineState {
                                accumulator: i32_specs::wrapping_sub(
                                    popped.accumulator,
                                    popped.scratch,
                                ),
                                ..popped
                            };
                            assert((opcode + rest)[0] == AsmToken::SubtractScratch);
                            assert((opcode + rest).skip(1) =~= rest);
                            assert(spec_run(opcode + rest, popped) == spec_run(rest, done));
                            assert(spec_expr_effect(e, st) == Some(done));
                        },
                        BinaryOperation::Multiply => {
                            let done = MachineState {
                                accumulator: i32_specs::wrapping_mul(
                                    popped.accumulator,
                                    popped.scratch,
                                ),
                                ..popped
                            };
                            assert((opcode + rest)[0] == AsmToken::MultiplyScratch);
                            assert((opcode + rest).skip(1) =~= rest);
                            assert(spec_run(opcode + rest, popped) == spec_run(rest, done));
                            assert(spec_expr_effect(e, st) == Some(done));
                        },
                        BinaryOperation::Divide => {
                            let tail5 = seq![AsmToken::DivideByScratch] + rest;
                            assert((opcode + rest)[0] == AsmToken::SignExtend);
                            assert((opcode + rest).skip(1) =~= tail5);
                            assert(spec_run(opcode + rest, popped) == spec_run(tail5, popped));
                            assert(tail5[0] == AsmToken::DivideByScratch);
                            assert(tail5.skip(1) =~= rest);
                            match spec_divide(popped.accumulator, popped.scratch) {
                                Some(q) => {
                                    let done = MachineState { accumulator: q, ..popped };
                                    assert(spec_run(tail5, popped) == spec_run(rest, done));
                                    assert(spec_expr_effect(e, st) == Some(done));
                                },
                                None => {
                                    assert(spec_run(tail5, popped) == RunOutcome::Fault);
                                    assert(spec_expr_effect(e, st) is None);
                                },
                            }
                        },
                    }
                },
                None => {
                    assert(spec_run(tail2, pushed) == RunOutcome::Fault);
                    assert(spec_expr_effect(e, st) is None);
                },
            }
        },
        None => {
            assert(spec_run(spec_expression_asm(e) + rest, st) == RunOutcome::Fault);
            assert(spec_expr_effect(e, st) is None);
        },
    }
}

/// The expression a program returns.
pub open spec fn spec_returned_expression(p: Program) -> Expression {
    match p.0.1 {
        Statement::Return(e) => e,
    }
}

/// Law: the generated code computes the returned expression. Running a
/// lowered program from the initial state returns exactly the value of
/// its expression under the machine's wrapping arithmetic, and faults
/// exactly when evaluation faults (a division by zero, or the one
/// overflowing division).
pub proof fn lemma_generated_code_correct(p: Program)
    ensures
        spec_run(spec_program_asm(p), init_state()) == (match spec_eval(
            spec_returned_expression(p),
        ) {
            Some(v) => RunOutcome::Returned(v),
            None => RunOutcome::Fault,
        }),
{
    let e = spec_returned_expression(p);
    let code = spec_program_asm(p);
    let body = spec_expression_asm(e) + seq![AsmToken::Ret];
    assert(code[0] == AsmToken::FunctionStart(p.0.0));
    assert(code.skip(1) =~= body);
    lemma_expression_asm_runs(e, seq![AsmToken::Ret], init_state());
    lemma_expr_effect_eval(e, init_state());
    match spec_expr_effect(e, init_state()) {
        Some(st2) => {
            assert(spec_run(seq![AsmToken::Ret], st2) == RunOutcome::Returned(st2.accumulator));
        },
        None => {},
    }
}

/// Law: lowering `int NAME() { return N; }` and running the result leaves
/// exactly N in the accumulator — a constant survives the round trip
/// through code generation and execution.
pub proof fn lemma_constant_round_trip(name: String, value: i32)
    ensures
        spec_run(
            spec_program_asm(
                Program(Function(name, Statement::Return(Expression::Constant(value)))),
            ),
            init_state(),
        ) == RunOutcome::Returned(value),
{
    let p = Program(Function(name, Statement::Return(Expression::Constant(value))));
    lemma_generated_code_correct(p);
    assert(spec_eval(spec_returned_expression(p)) == Some(value));
}

} // verus!
