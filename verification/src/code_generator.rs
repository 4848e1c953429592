//! Lowering of the syntax tree to textual assembly.
//!
//! Generation is a pure, single-pass, post-order walk: an expression's
//! operands are lowered before the instruction that combines them, and the
//! running value always lives in the accumulator register `%eax`. A binary
//! operation spills its left operand to the machine stack while the right
//! operand is evaluated, then moves the right operand to the scratch
//! register `%ecx` and pops the left operand back, so the combining
//! instruction always sees the left operand in `%eax` and the right in
//! `%ecx`.
//!
//! The emitted instructions are first collected as [`AsmToken`] values —
//! which the [`crate::machine`] module gives a semantics — and only then
//! rendered to text, so that what the text means is itself something that
//! can be stated and proved.

use crate::parser::{BinaryOperation, Expression, Function, Program, Statement, UnaryOperation};
use vstd::prelude::*;
use vstd::string::StringExecFns;

verus! {

/// One element of the emitted assembly, in the order it is written out.
#[derive(Debug, PartialEq, Eq)]
pub enum AsmToken {
    /// The `.globl NAME` declaration and the `NAME:` label that open a
    /// function.
    FunctionStart(String),
    /// `movl IMM, %eax`: load an immediate into the accumulator.
    MoveImmediate(i32),
    /// `neg %eax`: arithmetically negate the accumulator in place.
    Negate,
    /// `not %eax`: bitwise-complement the accumulator in place.
    Complement,
    /// `cmpl $0, %eax`: set the equality flag iff the accumulator is zero.
    CompareZero,
    /// `movl $0, %eax`: zero the accumulator, leaving the flags alone.
    ClearAccumulator,
    /// `sete %al`: set the accumulator's low byte from the equality flag.
    SetIfEqual,
    /// `push %rax`: push the accumulator onto the machine stack.
    PushAccumulator,
    /// `movl %eax, %ecx`: copy the accumulator to the scratch register.
    MoveAccumulatorToScratch,
    /// `pop %rax`: pop the machine stack into the accumulator.
    PopAccumulator,
    /// `addl %ecx, %eax`: accumulator += scratch, wrapping.
    AddScratch,
    /// `subl %ecx, %eax`: accumulator -= scratch, wrapping.
    SubtractScratch,
    /// `imull %ecx, %eax`: accumulator *= scratch, wrapping.
    MultiplyScratch,
    /// `cdq`: sign-extend the accumulator in preparation for division.
    SignExtend,
    /// `idivl %ecx`: signed division of the accumulator by the scratch
    /// register; quotient stays in the accumulator.
    DivideByScratch,
    /// `ret`: return with the result in the accumulator.
    Ret,
}

// ===== The instructions an AST lowers to =====

/// The instructions that leave the value of `e` in the accumulator.
pub open spec fn spec_expression_asm(e: Expression) -> Seq<AsmToken>
    decreases e,
{
    match e {
        Expression::Constant(v) => seq![AsmToken::MoveImmediate(v)],
        Expression::UnaryOpExpression(op, inner) => spec_expression_asm(*inner) + (match op {
            UnaryOperation::Negation => seq![AsmToken::Negate],
            UnaryOperation::BitwiseNot => seq![AsmToken::Complement],
            UnaryOperation::LogicalNot => seq![
                AsmToken::CompareZero,
                AsmToken::ClearAccumulator,
                AsmToken::SetIfEqual,
            ],
        }),
        Expression::BinaryOpExpression(op, left, right) => spec_expression_asm(*left) + seq![
            AsmToken::PushAccumulator,
        ] + spec_expression_asm(*right) + seq![
            AsmToken::MoveAccumulatorToScratch,
            AsmToken::PopAccumulator,
        ] + (match op {
            BinaryOperation::Add => seq![AsmToken::AddScratch],
            BinaryOperation::Subtract => seq![AsmToken::SubtractScratch],
            BinaryOperation::Multiply => seq![AsmToken::MultiplyScratch],
            BinaryOperation::Divide => seq![AsmToken::SignExtend, AsmToken::DivideByScratch],
        }),
    }
}

pub open spec fn spec_statement_asm(s: Statement) -> Seq<AsmToken> {
    match s {
        Statement::Return(e) => spec_expression_asm(e) + seq![AsmToken::Ret],
    }
}

pub open spec fn spec_function_asm(f: Function) -> Seq<AsmToken> {
    seq![AsmToken::FunctionStart(f.0)] + spec_statement_asm(f.1)
}

pub open spec fn spec_program_asm(p: Program) -> Seq<AsmToken> {
    spec_function_asm(p.0)
}

fn generate_asm_for_expression(expression: Expression) -> (v: Vec<AsmToken>)
    ensures
        v@ == spec_expression_asm(expression),
    decreases expression,
{
    match expression {
        Expression::Constant(value) => {
            let mut out: Vec<AsmToken> = Vec::new();
            out.push(AsmToken::MoveImmediate(value));
            proof {
                assert(out@ =~= spec_expression_asm(Expression::Constant(value)));
            }
            out
        },
        Expression::UnaryOpExpression(op, inner) => {
            let mut out = generate_asm_for_expression(*inner);
            match op {
                UnaryOperation::Negation => {
                    out.push(AsmToken::Negate);
                },
                UnaryOperation::BitwiseNot => {
                    out.push(AsmToken::Complement);
                },
                UnaryOperation::LogicalNot => {
                    out.push(AsmToken::CompareZero);
                    out.push(AsmToken::ClearAccumulator);
                    out.push(AsmToken::SetIfEqual);
                },
            }
            proof {
                assert(out@ =~= spec_expression_asm(expression));
            }
            out
        },
        Expression::BinaryOpExpression(op, left, right) => {
            let mut out = generate_asm_for_expression(*left);
            out.push(AsmToken::PushAccumulator);
            let mut rhs = generate_asm_for_expression(*right);
            out.append(&mut rhs);
            out.push(AsmToken::MoveAccumulatorToScratch);
            out.push(AsmToken::PopAccumulator);
            match op {
                BinaryOperation::Add => {
                    out.push(AsmToken::AddScratch);
                },
                BinaryOperation::Subtract => {
                    out.push(AsmToken::SubtractScratch);
                },
                BinaryOperation::Multiply => {
                    out.push(AsmToken::MultiplyScratch);
                },
                BinaryOperation::Divide => {
                    out.push(AsmToken::SignExtend);
                    out.push(AsmToken::DivideByScratch);
                },
            }
            proof {
                assert(out@ =~= spec_expression_asm(expression));
            }
            out
        },
    }
}

fn generate_asm_for_statement(statement: Statement) -> (v: Vec<AsmToken>)
    ensures
        v@ == spec_statement_asm(statement),
{
    match statement {
        Statement::Return(expression) => {
            let mut out = generate_asm_for_expression(expression);
            out.push(AsmToken::Ret);
            proof {
                assert(out@ =~= spec_statement_asm(statement));
            }
            out
        },
    }
}

/// The instruction sequence for a whole function: its symbol declaration
/// and label, then its lowered body.
pub fn generate_asm_for_function(function: Function) -> (v: Vec<AsmToken>)
    ensures
        v@ == spec_function_asm(function),
{
    let ghost spec_f = function;
    let Function(name, body) = function;
    let mut out: Vec<AsmToken> = Vec::new();
    out.push(AsmToken::FunctionStart(name));
    let mut rest = generate_asm_for_statement(body);
    out.append(&mut rest);
    proof {
        assert(out@ =~= spec_function_asm(spec_f));
    }
    out
}

// ===== Rendering instructions as text =====

pub open spec fn spec_digit_char(d: int) -> char {
    if d == 0 {
        '0'
    } else if d == 1 {
        '1'
    } else if d == 2 {
        '2'
    } else if d == 3 {
        '3'
    } else if d == 4 {
        '4'
    } else if d == 5 {
        '5'
    } else if d == 6 {
        '6'
    } else if d == 7 {
        '7'
    } else if d == 8 {
        '8'
    } else {
        '9'
    }
}

/// The decimal digits of a non-negative number.
pub open spec fn spec_nat_text(n: int) -> Seq<char>
    decreases n,
{
    if n < 10 {
        seq![spec_digit_char(n)]
    } else {
        spec_nat_text(n / 10).push(spec_digit_char(n % 10))
    }
}

/// The decimal rendering of a signed number.
pub open spec fn spec_int_text(v: int) -> Seq<char> {
    if v < 0 {
        seq!['-'] + spec_nat_text(-v)
    } else {
        spec_nat_text(v)
    }
}

fn digit_str(d: u32) -> (r: &'static str)
    requires
        d < 10,
    ensures
        r@ == seq![spec_digit_char(d as int)],
{
    let r = if d == 0 {
        "0"
    } else if d == 1 {
        "1"
    } else if d == 2 {
        "2"
    } else if d == 3 {
        "3"
    } else if d == 4 {
        "4"
    } else if d == 5 {
        "5"
    } else if d == 6 {
        "6"
    } else if d == 7 {
        "7"
    } else if d == 8 {
        "8"
    } else {
        "9"
    };
    proof {
        reveal_strlit("0");
        reveal_strlit("1");
        reveal_strlit("2");
        reveal_strlit("3");
        reveal_strlit("4");
        reveal_strlit("5");
        reveal_strlit("6");
        reveal_strlit("7");
        reveal_strlit("8");
        reveal_strlit("9");
        assert(r@ =~= seq![spec_digit_char(d as int)]);
    }
    r
}

fn push_decimal(out: &mut String, n: u32)
    ensures
        final(out)@ == old(out)@ + spec_nat_text(n as int),
    decreases n,
{
    if n >= 10 {
        push_decimal(out, n / 10);
        out.append(digit_str(n % 10));
        proof {
            assert(final(out)@ =~= old(out)@ + spec_nat_text(n as int));
        }
    } else {
        out.append(digit_str(n));
    }
}

fn push_int(out: &mut String, v: i32)
    ensures
        final(out)@ == old(out)@ + spec_int_text(v as int),
{
    if v < 0 {
        out.append("-");
        proof {
            reveal_strlit("-");
        }
        let magnitude = (-(v as i64)) as u32;
        push_decimal(out, magnitude);
        proof {
            assert(final(out)@ =~= old(out)@ + spec_int_text(v as int));
        }
    } else {
        push_decimal(out, v as u32);
    }
}

/// The line (or, for `FunctionStart`, pair of lines) that an assembly
/// element renders to.
pub open spec fn spec_asm_token_text(t: AsmToken) -> Seq<char> {
    match t {
        AsmToken::FunctionStart(name) => ".globl "@ + name@ + "\n"@ + name@ + ":"@,
        AsmToken::MoveImmediate(v) => "  movl "@ + spec_int_text(v as int) + ", %eax"@,
        AsmToken::Negate => "  neg %eax"@,
        AsmToken::Complement => "  not %eax"@,
        AsmToken::CompareZero => "  cmpl $0, %eax"@,
        AsmToken::ClearAccumulator => "  movl $0, %eax"@,
        AsmToken::SetIfEqual => "  sete %al"@,
        AsmToken::PushAccumulator => "  push %rax"@,
        AsmToken::MoveAccumulatorToScratch => "  movl %eax, %ecx"@,
        AsmToken::PopAccumulator => "  pop %rax"@,
        AsmToken::AddScratch => "  addl %ecx, %eax"@,
        AsmToken::SubtractScratch => "  subl %ecx, %eax"@,
        AsmToken::MultiplyScratch => "  imull %ecx, %eax"@,
        AsmToken::SignExtend => "  cdq"@,
        AsmToken::DivideByScratch => "  idivl %ecx"@,
        AsmToken::Ret => "  ret"@,
    }
}

impl AsmToken {
    /// Renders this assembly element.
    pub fn to_text(&self) -> (r: String)
        ensures
            r@ == spec_asm_token_text(*self),
    {
        match self {
            AsmToken::FunctionStart(name) => {
                let mut s = String::from_str(".globl ");
                s.append(name.as_str());
                s.append("\n");
                s.append(name.as_str());
                s.append(":");
                s
            },
            AsmToken::MoveImmediate(v) => {
                let mut s = String::from_str("  movl ");
                push_int(&mut s, *v);
                s.append(", %eax");
                s
            },
            AsmToken::Negate => String::from_str("  neg %eax"),
            AsmToken::Complement => String::from_str("  not %eax"),
            AsmToken::CompareZero => String::from_str("  cmpl $0, %eax"),
            AsmToken::ClearAccumulator => String::from_str("  movl $0, %eax"),
            AsmToken::SetIfEqual => String::from_str("  sete %al"),
            AsmToken::PushAccumulator => String::from_str("  push %rax"),
            AsmToken::MoveAccumulatorToScratch => String::from_str("  movl %eax, %ecx"),
            AsmToken::PopAccumulator => String::from_str("  pop %rax"),
            AsmToken::AddScratch => String::from_str("  addl %ecx, %eax"),
            AsmToken::SubtractScratch => String::from_str("  subl %ecx, %eax"),
            AsmToken::MultiplyScratch => String::from_str("  imull %ecx, %eax"),
            AsmToken::SignExtend => String::from_str("  cdq"),
            AsmToken::DivideByScratch => String::from_str("  idivl %ecx"),
            AsmToken::Ret => String::from_str("  ret"),
        }
    }
}

/// A finished instruction sequence, ready to be rendered.
pub struct AsmProgram(pub Vec<AsmToken>);

/// The newline-joined rendering of an instruction sequence.
pub open spec fn spec_asm_text(ts: Seq<AsmToken>) -> Seq<char>
    decreases ts.len(),
{
    if ts.len() == 0 {
        Seq::empty()
    } else if ts.len() == 1 {
        spec_asm_token_text(ts[0])
    } else {
        spec_asm_text(ts.drop_last()) + "\n"@ + spec_asm_token_text(ts.last())
    }
}

impl AsmProgram {
    /// Renders the whole sequence, one instruction per line.
    pub fn to_text(&self) -> (r: String)
        ensures
            r@ == spec_asm_text(self.0@),
    {
        let mut out = String::new();
        let mut i: usize = 0;
        while i < self.0.len()
            invariant
                i <= self.0@.len(),
                out@ == spec_asm_text(self.0@.take(i as int)),
            decreases self.0@.len() - i,
        {
            if i > 0 {
                out.append("\n");
            }
            let line = self.0[i].to_text();
            out.append(line.as_str());
            proof {
                assert(self.0@.take(i + 1).drop_last() =~= self.0@.take(i as int));
                assert(self.0@.take(i + 1).last() == self.0@[i as int]);
                assert(out@ =~= spec_asm_text(self.0@.take(i + 1)));
            }
            i = i + 1;
        }
        proof {
            assert(self.0@.take(self.0@.len() as int) =~= self.0@);
        }
        out
    }
}

/// The assembly text of a whole program.
pub open spec fn spec_generated_assembly(p: Program) -> Seq<char> {
    spec_asm_text(spec_program_asm(p))
}

/// Lowers a program to assembly text.
///
/// Generation is deterministic and total: the result is exactly
/// `spec_generated_assembly(program)`, a pure function of the tree. The
/// first two lines declare and label the function's name; after them comes
/// one instruction per line.
pub fn generate_code(program: Program) -> (r: String)
    ensures
        r@ == spec_generated_assembly(program),
{
    let ghost spec_p = program;
    let Program(function) = program;
    let listing = AsmProgram(generate_asm_for_function(function));
    listing.to_text()
}

} // verus!
