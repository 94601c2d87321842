use vstd::prelude::*;
use crate::ast::{BinaryOp, Expression, UnaryOp};
use crate::context::Context;
use crate::machine::{Cond, Instr};
use crate::text::{program_text, render};

verus! {

/// The number of labels that generating `e` allocates.
pub open spec fn label_count(e: Expression) -> nat
    decreases e,
{
    match e {
        Expression::Int(_) => 0,
        Expression::Bool(_) => 0,
        Expression::UnaryOp(_, a) => label_count(*a),
        Expression::BinaryOp(op, a, b) => (if op == BinaryOp::And || op == BinaryOp::Or {
            2nat
        } else {
            0nat
        }) + label_count(*a) + label_count(*b),
        Expression::Conditional(t, c, a) => 2 + label_count(*t) + label_count(*c) + label_count(*a),
    }
}

pub open spec fn label(n: int) -> u64 {
    n as u64
}

pub open spec fn condition_of(op: BinaryOp) -> Cond {
    match op {
        BinaryOp::LessThan => Cond::Less,
        BinaryOp::LessThanOrEqual => Cond::LessEqual,
        BinaryOp::GreaterThan => Cond::Greater,
        BinaryOp::GreaterThanOrEqual => Cond::GreaterEqual,
        BinaryOp::Equal => Cond::Equal,
        _ => Cond::NotEqual,
    }
}

/// The instructions that end a strict binary operator, once the operand
/// evaluated first has been pushed and the other one is in `rax`.
pub open spec fn binary_tail(op: BinaryOp) -> Seq<Instr> {
    match op {
        BinaryOp::Multiply => seq![Instr::PopRcx, Instr::Mul],
        BinaryOp::Add => seq![Instr::PopRcx, Instr::Add],
        BinaryOp::Sub => seq![Instr::PopRcx, Instr::Sub],
        BinaryOp::Divide => seq![Instr::MoveRcxRax, Instr::PopRax, Instr::SignExtend, Instr::Div],
        _ => seq![
            Instr::PopRcx,
            Instr::CompareRcxRax,
            Instr::LoadImm(0),
            Instr::SetIf(condition_of(op)),
        ],
    }
}

/// The code for a strict binary operator: the operand evaluated first,
/// saved on the stack, the other operand, then the operator's tail.
pub open spec fn binary_code(op: BinaryOp, first: Seq<Instr>, second: Seq<Instr>) -> Seq<Instr> {
    first + seq![Instr::Push] + second + binary_tail(op)
}

/// The code generated for `e` when its labels are numbered from `n` on:
/// it leaves the value of `e` in `rax` and the stack as it found it.
pub open spec fn compile(e: Expression, n: int) -> Seq<Instr>
    decreases e,
{
    match e {
        Expression::Int(v) => seq![Instr::LoadImm(v)],
        Expression::Bool(b) => seq![Instr::LoadImm(if b { 1i64 } else { 0i64 })],
        Expression::UnaryOp(op, a) => match op {
            UnaryOp::Minus => compile(*a, n) + seq![Instr::Neg],
            UnaryOp::Not => compile(*a, n) + seq![
                Instr::CompareZero,
                Instr::LoadImm(0),
                Instr::SetIf(Cond::Equal),
            ],
        },
        Expression::BinaryOp(op, a, b) => {
            let end = label(n);
            let second = label(n + 1);
            if op == BinaryOp::And {
                let ca = compile(*a, n + 2);
                let cb = compile(*b, n + 2 + label_count(*a));
                ca + seq![
                    Instr::CompareZero,
                    Instr::JumpIfNotEqual(second),
                    Instr::Jump(end),
                    Instr::Label(second),
                ] + cb + seq![
                    Instr::CompareZero,
                    Instr::LoadImm(0),
                    Instr::SetIf(Cond::NotEqual),
                    Instr::Label(end),
                ]
            } else if op == BinaryOp::Or {
                let ca = compile(*a, n + 2);
                let cb = compile(*b, n + 2 + label_count(*a));
                ca + seq![
                    Instr::CompareZero,
                    Instr::JumpIfEqual(second),
                    Instr::LoadImm(1),
                    Instr::Jump(end),
                    Instr::Label(second),
                ] + cb + seq![
                    Instr::CompareZero,
                    Instr::LoadImm(0),
                    Instr::SetIf(Cond::NotEqual),
                    Instr::Label(end),
                ]
            } else if op == BinaryOp::Sub {
                binary_code(op, compile(*b, n), compile(*a, n + label_count(*b)))
            } else {
                binary_code(op, compile(*a, n), compile(*b, n + label_count(*a)))
            }
        },
        Expression::Conditional(t, c, a) => {
            let alt = label(n);
            let end = label(n + 1);
            let ct = compile(*t, n + 2);
            let cc = compile(*c, n + 2 + label_count(*t));
            let ca = compile(*a, n + 2 + label_count(*t) + label_count(*c));
            ct + seq![Instr::CompareZero, Instr::JumpIfEqual(alt)] + cc + seq![
                Instr::Jump(end),
                Instr::Label(alt),
            ] + ca + seq![Instr::Label(end)]
        },
    }
}

fn cond_of(op: BinaryOp) -> (r: Cond)
    ensures
        r == condition_of(op),
{
    match op {
        BinaryOp::LessThan => Cond::Less,
        BinaryOp::LessThanOrEqual => Cond::LessEqual,
        BinaryOp::GreaterThan => Cond::Greater,
        BinaryOp::GreaterThanOrEqual => Cond::GreaterEqual,
        BinaryOp::Equal => Cond::Equal,
        _ => Cond::NotEqual,
    }
}

/// Appends the instructions that end a strict binary operator, once both
/// operands have been generated.
fn emit_binary_tail(op: BinaryOp, out: &mut Vec<Instr>)
    ensures
        final(out)@ == old(out)@ + binary_tail(op),
{
    match op {
        BinaryOp::Multiply => {
            out.push(Instr::PopRcx);
            out.push(Instr::Mul);
        },
        BinaryOp::Add => {
            out.push(Instr::PopRcx);
            out.push(Instr::Add);
        },
        BinaryOp::Sub => {
            out.push(Instr::PopRcx);
            out.push(Instr::Sub);
        },
        BinaryOp::Divide => {
            out.push(Instr::MoveRcxRax);
            out.push(Instr::PopRax);
            out.push(Instr::SignExtend);
            out.push(Instr::Div);
        },
        _ => {
            out.push(Instr::PopRcx);
            out.push(Instr::CompareRcxRax);
            out.push(Instr::LoadImm(0));
            out.push(Instr::SetIf(cond_of(op)));
        },
    }
    assert(out@ =~= old(out)@ + binary_tail(op));
}

impl Expression {
    /// The number of labels that generating this expression takes, or `None`
    /// where that number does not fit in 64 bits.
    pub fn labels_needed(&self) -> (r: Option<u64>)
        ensures
            r matches Some(k) ==> k == label_count(*self),
            r is None ==> label_count(*self) > u64::MAX,
        decreases self,
    {
        match self {
            Expression::Int(_) => Some(0),
            Expression::Bool(_) => Some(0),
            Expression::UnaryOp(_, a) => a.labels_needed(),
            Expression::BinaryOp(op, a, b) => {
                let own: u64 = match op {
                    BinaryOp::And | BinaryOp::Or => 2,
                    _ => 0,
                };
                match (a.labels_needed(), b.labels_needed()) {
                    (Some(x), Some(y)) => match x.checked_add(y) {
                        Some(z) => z.checked_add(own),
                        None => None,
                    },
                    _ => None,
                }
            },
            Expression::Conditional(t, c, a) => {
                match (t.labels_needed(), c.labels_needed(), a.labels_needed()) {
                    (Some(x), Some(y), Some(z)) => match x.checked_add(y) {
                        Some(xy) => match xy.checked_add(z) {
                            Some(xyz) => xyz.checked_add(2),
                            None => None,
                        },
                        None => None,
                    },
                    _ => None,
                }
            },
        }
    }

    /// Appends to `out` the code that evaluates this expression, taking its
    /// labels from `ctx`.
    #[verifier::spinoff_prover]
    #[verifier::rlimit(40)]
    pub fn generate(&self, out: &mut Vec<Instr>, ctx: &mut Context)
        requires
            old(ctx).next_label() + label_count(*self) <= u64::MAX,
        ensures
            final(out)@ == old(out)@ + compile(*self, old(ctx).next_label() as int),
            final(ctx).next_label() == old(ctx).next_label() + label_count(*self),
        decreases self,
    {
        let ghost n = ctx.next_label() as int;
        match self {
            Expression::Int(v) => {
                out.push(Instr::LoadImm(*v));
                assert(out@ =~= old(out)@ + compile(*self, n));
            },
            Expression::Bool(b) => {
                out.push(Instr::LoadImm(if *b { 1 } else { 0 }));
                assert(out@ =~= old(out)@ + compile(*self, n));
            },
            Expression::UnaryOp(op, a) => {
                a.generate(out, ctx);
                match op {
                    UnaryOp::Minus => {
                        out.push(Instr::Neg);
                    },
                    UnaryOp::Not => {
                        out.push(Instr::CompareZero);
                        out.push(Instr::LoadImm(0));
                        out.push(Instr::SetIf(Cond::Equal));
                    },
                }
                assert(out@ =~= old(out)@ + compile(*self, n));
            },
            Expression::BinaryOp(op, a, b) => match op {
                BinaryOp::And => {
                    let end = ctx.unique_label();
                    let second = ctx.unique_label();
                    a.generate(out, ctx);
                    out.push(Instr::CompareZero);
                    out.push(Instr::JumpIfNotEqual(second));
                    out.push(Instr::Jump(end));
                    out.push(Instr::Label(second));
                    b.generate(out, ctx);
                    out.push(Instr::CompareZero);
                    out.push(Instr::LoadImm(0));
                    out.push(Instr::SetIf(Cond::NotEqual));
                    out.push(Instr::Label(end));
                    assert(out@ =~= old(out)@ + compile(*self, n));
                },
                BinaryOp::Or => {
                    let end = ctx.unique_label();
                    let second = ctx.unique_label();
                    a.generate(out, ctx);
                    out.push(Instr::CompareZero);
                    out.push(Instr::JumpIfEqual(second));
                    out.push(Instr::LoadImm(1));
                    out.push(Instr::Jump(end));
                    out.push(Instr::Label(second));
                    b.generate(out, ctx);
                    out.push(Instr::CompareZero);
                    out.push(Instr::LoadImm(0));
                    out.push(Instr::SetIf(Cond::NotEqual));
                    out.push(Instr::Label(end));
                    assert(out@ =~= old(out)@ + compile(*self, n));
                },
                BinaryOp::Sub => {
                    b.generate(out, ctx);
                    out.push(Instr::Push);
                    a.generate(out, ctx);
                    emit_binary_tail(*op, out);
                    assert(out@ =~= old(out)@ + compile(*self, n));
                },
                _ => {
                    a.generate(out, ctx);
                    out.push(Instr::Push);
                    b.generate(out, ctx);
                    emit_binary_tail(*op, out);
                    assert(out@ =~= old(out)@ + compile(*self, n));
                },
            },
            Expression::Conditional(t, c, a) => {
                let alt = ctx.unique_label();
                let end = ctx.unique_label();
                t.generate(out, ctx);
                out.push(Instr::CompareZero);
                out.push(Instr::JumpIfEqual(alt));
                c.generate(out, ctx);
                out.push(Instr::Jump(end));
                out.push(Instr::Label(alt));
                a.generate(out, ctx);
                out.push(Instr::Label(end));
                assert(out@ =~= old(out)@ + compile(*self, n));
            },
        }
    }
}

/// The instructions that evaluate `ast`, with labels numbered from zero.
pub fn instructions(ast: &Expression) -> (r: Vec<Instr>)
    requires
        label_count(*ast) <= u64::MAX,
    ensures
        r@ == compile(*ast, 0),
{
    let mut out: Vec<Instr> = Vec::new();
    let mut ctx = Context::empty();
    ast.generate(&mut out, &mut ctx);
    assert(out@ =~= compile(*ast, 0));
    out
}

/// The assembly file that evaluates `ast`: a header declaring Intel syntax
/// and the entry symbols, the code for `ast`, which leaves its value in
/// `rax`, and a return.
pub fn codegen(ast: &Expression) -> (r: String)
    requires
        label_count(*ast) <= u64::MAX,
    ensures
        r@ == program_text(compile(*ast, 0)),
{
    let code = instructions(ast);
    render(&code)
}

} // verus!
