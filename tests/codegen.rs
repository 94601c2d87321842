use expr_compiler::ast::{BinaryOp, Expression, UnaryOp};
use expr_compiler::codegen::{codegen, instructions};
use expr_compiler::context::Context;
use expr_compiler::machine::{Cond, Instr};

fn lit(v: i64) -> Box<Expression> {
    Box::new(Expression::Int(v))
}

fn boolean(b: bool) -> Box<Expression> {
    Box::new(Expression::Bool(b))
}

fn bin(op: BinaryOp, a: Box<Expression>, b: Box<Expression>) -> Box<Expression> {
    Box::new(Expression::BinaryOp(op, a, b))
}

fn un(op: UnaryOp, a: Box<Expression>) -> Box<Expression> {
    Box::new(Expression::UnaryOp(op, a))
}

fn cond(t: Box<Expression>, c: Box<Expression>, a: Box<Expression>) -> Box<Expression> {
    Box::new(Expression::Conditional(t, c, a))
}

const HEADER: &str = ".intel_syntax noprefix\n.globl main\n.globl _main\nmain:\n_main:\n";

/// Runs generated code on a model of the target: `None` where it faults.
fn run(code: &[Instr]) -> Option<i64> {
    let (mut rax, mut rcx, mut rdx): (i64, i64, i64) = (0, 0, 0);
    let mut flags: Option<(i64, i64)> = None;
    let mut stack: Vec<i64> = Vec::new();
    let mut pc: usize = 0;
    let jump = |l: u64, pc: usize| -> usize {
        let t = code.iter().position(|i| *i == Instr::Label(l)).expect("undefined label");
        assert!(t > pc, "backward jump");
        t
    };
    while pc < code.len() {
        let mut next = pc + 1;
        match code[pc] {
            Instr::LoadImm(v) => rax = v,
            Instr::Push => stack.push(rax),
            Instr::PopRcx => rcx = stack.pop()?,
            Instr::PopRax => rax = stack.pop()?,
            Instr::MoveRcxRax => rcx = rax,
            Instr::Mul => {
                rax = rax.wrapping_mul(rcx);
                flags = None;
            }
            Instr::Add => {
                rax = rax.wrapping_add(rcx);
                flags = None;
            }
            Instr::Sub => {
                rax = rax.wrapping_sub(rcx);
                flags = None;
            }
            Instr::SignExtend => rdx = if rax < 0 { -1 } else { 0 },
            Instr::Div => {
                let d = ((rdx as i128) << 64) | (rax as u64 as i128);
                if rcx == 0 {
                    return None;
                }
                let q = d / rcx as i128;
                if q < i64::MIN as i128 || q > i64::MAX as i128 {
                    return None;
                }
                rax = q as i64;
                rdx = (d % rcx as i128) as i64;
                flags = None;
            }
            Instr::Neg => {
                rax = rax.wrapping_neg();
                flags = None;
            }
            Instr::CompareRcxRax => flags = Some((rcx, rax)),
            Instr::CompareZero => flags = Some((rax, 0)),
            Instr::SetIf(c) => {
                let (x, y) = flags?;
                let b = match c {
                    Cond::Less => x < y,
                    Cond::LessEqual => x <= y,
                    Cond::Greater => x > y,
                    Cond::GreaterEqual => x >= y,
                    Cond::Equal => x == y,
                    Cond::NotEqual => x != y,
                };
                rax = (rax & !0xff) | (b as i64);
            }
            Instr::JumpIfEqual(l) => {
                let (x, y) = flags?;
                if x == y {
                    next = jump(l, pc);
                }
            }
            Instr::JumpIfNotEqual(l) => {
                let (x, y) = flags?;
                if x != y {
                    next = jump(l, pc);
                }
            }
            Instr::Jump(l) => next = jump(l, pc),
            Instr::Label(_) => {}
        }
        pc = next;
    }
    assert!(stack.is_empty(), "unbalanced stack");
    Some(rax)
}

fn value_of(e: &Expression) -> Option<i64> {
    run(&instructions(e))
}

#[test]
fn sum_times_four_is_twenty() {
    let e = bin(BinaryOp::Multiply, bin(BinaryOp::Add, lit(2), lit(3)), lit(4));
    assert_eq!(value_of(&e), Some(20));
    let expected = format!(
        "{}mov rax, 2\npush rax\nmov rax, 3\npop rcx\nadd rax, rcx\npush rax\nmov rax, 4\npop rcx\nimul rax, rcx\nret\n",
        HEADER
    );
    assert_eq!(codegen(&e), expected);
}

#[test]
fn conditional_takes_consequent() {
    let e = cond(bin(BinaryOp::LessThan, lit(1), lit(2)), lit(10), lit(20));
    assert_eq!(value_of(&e), Some(10));
    let expected = format!(
        "{}mov rax, 1\npush rax\nmov rax, 2\npop rcx\ncmp rcx, rax\nmov rax, 0\nsetl al\ncmp rax, 0\nje .L0\nmov rax, 10\njmp .L1\n.L0:\nmov rax, 20\n.L1:\nret\n",
        HEADER
    );
    assert_eq!(codegen(&e), expected);
}

#[test]
fn conditional_takes_alternate() {
    let e = cond(bin(BinaryOp::GreaterThan, lit(1), lit(2)), lit(10), lit(20));
    assert_eq!(value_of(&e), Some(20));
}

#[test]
fn true_and_false_is_zero() {
    let e = bin(BinaryOp::And, boolean(true), boolean(false));
    assert_eq!(value_of(&e), Some(0));
    let expected = format!(
        "{}mov rax, 1\ncmp rax, 0\njne .L1\njmp .L0\n.L1:\nmov rax, 0\ncmp rax, 0\nmov rax, 0\nsetne al\n.L0:\nret\n",
        HEADER
    );
    assert_eq!(codegen(&e), expected);
}

#[test]
fn not_zero_is_one() {
    let e = un(UnaryOp::Not, lit(0));
    assert_eq!(value_of(&e), Some(1));
    assert_eq!(value_of(&un(UnaryOp::Not, lit(5))), Some(0));
    assert_eq!(
        codegen(&e),
        format!("{}mov rax, 0\ncmp rax, 0\nmov rax, 0\nsete al\nret\n", HEADER)
    );
}

#[test]
fn division_by_zero_compiles_and_faults() {
    let e = bin(BinaryOp::Divide, lit(7), lit(0));
    let text = codegen(&e);
    assert!(text.contains("idiv rcx\n"));
    assert_eq!(value_of(&e), None);
}

#[test]
fn literals_load_their_value() {
    for v in [0i64, 1, -1, 42, -5, i64::MAX, i64::MIN] {
        assert_eq!(instructions(&Expression::Int(v)), vec![Instr::LoadImm(v)]);
        assert_eq!(value_of(&Expression::Int(v)), Some(v));
    }
    assert_eq!(codegen(&Expression::Int(-5)), format!("{}mov rax, -5\nret\n", HEADER));
    assert_eq!(
        codegen(&Expression::Int(i64::MIN)),
        format!("{}mov rax, -9223372036854775808\nret\n", HEADER)
    );
    assert_eq!(value_of(&Expression::Bool(true)), Some(1));
    assert_eq!(value_of(&Expression::Bool(false)), Some(0));
}

#[test]
fn arithmetic_matches_native() {
    let pairs = [(7i64, 3i64), (-7, 3), (7, -3), (-7, -3), (0, 5), (i64::MAX, 1), (i64::MIN, 1)];
    for (a, b) in pairs {
        assert_eq!(value_of(&bin(BinaryOp::Add, lit(a), lit(b))), Some(a.wrapping_add(b)));
        assert_eq!(value_of(&bin(BinaryOp::Sub, lit(a), lit(b))), Some(a.wrapping_sub(b)));
        assert_eq!(value_of(&bin(BinaryOp::Multiply, lit(a), lit(b))), Some(a.wrapping_mul(b)));
        assert_eq!(value_of(&bin(BinaryOp::Divide, lit(a), lit(b))), Some(a / b));
    }
    assert_eq!(value_of(&bin(BinaryOp::Divide, lit(i64::MIN), lit(-1))), None);
    assert_eq!(value_of(&un(UnaryOp::Minus, lit(9))), Some(-9));
}

#[test]
fn subtraction_evaluates_right_first() {
    let code = instructions(&bin(BinaryOp::Sub, lit(10), lit(4)));
    assert_eq!(
        code,
        vec![Instr::LoadImm(4), Instr::Push, Instr::LoadImm(10), Instr::PopRcx, Instr::Sub]
    );
}

#[test]
fn comparisons_give_zero_or_one() {
    let ops = [
        BinaryOp::LessThan,
        BinaryOp::LessThanOrEqual,
        BinaryOp::GreaterThan,
        BinaryOp::GreaterThanOrEqual,
        BinaryOp::Equal,
        BinaryOp::NotEqual,
    ];
    for (a, b) in [(1i64, 2i64), (2, 1), (3, 3), (-4, 4)] {
        let native = [a < b, a <= b, a > b, a >= b, a == b, a != b];
        for (op, want) in ops.iter().zip(native.iter()) {
            let got = value_of(&bin(*op, lit(a), lit(b)));
            assert_eq!(got, Some(*want as i64));
        }
    }
}

#[test]
fn and_skips_right_when_left_is_zero() {
    let faulting = bin(BinaryOp::Divide, lit(1), lit(0));
    let e = bin(BinaryOp::And, lit(0), faulting);
    assert_eq!(value_of(&e), Some(0));
    assert_eq!(value_of(&bin(BinaryOp::And, lit(3), lit(7))), Some(1));
}

#[test]
fn or_skips_right_when_left_is_nonzero() {
    let faulting = bin(BinaryOp::Divide, lit(1), lit(0));
    let e = bin(BinaryOp::Or, lit(5), faulting);
    assert_eq!(value_of(&e), Some(1));
    assert_eq!(value_of(&bin(BinaryOp::Or, lit(0), lit(0))), Some(0));
    assert_eq!(value_of(&bin(BinaryOp::Or, lit(0), lit(-2))), Some(1));
}

#[test]
fn conditional_runs_only_the_chosen_branch() {
    let faulting = bin(BinaryOp::Divide, lit(1), lit(0));
    assert_eq!(value_of(&cond(lit(1), lit(8), faulting)), Some(8));
    let faulting = bin(BinaryOp::Divide, lit(1), lit(0));
    assert_eq!(value_of(&cond(lit(0), faulting, lit(9))), Some(9));
}

#[test]
fn stack_is_balanced_for_nested_expression() {
    let e = bin(
        BinaryOp::Add,
        bin(BinaryOp::Multiply, lit(2), bin(BinaryOp::Sub, lit(9), lit(4))),
        cond(bin(BinaryOp::Or, boolean(false), lit(1)), un(UnaryOp::Minus, lit(3)), lit(0)),
    );
    assert_eq!(value_of(&e), Some(7));
}

#[test]
fn labels_are_unique_in_one_pass() {
    let e = cond(
        bin(BinaryOp::And, boolean(true), bin(BinaryOp::Or, lit(0), lit(1))),
        cond(lit(1), lit(2), lit(3)),
        lit(4),
    );
    let code = instructions(&e);
    let labels: Vec<u64> = code
        .iter()
        .filter_map(|i| if let Instr::Label(l) = i { Some(*l) } else { None })
        .collect();
    assert_eq!(labels.len(), 8);
    for (k, l) in labels.iter().enumerate() {
        assert!(!labels[k + 1..].contains(l));
    }
    assert_eq!(value_of(&e), Some(2));
}

#[test]
fn context_hands_out_increasing_labels() {
    let mut ctx = Context::empty();
    assert_eq!(ctx.unique_label(), 0);
    assert_eq!(ctx.unique_label(), 1);
    assert_eq!(ctx.unique_label(), 2);
    let mut other = Context::empty();
    assert_eq!(other.unique_label(), 0);
}

#[test]
fn generate_appends_to_existing_code() {
    let mut out = vec![Instr::Push];
    let mut ctx = Context::empty();
    bin(BinaryOp::Or, lit(0), lit(1)).generate(&mut out, &mut ctx);
    assert_eq!(out[0], Instr::Push);
    assert_eq!(out[1], Instr::LoadImm(0));
    assert_eq!(ctx.unique_label(), 2);
}

#[test]
fn labels_needed_counts_branches() {
    assert_eq!(Expression::Int(1).labels_needed(), Some(0));
    let e = cond(bin(BinaryOp::And, lit(1), lit(2)), bin(BinaryOp::Add, lit(1), lit(2)), un(UnaryOp::Not, lit(0)));
    assert_eq!(e.labels_needed(), Some(4));
    let mut ctx = Context::empty();
    let mut out = Vec::new();
    e.generate(&mut out, &mut ctx);
    assert_eq!(ctx.unique_label(), 4);
}
