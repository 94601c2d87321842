use vstd::prelude::*;
use vstd::string::StringExecFns;
use crate::machine::{Cond, Instr};

verus! {

pub open spec fn digit_char(d: nat) -> char {
    seq!['0', '1', '2', '3', '4', '5', '6', '7', '8', '9'][d as int]
}

/// The decimal digits of `n`, most significant first.
pub open spec fn digits(n: nat) -> Seq<char>
    decreases n,
{
    if n < 10 {
        seq![digit_char(n)]
    } else {
        digits(n / 10) + seq![digit_char(n % 10)]
    }
}

/// An integer in decimal, with a minus sign where it is negative.
pub open spec fn decimal(v: int) -> Seq<char> {
    if v < 0 {
        seq!['-'] + digits((-v) as nat)
    } else {
        digits(v as nat)
    }
}

/// The name of label number `l`; no such name is `main` or `_main`.
pub open spec fn label_name(l: u64) -> Seq<char> {
    seq!['.', 'L'] + digits(l as nat)
}

pub open spec fn cond_suffix(c: Cond) -> Seq<char> {
    match c {
        Cond::Less => "l"@,
        Cond::LessEqual => "le"@,
        Cond::Greater => "g"@,
        Cond::GreaterEqual => "ge"@,
        Cond::Equal => "e"@,
        Cond::NotEqual => "ne"@,
    }
}

/// The line of assembly for one instruction, with its newline.
pub open spec fn instr_text(i: Instr) -> Seq<char> {
    match i {
        Instr::LoadImm(v) => "mov rax, "@ + decimal(v as int) + "\n"@,
        Instr::Push => "push rax\n"@,
        Instr::PopRcx => "pop rcx\n"@,
        Instr::PopRax => "pop rax\n"@,
        Instr::MoveRcxRax => "mov rcx, rax\n"@,
        Instr::Mul => "imul rax, rcx\n"@,
        Instr::Add => "add rax, rcx\n"@,
        Instr::Sub => "sub rax, rcx\n"@,
        Instr::SignExtend => "cqo\n"@,
        Instr::Div => "idiv rcx\n"@,
        Instr::Neg => "neg rax\n"@,
        Instr::CompareRcxRax => "cmp rcx, rax\n"@,
        Instr::CompareZero => "cmp rax, 0\n"@,
        Instr::SetIf(c) => "set"@ + cond_suffix(c) + " al\n"@,
        Instr::JumpIfEqual(l) => "je "@ + label_name(l) + "\n"@,
        Instr::JumpIfNotEqual(l) => "jne "@ + label_name(l) + "\n"@,
        Instr::Jump(l) => "jmp "@ + label_name(l) + "\n"@,
        Instr::Label(l) => label_name(l) + ":\n"@,
    }
}

pub open spec fn lines(code: Seq<Instr>) -> Seq<char>
    decreases code.len(),
{
    if code.len() == 0 {
        Seq::empty()
    } else {
        lines(code.drop_last()) + instr_text(code.last())
    }
}

pub open spec fn prologue() -> Seq<char> {
    ".intel_syntax noprefix\n.globl main\n.globl _main\nmain:\n_main:\n"@
}

pub open spec fn epilogue() -> Seq<char> {
    "ret\n"@
}

/// The whole assembly file for `code`: the syntax and entry-symbol header,
/// one line per instruction, and the return.
pub open spec fn program_text(code: Seq<Instr>) -> Seq<char> {
    prologue() + lines(code) + epilogue()
}

fn digit_str(d: u64) -> (r: &'static str)
    requires
        d < 10,
    ensures
        r@ == seq![digit_char(d as nat)],
{
    proof {
        reveal_strlit("0");
        reveal_strlit("1");
        reveal_strlit("2");
        reveal_strlit("3");
        reveal_strlit("4");
        reveal_strlit("5");
        reveal_strlit("6");
        reveal_strlit("7");
        reveal_strlit("8");
        reveal_strlit("9");
    }
    let r = if d == 0 {
        "0"
    } else if d == 1 {
        "1"
    } else if d == 2 {
        "2"
    } else if d == 3 {
        "3"
    } else if d == 4 {
        "4"
    } else if d == 5 {
        "5"
    } else if d == 6 {
        "6"
    } else if d == 7 {
        "7"
    } else if d == 8 {
        "8"
    } else {
        "9"
    };
    assert(r@ =~= seq![digit_char(d as nat)]);
    r
}

fn append_digits(out: &mut String, v: u64)
    ensures
        final(out)@ == old(out)@ + digits(v as nat),
    decreases v,
{
    if v >= 10 {
        append_digits(out, v / 10);
    }
    out.append(digit_str(v % 10));
    assert(out@ =~= old(out)@ + digits(v as nat));
}

fn append_decimal(out: &mut String, v: i64)
    ensures
        final(out)@ == old(out)@ + decimal(v as int),
{
    if v < 0 {
        proof {
            reveal_strlit("-");
        }
        out.append("-");
        let m: u64 = (-(v as i128)) as u64;
        append_digits(out, m);
        assert(out@ =~= old(out)@ + decimal(v as int));
    } else {
        append_digits(out, v as u64);
    }
}

fn append_label(out: &mut String, l: u64)
    ensures
        final(out)@ == old(out)@ + label_name(l),
{
    proof {
        reveal_strlit(".L");
    }
    out.append(".L");
    append_digits(out, l);
    assert(out@ =~= old(out)@ + label_name(l));
}

fn append_instr(out: &mut String, i: Instr)
    ensures
        final(out)@ == old(out)@ + instr_text(i),
{
    match i {
        Instr::LoadImm(v) => {
            out.append("mov rax, ");
            append_decimal(out, v);
            out.append("\n");
        },
        Instr::Push => out.append("push rax\n"),
        Instr::PopRcx => out.append("pop rcx\n"),
        Instr::PopRax => out.append("pop rax\n"),
        Instr::MoveRcxRax => out.append("mov rcx, rax\n"),
        Instr::Mul => out.append("imul rax, rcx\n"),
        Instr::Add => out.append("add rax, rcx\n"),
        Instr::Sub => out.append("sub rax, rcx\n"),
        Instr::SignExtend => out.append("cqo\n"),
        Instr::Div => out.append("idiv rcx\n"),
        Instr::Neg => out.append("neg rax\n"),
        Instr::CompareRcxRax => out.append("cmp rcx, rax\n"),
        Instr::CompareZero => out.append("cmp rax, 0\n"),
        Instr::SetIf(c) => {
            out.append("set");
            match c {
                Cond::Less => out.append("l"),
                Cond::LessEqual => out.append("le"),
                Cond::Greater => out.append("g"),
                Cond::GreaterEqual => out.append("ge"),
                Cond::Equal => out.append("e"),
                Cond::NotEqual => out.append("ne"),
            }
            out.append(" al\n");
        },
        Instr::JumpIfEqual(l) => {
            out.append("je ");
            append_label(out, l);
            out.append("\n");
        },
        Instr::JumpIfNotEqual(l) => {
            out.append("jne ");
            append_label(out, l);
            out.append("\n");
        },
        Instr::Jump(l) => {
            out.append("jmp ");
            append_label(out, l);
            out.append("\n");
        },
        Instr::Label(l) => {
            append_label(out, l);
            out.append(":\n");
        },
    }
    assert(out@ =~= old(out)@ + instr_text(i));
}

/// The assembly file for `code`, as text.
pub fn render(code: &Vec<Instr>) -> (r: String)
    ensures
        r@ == program_text(code@),
{
    let mut out = String::from_str(".intel_syntax noprefix\n.globl main\n.globl _main\nmain:\n_main:\n");
    let mut i: usize = 0;
    while i < code.len()
        invariant
            i <= code@.len(),
            out@ == prologue() + lines(code@.subrange(0, i as int)),
        decreases code@.len() - i,
    {
        append_instr(&mut out, code[i]);
        assert(code@.subrange(0, i + 1).drop_last() =~= code@.subrange(0, i as int));
        assert(code@.subrange(0, i + 1).last() == code@[i as int]);
        i = i + 1;
        assert(out@ =~= prologue() + lines(code@.subrange(0, i as int)));
    }
    assert(code@.subrange(0, code@.len() as int) =~= code@);
    out.append("ret\n");
    out
}

} // verus!
