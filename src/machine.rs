use vstd::prelude::*;
use crate::ast::{in_word, trunc_div, trunc_rem, wrap, word_modulus};

verus! {

/// The condition a `set` instruction tests after a comparison.
#[derive(Debug, PartialEq, Eq, Clone, Copy)]
pub enum Cond {
    Less,
    LessEqual,
    Greater,
    GreaterEqual,
    Equal,
    NotEqual,
}

/// One instruction of the target, in Intel syntax. `rax` is the accumulator,
/// `rcx` the second operand, the hardware stack holds saved values, and a
/// label is named by its number.
#[derive(Debug, PartialEq, Eq, Clone, Copy)]
pub enum Instr {
    /// `mov rax, v`
    LoadImm(i64),
    /// `push rax`
    Push,
    /// `pop rcx`
    PopRcx,
    /// `pop rax`
    PopRax,
    /// `mov rcx, rax`
    MoveRcxRax,
    /// `imul rax, rcx`
    Mul,
    /// `add rax, rcx`
    Add,
    /// `sub rax, rcx`
    Sub,
    /// `cqo`: sign-extends `rax` into `rdx`
    SignExtend,
    /// `idiv rcx`
    Div,
    /// `neg rax`
    Neg,
    /// `cmp rcx, rax`
    CompareRcxRax,
    /// `cmp rax, 0`
    CompareZero,
    /// `setCC al`
    SetIf(Cond),
    /// `je label`
    JumpIfEqual(u64),
    /// `jne label`
    JumpIfNotEqual(u64),
    /// `jmp label`
    Jump(u64),
    /// `label:`
    Label(u64),
}

/// The registers and stack the generated code uses. `flags` holds the two
/// operands of the last comparison, or `None` once an arithmetic instruction
/// has left them unspecified.
pub struct State {
    pub rax: int,
    pub rcx: int,
    pub rdx: int,
    pub flags: Option<(int, int)>,
    pub stack: Seq<int>,
}

pub open spec fn holds(c: Cond, x: int, y: int) -> bool {
    match c {
        Cond::Less => x < y,
        Cond::LessEqual => x <= y,
        Cond::Greater => x > y,
        Cond::GreaterEqual => x >= y,
        Cond::Equal => x == y,
        Cond::NotEqual => x != y,
    }
}

pub open spec fn is_jump(i: Instr) -> bool {
    i is JumpIfEqual || i is JumpIfNotEqual || i is Jump
}

/// The 128-bit dividend `rdx:rax` of `idiv`.
pub open spec fn dividend(st: State) -> int {
    st.rdx * word_modulus() + if st.rax < 0 {
        st.rax + word_modulus()
    } else {
        st.rax
    }
}

/// The effect of one instruction that does not jump; `None` is a fault.
pub open spec fn step(i: Instr, st: State) -> Option<State> {
    match i {
        Instr::LoadImm(v) => Some(State { rax: v as int, ..st }),
        Instr::Push => Some(State { stack: st.stack.push(st.rax), ..st }),
        Instr::PopRcx => if st.stack.len() == 0 {
            None
        } else {
            Some(State { rcx: st.stack.last(), stack: st.stack.drop_last(), ..st })
        },
        Instr::PopRax => if st.stack.len() == 0 {
            None
        } else {
            Some(State { rax: st.stack.last(), stack: st.stack.drop_last(), ..st })
        },
        Instr::MoveRcxRax => Some(State { rcx: st.rax, ..st }),
        Instr::Mul => Some(State { rax: wrap(st.rax * st.rcx), flags: None, ..st }),
        Instr::Add => Some(State { rax: wrap(st.rax + st.rcx), flags: None, ..st }),
        Instr::Sub => Some(State { rax: wrap(st.rax - st.rcx), flags: None, ..st }),
        Instr::SignExtend => Some(State { rdx: if st.rax < 0 { -1 } else { 0 }, ..st }),
        Instr::Div => {
            let d = dividend(st);
            if st.rcx == 0 || !in_word(trunc_div(d, st.rcx)) {
                None
            } else {
                Some(State { rax: trunc_div(d, st.rcx), rdx: trunc_rem(d, st.rcx), flags: None, ..st })
            }
        },
        Instr::Neg => Some(State { rax: wrap(-st.rax), flags: None, ..st }),
        Instr::CompareRcxRax => Some(State { flags: Some((st.rcx, st.rax)), ..st }),
        Instr::CompareZero => Some(State { flags: Some((st.rax, 0)), ..st }),
        Instr::SetIf(c) => match st.flags {
            None => None,
            Some((x, y)) => Some(
                State { rax: st.rax - st.rax % 256 + if holds(c, x, y) { 1int } else { 0int }, ..st },
            ),
        },
        _ => Some(st),
    }
}

/// The code after the first definition of label `l`, where control goes on a
/// jump to `l`; `None` where `l` is not defined.
pub open spec fn skip_to(code: Seq<Instr>, l: u64) -> Option<Seq<Instr>>
    decreases code.len(),
{
    if code.len() == 0 {
        None
    } else if code[0] == Instr::Label(l) {
        Some(code.drop_first())
    } else {
        skip_to(code.drop_first(), l)
    }
}

pub open spec fn jump_to(code: Seq<Instr>, l: u64, st: State) -> Option<State>
    decreases code.len(), 0int,
{
    match skip_to(code.drop_first(), l) {
        None => None,
        Some(t) => if t.len() < code.len() {
            exec(t, st)
        } else {
            None
        },
    }
}

/// Runs `code` from its first instruction to its end, jumping forward to
/// labels; `None` is a fault (or a jump to a label not ahead).
pub open spec fn exec(code: Seq<Instr>, st: State) -> Option<State>
    decreases code.len(), 1int,
{
    if code.len() == 0 {
        Some(st)
    } else {
        match code[0] {
            Instr::Jump(l) => jump_to(code, l, st),
            Instr::JumpIfEqual(l) => match st.flags {
                None => None,
                Some((x, y)) => if x == y {
                    jump_to(code, l, st)
                } else {
                    exec(code.drop_first(), st)
                },
            },
            Instr::JumpIfNotEqual(l) => match st.flags {
                None => None,
                Some((x, y)) => if x != y {
                    jump_to(code, l, st)
                } else {
                    exec(code.drop_first(), st)
                },
            },
            i => match step(i, st) {
                None => None,
                Some(s) => exec(code.drop_first(), s),
            },
        }
    }
}

} // verus!
