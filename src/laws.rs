use vstd::prelude::*;
use crate::ast::{compare, eval, is_comparison, trunc_div, in_word, truth, wrap, BinaryOp, Expression};
use crate::codegen::{compile, label_count};
use crate::correctness::{
    labels_distinct, lemma_compile_correct, lemma_compile_jumps_ahead,
    lemma_compile_labels_distinct, lemma_compile_labels_used, lemma_exec_cons, labels_used, resolves,
};
use crate::machine::{exec, Instr, State};

verus! {

/// Running the whole code generated for `e` from `st` ends where `e` has a
/// value, with that value in `rax` and the stack as it was; where `e`
/// faults, the run faults.
pub proof fn generated_code_evaluates(e: Expression, n: int, st: State) -> (s: State)
    requires
        0 <= n,
        n + label_count(e) <= u64::MAX,
    ensures
        eval(e) is None ==> exec(compile(e, n), st) is None,
        eval(e) is Some ==> exec(compile(e, n), st) == Some(s) && s.rax == eval(e)->Some_0
            && s.stack == st.stack,
{
    let s = lemma_compile_correct(e, n, Seq::empty(), st);
    assert(compile(e, n) + Seq::<Instr>::empty() =~= compile(e, n));
    s
}

/// An integer literal's code loads exactly that integer and changes nothing else.
pub proof fn int_literal_loads_value(v: i64, n: int, st: State)
    requires
        0 <= n <= u64::MAX,
    ensures
        exec(compile(Expression::Int(v), n), st) == Some(State { rax: v as int, ..st }),
{
    lemma_exec_cons(Instr::LoadImm(v), Seq::empty(), st);
    assert(seq![Instr::LoadImm(v)] + Seq::<Instr>::empty() =~= seq![Instr::LoadImm(v)]);
}

/// A boolean literal's code loads 1 for true and 0 for false.
pub proof fn bool_literal_loads_truth(b: bool, n: int, st: State)
    requires
        0 <= n <= u64::MAX,
    ensures
        exec(compile(Expression::Bool(b), n), st) == Some(
            State { rax: if b { 1int } else { 0int }, ..st },
        ),
{
    let i = Instr::LoadImm(if b { 1i64 } else { 0i64 });
    lemma_exec_cons(i, Seq::empty(), st);
    assert(seq![i] + Seq::<Instr>::empty() =~= seq![i]);
}

/// Addition, subtraction and multiplication of two operands that have
/// values give the 64-bit wrapping result of the native operation.
pub proof fn arithmetic_matches_native(op: BinaryOp, a: Expression, b: Expression, n: int, st: State) -> (s: State)
    requires
        op == BinaryOp::Add || op == BinaryOp::Sub || op == BinaryOp::Multiply,
        eval(a) is Some,
        eval(b) is Some,
        0 <= n,
        n + label_count(a) + label_count(b) <= u64::MAX,
    ensures
        ({
            let e = Expression::BinaryOp(op, Box::new(a), Box::new(b));
            let x = eval(a)->Some_0;
            let y = eval(b)->Some_0;
            exec(compile(e, n), st) == Some(s) && s.stack == st.stack && s.rax == if op
                == BinaryOp::Add {
                wrap(x + y)
            } else if op == BinaryOp::Sub {
                wrap(x - y)
            } else {
                wrap(x * y)
            }
        }),
{
    generated_code_evaluates(Expression::BinaryOp(op, Box::new(a), Box::new(b)), n, st)
}

/// Division by a nonzero divisor gives the quotient rounded toward zero,
/// where it fits in 64 bits; a zero divisor faults when the code runs.
pub proof fn division_truncates(a: Expression, b: Expression, n: int, st: State) -> (s: State)
    requires
        eval(a) is Some,
        eval(b) is Some,
        0 <= n,
        n + label_count(a) + label_count(b) <= u64::MAX,
    ensures
        ({
            let e = Expression::BinaryOp(BinaryOp::Divide, Box::new(a), Box::new(b));
            let x = eval(a)->Some_0;
            let y = eval(b)->Some_0;
            &&& y == 0 ==> exec(compile(e, n), st) is None
            &&& y != 0 && in_word(trunc_div(x, y)) ==> exec(compile(e, n), st) == Some(s) && s.rax
                == trunc_div(x, y) && s.stack == st.stack
        }),
{
    generated_code_evaluates(Expression::BinaryOp(BinaryOp::Divide, Box::new(a), Box::new(b)), n, st)
}

/// A comparison gives exactly 1 where the native comparison holds and 0
/// where it does not.
pub proof fn comparison_gives_truth(op: BinaryOp, a: Expression, b: Expression, n: int, st: State) -> (s: State)
    requires
        is_comparison(op),
        eval(a) is Some,
        eval(b) is Some,
        0 <= n,
        n + label_count(a) + label_count(b) <= u64::MAX,
    ensures
        exec(compile(Expression::BinaryOp(op, Box::new(a), Box::new(b)), n), st) == Some(s),
        s.rax == truth(compare(op, eval(a)->Some_0, eval(b)->Some_0)),
        s.rax == 0 || s.rax == 1,
{
    generated_code_evaluates(Expression::BinaryOp(op, Box::new(a), Box::new(b)), n, st)
}

/// Where the left operand of `&&` is 0, the result is 0 and the right
/// operand never runs: the code ends without fault even where the right
/// operand's code would fault.
pub proof fn and_short_circuits(a: Expression, b: Expression, n: int, st: State) -> (s: State)
    requires
        eval(a) == Some(0int),
        0 <= n,
        n + 2 + label_count(a) + label_count(b) <= u64::MAX,
    ensures
        exec(compile(Expression::BinaryOp(BinaryOp::And, Box::new(a), Box::new(b)), n), st)
            == Some(s),
        s.rax == 0,
{
    generated_code_evaluates(Expression::BinaryOp(BinaryOp::And, Box::new(a), Box::new(b)), n, st)
}

/// Where the left operand of `||` is nonzero, the result is 1 and the right
/// operand never runs.
pub proof fn or_short_circuits(a: Expression, b: Expression, n: int, st: State) -> (s: State)
    requires
        eval(a) is Some,
        eval(a)->Some_0 != 0,
        0 <= n,
        n + 2 + label_count(a) + label_count(b) <= u64::MAX,
    ensures
        exec(compile(Expression::BinaryOp(BinaryOp::Or, Box::new(a), Box::new(b)), n), st)
            == Some(s),
        s.rax == 1,
{
    generated_code_evaluates(Expression::BinaryOp(BinaryOp::Or, Box::new(a), Box::new(b)), n, st)
}

/// The code of any expression that has a value leaves the stack as deep,
/// and with the same contents, as it found it.
pub proof fn stack_is_balanced(e: Expression, n: int, st: State) -> (s: State)
    requires
        eval(e) is Some,
        0 <= n,
        n + label_count(e) <= u64::MAX,
    ensures
        exec(compile(e, n), st) == Some(s),
        s.stack == st.stack,
        s.stack.len() == st.stack.len(),
{
    generated_code_evaluates(e, n, st)
}

/// Exactly one branch of a conditional runs, chosen by whether the test is
/// zero: the outcome is that of the chosen branch alone, whatever the other
/// branch would do.
pub proof fn conditional_runs_one_branch(t: Expression, c: Expression, a: Expression, n: int, st: State) -> (s: State)
    requires
        eval(t) is Some,
        0 <= n,
        n + 2 + label_count(t) + label_count(c) + label_count(a) <= u64::MAX,
    ensures
        ({
            let e = Expression::Conditional(Box::new(t), Box::new(c), Box::new(a));
            let chosen = if eval(t)->Some_0 == 0 {
                a
            } else {
                c
            };
            &&& eval(chosen) is None ==> exec(compile(e, n), st) is None
            &&& eval(chosen) is Some ==> exec(compile(e, n), st) == Some(s) && s.rax == eval(
                chosen,
            )->Some_0 && s.stack == st.stack
        }),
{
    generated_code_evaluates(Expression::Conditional(Box::new(t), Box::new(c), Box::new(a)), n, st)
}

/// One generation pass never hands out a label twice: in the code for `e`
/// no label is defined at two places.
pub proof fn labels_are_unique(e: Expression, n: int)
    requires
        0 <= n,
        n + label_count(e) <= u64::MAX,
    ensures
        labels_distinct(compile(e, n)),
{
    lemma_compile_labels_distinct(e, n);
}

/// In the code for `e`, every label that a jump names is defined exactly
/// once, after the jump, and every label defined there is named by an
/// earlier jump.
pub proof fn jumps_and_labels_pair_up(e: Expression, n: int)
    requires
        0 <= n,
        n + label_count(e) <= u64::MAX,
    ensures
        resolves(compile(e, n), Seq::empty()),
        labels_distinct(compile(e, n)),
        labels_used(Seq::empty(), compile(e, n)),
{
    lemma_compile_jumps_ahead(e, n);
    lemma_compile_labels_used(e, n);
    lemma_compile_labels_distinct(e, n);
}

} // verus!
