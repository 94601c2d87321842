use vstd::prelude::*;
use crate::ast::{
    apply_binary, compare, eval, is_comparison, trunc_div, trunc_rem, truth, wrap, BinaryOp,
    Expression, UnaryOp,
};
use crate::codegen::{binary_code, binary_tail, compile, condition_of, label, label_count};
use crate::machine::{dividend, exec, holds, jump_to, is_jump, skip_to, step, Cond, Instr, State};

verus! {

/// Runs straight-line code, which holds no jump.
pub open spec fn run(p: Seq<Instr>, st: State) -> Option<State>
    decreases p.len(),
{
    if p.len() == 0 {
        Some(st)
    } else {
        match step(p[0], st) {
            None => None,
            Some(s) => run(p.drop_first(), s),
        }
    }
}

pub open spec fn no_jumps(p: Seq<Instr>) -> bool {
    forall|k: int| 0 <= k < p.len() ==> !is_jump(#[trigger] p[k])
}

/// Every label that `code` defines has a number in `lo .. hi`.
pub open spec fn labels_within(code: Seq<Instr>, lo: int, hi: int) -> bool {
    forall|k: int|
        0 <= k < code.len() && (#[trigger] code[k]) is Label ==> lo <= code[k]->Label_0 as int
            && (code[k]->Label_0 as int) < hi
}

/// Where control goes on a jump to `l` with `rest` ahead.
pub open spec fn follow(rest: Seq<Instr>, l: u64, st: State) -> Option<State> {
    match skip_to(rest, l) {
        None => None,
        Some(t) => exec(t, st),
    }
}

/// One instruction `i` executed with `rest` ahead.
pub open spec fn exec_cons(i: Instr, rest: Seq<Instr>, st: State) -> Option<State> {
    match i {
        Instr::Jump(l) => follow(rest, l, st),
        Instr::JumpIfEqual(l) => match st.flags {
            None => None,
            Some((x, y)) => if x == y {
                follow(rest, l, st)
            } else {
                exec(rest, st)
            },
        },
        Instr::JumpIfNotEqual(l) => match st.flags {
            None => None,
            Some((x, y)) => if x != y {
                follow(rest, l, st)
            } else {
                exec(rest, st)
            },
        },
        _ => match step(i, st) {
            None => None,
            Some(s) => exec(rest, s),
        },
    }
}

proof fn lemma_skip_shorter(code: Seq<Instr>, l: u64)
    ensures
        skip_to(code, l) matches Some(t) ==> t.len() < code.len(),
    decreases code.len(),
{
    if code.len() > 0 {
        lemma_skip_shorter(code.drop_first(), l);
    }
}

proof fn lemma_skip_cons(i: Instr, rest: Seq<Instr>, l: u64)
    ensures
        skip_to(seq![i] + rest, l) == if i == Instr::Label(l) {
            Some(rest)
        } else {
            skip_to(rest, l)
        },
{
    let code = seq![i] + rest;
    assert(code[0] == i);
    assert(code.drop_first() =~= rest);
}

pub proof fn lemma_exec_cons(i: Instr, rest: Seq<Instr>, st: State)
    ensures
        exec(seq![i] + rest, st) == exec_cons(i, rest, st),
{
    let code = seq![i] + rest;
    assert(code[0] == i);
    assert(code.drop_first() =~= rest);
    match i {
        Instr::Jump(l) => {
            lemma_skip_shorter(rest, l);
            assert(jump_to(code, l, st) == follow(rest, l, st));
        },
        Instr::JumpIfEqual(l) => {
            lemma_skip_shorter(rest, l);
            assert(jump_to(code, l, st) == follow(rest, l, st));
        },
        Instr::JumpIfNotEqual(l) => {
            lemma_skip_shorter(rest, l);
            assert(jump_to(code, l, st) == follow(rest, l, st));
        },
        _ => {},
    }
}

proof fn lemma_skip_over(a: Seq<Instr>, b: Seq<Instr>, l: u64)
    requires
        forall|k: int| 0 <= k < a.len() ==> a[k] != Instr::Label(l),
    ensures
        skip_to(a + b, l) == skip_to(b, l),
    decreases a.len(),
{
    if a.len() == 0 {
        assert(a + b =~= b);
    } else {
        let code = a + b;
        assert(code[0] == a[0]);
        assert(code.drop_first() =~= a.drop_first() + b);
        lemma_skip_over(a.drop_first(), b, l);
    }
}

proof fn lemma_skip_outside(a: Seq<Instr>, b: Seq<Instr>, l: u64, lo: int, hi: int)
    requires
        labels_within(a, lo, hi),
        !(lo <= l as int && (l as int) < hi),
    ensures
        skip_to(a + b, l) == skip_to(b, l),
{
    assert forall|k: int| 0 <= k < a.len() implies a[k] != Instr::Label(l) by {
        if a[k] == Instr::Label(l) {
            assert(a[k] is Label);
        }
    }
    lemma_skip_over(a, b, l);
}

proof fn lemma_exec_straight(p: Seq<Instr>, rest: Seq<Instr>, st: State)
    requires
        no_jumps(p),
    ensures
        exec(p + rest, st) == match run(p, st) {
            None => None,
            Some(s) => exec(rest, s),
        },
    decreases p.len(),
{
    if p.len() == 0 {
        assert(p + rest =~= rest);
    } else {
        let code = p + rest;
        assert(code[0] == p[0]);
        assert(code.drop_first() =~= p.drop_first() + rest);
        assert(!is_jump(p[0]));
        match step(p[0], st) {
            None => {},
            Some(s) => {
                assert(no_jumps(p.drop_first())) by {
                    assert forall|k: int| 0 <= k < p.drop_first().len() implies !is_jump(
                        #[trigger] p.drop_first()[k],
                    ) by {
                        assert(p.drop_first()[k] == p[k + 1]);
                    }
                }
                lemma_exec_straight(p.drop_first(), rest, s);
            },
        }
    }
}

proof fn lemma_within_concat(a: Seq<Instr>, b: Seq<Instr>, lo: int, hi: int)
    requires
        labels_within(a, lo, hi),
        labels_within(b, lo, hi),
    ensures
        labels_within(a + b, lo, hi),
{
    assert forall|k: int| 0 <= k < (a + b).len() && (#[trigger] (a + b)[k]) is Label implies lo
        <= (a + b)[k]->Label_0 as int && ((a + b)[k]->Label_0 as int) < hi by {
        if k < a.len() {
            assert((a + b)[k] == a[k]);
        } else {
            assert((a + b)[k] == b[k - a.len()]);
        }
    }
}

proof fn lemma_within_widen(a: Seq<Instr>, lo: int, hi: int, lo2: int, hi2: int)
    requires
        labels_within(a, lo, hi),
        lo2 <= lo,
        hi <= hi2,
    ensures
        labels_within(a, lo2, hi2),
{
}

/// The labels that the code for `e` defines are the numbers handed out
/// while generating it.
pub proof fn lemma_compile_labels(e: Expression, n: int)
    requires
        0 <= n,
        n + label_count(e) <= u64::MAX,
    ensures
        labels_within(compile(e, n), n, n + label_count(e)),
    decreases e,
{
    let hi = n + label_count(e);
    match e {
        Expression::Int(_) => {},
        Expression::Bool(_) => {},
        Expression::UnaryOp(op, a) => {
            lemma_compile_labels(*a, n);
            lemma_within_concat(compile(*a, n), seq![Instr::Neg], n, hi);
            lemma_within_concat(
                compile(*a, n),
                seq![Instr::CompareZero, Instr::LoadImm(0), Instr::SetIf(Cond::Equal)],
                n,
                hi,
            );
        },
        Expression::BinaryOp(op, a, b) => {
            if op == BinaryOp::And || op == BinaryOp::Or {
                let na = n + 2;
                let nb = n + 2 + label_count(*a);
                lemma_compile_labels(*a, na);
                lemma_compile_labels(*b, nb);
                lemma_within_widen(compile(*a, na), na, nb, n, hi);
                lemma_within_widen(compile(*b, nb), nb, hi, n, hi);
                let s1 = if op == BinaryOp::And {
                    seq![
                        Instr::CompareZero,
                        Instr::JumpIfNotEqual(label(n + 1)),
                        Instr::Jump(label(n)),
                        Instr::Label(label(n + 1)),
                    ]
                } else {
                    seq![
                        Instr::CompareZero,
                        Instr::JumpIfEqual(label(n + 1)),
                        Instr::LoadImm(1),
                        Instr::Jump(label(n)),
                        Instr::Label(label(n + 1)),
                    ]
                };
                let s2 = seq![
                    Instr::CompareZero,
                    Instr::LoadImm(0),
                    Instr::SetIf(Cond::NotEqual),
                    Instr::Label(label(n)),
                ];
                assert(labels_within(s1, n, hi));
                assert(labels_within(s2, n, hi));
                lemma_within_concat(compile(*a, na), s1, n, hi);
                lemma_within_concat(compile(*a, na) + s1, compile(*b, nb), n, hi);
                lemma_within_concat(compile(*a, na) + s1 + compile(*b, nb), s2, n, hi);
            } else {
                let (f, g) = if op == BinaryOp::Sub {
                    (*b, *a)
                } else {
                    (*a, *b)
                };
                let ng = n + label_count(f);
                lemma_compile_labels(f, n);
                lemma_compile_labels(g, ng);
                lemma_within_widen(compile(g, ng), ng, hi, n, hi);
                let cf = compile(f, n);
                let cg = compile(g, ng);
                assert(labels_within(binary_tail(op), n, hi));
                lemma_within_concat(cf, seq![Instr::Push], n, hi);
                lemma_within_concat(cf + seq![Instr::Push], cg, n, hi);
                lemma_within_concat(cf + seq![Instr::Push] + cg, binary_tail(op), n, hi);
            }
        },
        Expression::Conditional(t, c, a) => {
            let nt = n + 2;
            let nc = nt + label_count(*t);
            let na = nc + label_count(*c);
            lemma_compile_labels(*t, nt);
            lemma_compile_labels(*c, nc);
            lemma_compile_labels(*a, na);
            lemma_within_widen(compile(*t, nt), nt, nc, n, hi);
            lemma_within_widen(compile(*c, nc), nc, na, n, hi);
            let ct = compile(*t, nt);
            let cc = compile(*c, nc);
            let ca = compile(*a, na);
            let s1 = seq![Instr::CompareZero, Instr::JumpIfEqual(label(n))];
            let s2 = seq![Instr::Jump(label(n + 1)), Instr::Label(label(n))];
            let s3 = seq![Instr::Label(label(n + 1))];
            assert(labels_within(s1, n, hi));
            assert(labels_within(s2, n, hi));
            assert(labels_within(s3, n, hi));
            lemma_within_concat(ct, s1, n, hi);
            lemma_within_concat(ct + s1, cc, n, hi);
            lemma_within_concat(ct + s1 + cc, s2, n, hi);
            lemma_within_concat(ct + s1 + cc + s2, ca, n, hi);
            lemma_within_concat(ct + s1 + cc + s2 + ca, s3, n, hi);
        },
    }
}

/// Running the code for `e` with `rest` after it, from `st`: where `e` has a
/// value, control reaches `rest` in state `s`, which holds that value in
/// `rax` and the stack as `st` had it; where `e` faults, the run faults.
pub open spec fn runs_as_eval(e: Expression, n: int, rest: Seq<Instr>, st: State, s: State) -> bool {
    match eval(e) {
        None => exec(compile(e, n) + rest, st) is None,
        Some(v) => exec(compile(e, n) + rest, st) == exec(rest, s) && s.rax == v && s.stack
            == st.stack,
    }
}

/// The state after `push rax`, which saves the operand evaluated first.
pub open spec fn pushed(st: State) -> State {
    State { stack: st.stack.push(st.rax), ..st }
}

pub open spec fn tail_value(op: BinaryOp, first: int, second: int) -> Option<int> {
    if op == BinaryOp::Sub {
        apply_binary(op, second, first)
    } else {
        apply_binary(op, first, second)
    }
}

pub open spec fn tail_runs(op: BinaryOp, first: int, second: int, s2: State, base: Seq<int>, s3: State) -> bool {
    match tail_value(op, first, second) {
        None => run(binary_tail(op), s2) is None,
        Some(v) => run(binary_tail(op), s2) == Some(s3) && s3.rax == v && s3.stack == base,
    }
}

proof fn lemma_run_cons(p: Seq<Instr>, st: State)
    requires
        p.len() > 0,
    ensures
        run(p, st) == match step(p[0], st) {
            None => None,
            Some(s) => run(p.drop_first(), s),
        },
{
}

proof fn lemma_tail_arith(op: BinaryOp, first: int, second: int, s2: State, base: Seq<int>) -> (s3: State)
    requires
        op == BinaryOp::Multiply || op == BinaryOp::Add || op == BinaryOp::Sub,
        s2.stack == base.push(first),
        s2.rax == second,
    ensures
        tail_runs(op, first, second, s2, base, s3),
{
    assert(base.push(first).drop_last() =~= base);
    let tail = binary_tail(op);
    let p1 = State { rcx: first, stack: base, ..s2 };
    lemma_run_cons(tail, s2);
    assert(step(tail[0], s2) == Some(p1));
    lemma_run_cons(tail.drop_first(), p1);
    assert(tail.drop_first().drop_first().len() == 0);
    if op == BinaryOp::Multiply {
        assert(second * first == first * second) by (nonlinear_arith);
        State { rax: wrap(second * first), flags: None, ..p1 }
    } else if op == BinaryOp::Add {
        State { rax: wrap(second + first), flags: None, ..p1 }
    } else {
        State { rax: wrap(second - first), flags: None, ..p1 }
    }
}

proof fn lemma_tail_divide(first: int, second: int, s2: State, base: Seq<int>) -> (s3: State)
    requires
        s2.stack == base.push(first),
        s2.rax == second,
    ensures
        tail_runs(BinaryOp::Divide, first, second, s2, base, s3),
{
    assert(base.push(first).drop_last() =~= base);
    let tail = binary_tail(BinaryOp::Divide);
    let q0 = State { rcx: second, ..s2 };
    let q1 = State { rax: first, stack: base, ..q0 };
    let q2 = State { rdx: if first < 0 { -1 } else { 0 }, ..q1 };
    assert(dividend(q2) == first) by (nonlinear_arith)
        requires
            q2.rax == first,
            q2.rdx == if first < 0 { -1int } else { 0int },
            dividend(q2) == q2.rdx * 0x1_0000_0000_0000_0000int + if q2.rax < 0 {
                q2.rax + 0x1_0000_0000_0000_0000int
            } else {
                q2.rax
            },
    ;
    lemma_run_cons(tail, s2);
    let t1 = tail.drop_first();
    lemma_run_cons(t1, q0);
    let t2 = t1.drop_first();
    lemma_run_cons(t2, q1);
    let t3 = t2.drop_first();
    lemma_run_cons(t3, q2);
    assert(t3.drop_first().len() == 0);
    State {
        rax: trunc_div(first, second),
        rdx: trunc_rem(first, second),
        flags: None,
        ..q2
    }
}

proof fn lemma_tail_compare(op: BinaryOp, first: int, second: int, s2: State, base: Seq<int>) -> (s3: State)
    requires
        is_comparison(op),
        s2.stack == base.push(first),
        s2.rax == second,
    ensures
        tail_runs(op, first, second, s2, base, s3),
{
    assert(base.push(first).drop_last() =~= base);
    let tail = binary_tail(op);
    let q0 = State { rcx: first, stack: base, ..s2 };
    let q1 = State { flags: Some((first, second)), ..q0 };
    let q2 = State { rax: 0, ..q1 };
    assert(holds(condition_of(op), first, second) == compare(op, first, second));
    lemma_run_cons(tail, s2);
    let t1 = tail.drop_first();
    lemma_run_cons(t1, q0);
    let t2 = t1.drop_first();
    lemma_run_cons(t2, q1);
    let t3 = t2.drop_first();
    lemma_run_cons(t3, q2);
    assert(t3.drop_first().len() == 0);
    State { rax: truth(compare(op, first, second)), ..q2 }
}

proof fn lemma_tail(op: BinaryOp, first: int, second: int, s2: State, base: Seq<int>) -> (s3: State)
    requires
        op != BinaryOp::And && op != BinaryOp::Or,
        s2.stack == base.push(first),
        s2.rax == second,
    ensures
        tail_runs(op, first, second, s2, base, s3),
{
    if op == BinaryOp::Multiply || op == BinaryOp::Add || op == BinaryOp::Sub {
        lemma_tail_arith(op, first, second, s2, base)
    } else if op == BinaryOp::Divide {
        lemma_tail_divide(first, second, s2, base)
    } else {
        lemma_tail_compare(op, first, second, s2, base)
    }
}

/// The generated code computes the value of its expression: where `e` has a
/// value, running its code leaves that value in `rax`, leaves the stack as it
/// was, and goes on with the code after it; where `e` faults, so does its code.
pub proof fn lemma_compile_correct(e: Expression, n: int, rest: Seq<Instr>, st: State) -> (s: State)
    requires
        0 <= n,
        n + label_count(e) <= u64::MAX,
    ensures
        runs_as_eval(e, n, rest, st, s),
    decreases e, 1int,
{
    match e {
        Expression::Int(v) => {
            lemma_exec_cons(Instr::LoadImm(v), rest, st);
            assert(exec(compile(e, n) + rest, st) == exec(rest, State { rax: v as int, ..st }));
            State { rax: v as int, ..st }
        },
        Expression::Bool(b) => {
            lemma_exec_cons(Instr::LoadImm(if b { 1i64 } else { 0i64 }), rest, st);
            assert(exec(compile(e, n) + rest, st) == exec(rest, State { rax: truth(b), ..st }));
            State { rax: truth(b), ..st }
        },
        Expression::UnaryOp(op, a) => {
            let tail = if op == UnaryOp::Minus {
                seq![Instr::Neg]
            } else {
                seq![Instr::CompareZero, Instr::LoadImm(0), Instr::SetIf(Cond::Equal)]
            };
            assert(compile(e, n) == compile(*a, n) + tail);
            assert(compile(e, n) + rest =~= compile(*a, n) + (tail + rest));
            let s1 = lemma_compile_correct(*a, n, tail + rest, st);
            match eval(*a) {
                None => st,
                Some(x) => {
                    assert(no_jumps(tail));
                    lemma_exec_straight(tail, rest, s1);
                    lemma_run_cons(tail, s1);
                    if op == UnaryOp::Minus {
                        assert(tail.drop_first().len() == 0);
                        State { rax: wrap(-x), flags: None, ..s1 }
                    } else {
                        let q0 = State { flags: Some((x, 0)), ..s1 };
                        let q1 = State { rax: 0, ..q0 };
                        let t1 = tail.drop_first();
                        lemma_run_cons(t1, q0);
                        let t2 = t1.drop_first();
                        lemma_run_cons(t2, q1);
                        assert(t2.drop_first().len() == 0);
                        State { rax: truth(x == 0), ..q1 }
                    }
                },
            }
        },
        Expression::BinaryOp(op, a, b) => {
            if op == BinaryOp::And || op == BinaryOp::Or {
                lemma_logical_correct(e, n, rest, st)
            } else {
                lemma_strict_correct(e, n, rest, st)
            }
        },
        Expression::Conditional(t, c, a) => lemma_conditional_correct(e, n, rest, st),
    }
}

proof fn lemma_strict_correct(e: Expression, n: int, rest: Seq<Instr>, st: State) -> (s: State)
    requires
        e is BinaryOp,
        e->BinaryOp_0 != BinaryOp::And && e->BinaryOp_0 != BinaryOp::Or,
        0 <= n,
        n + label_count(e) <= u64::MAX,
    ensures
        runs_as_eval(e, n, rest, st, s),
    decreases e, 0int,
{
    match e {
        Expression::BinaryOp(op, a, b) => {
            let sub = op == BinaryOp::Sub;
            let f = if sub { *b } else { *a };
            let g = if sub { *a } else { *b };
            let ng = n + label_count(f);
            let cf = compile(f, n);
            let cg = compile(g, ng);
            let tail = binary_tail(op);
            assert(compile(e, n) == binary_code(op, cf, cg));
            let r2 = tail + rest;
            let r1 = seq![Instr::Push] + (cg + r2);
            assert(compile(e, n) + rest =~= cf + r1);
            let s1 = if sub {
                lemma_compile_correct(*b, n, r1, st)
            } else {
                lemma_compile_correct(*a, n, r1, st)
            };
            match eval(f) {
                None => st,
                Some(x) => {
                    lemma_exec_cons(Instr::Push, cg + r2, s1);
                    let s2 = if sub {
                        lemma_compile_correct(*a, ng, r2, pushed(s1))
                    } else {
                        lemma_compile_correct(*b, ng, r2, pushed(s1))
                    };
                    match eval(g) {
                        None => st,
                        Some(y) => {
                            assert(no_jumps(tail));
                            lemma_exec_straight(tail, rest, s2);
                            lemma_tail(op, x, y, s2, st.stack)
                        },
                    }
                },
            }
        },
        _ => st,
    }
}

/// The join of the two branches of a short-circuit operator: the right
/// operand's value turned into 0 or 1.
pub open spec fn logical_join(end: u64) -> Seq<Instr> {
    seq![Instr::CompareZero, Instr::LoadImm(0), Instr::SetIf(Cond::NotEqual), Instr::Label(end)]
}

proof fn lemma_join(end: u64, rest: Seq<Instr>, s2: State, y: int)
    requires
        s2.rax == y,
    ensures
        exec(logical_join(end) + rest, s2) == exec(
            rest,
            State { rax: truth(y != 0), flags: Some((y, 0)), ..s2 },
        ),
{
    let j = logical_join(end);
    assert(no_jumps(j));
    lemma_exec_straight(j, rest, s2);
    let q0 = State { flags: Some((y, 0)), ..s2 };
    let q1 = State { rax: 0, ..q0 };
    let q2 = State { rax: truth(y != 0), ..q1 };
    lemma_run_cons(j, s2);
    let t1 = j.drop_first();
    lemma_run_cons(t1, q0);
    let t2 = t1.drop_first();
    lemma_run_cons(t2, q1);
    let t3 = t2.drop_first();
    lemma_run_cons(t3, q2);
    assert(t3.drop_first().len() == 0);
}

/// Skipping from the code of `b` to the join label `end`.
proof fn lemma_skip_to_join(cb: Seq<Instr>, nb: int, hi: int, end: u64, rest: Seq<Instr>)
    requires
        labels_within(cb, nb, hi),
        end as int >= 0,
        (end as int) < nb,
    ensures
        skip_to(cb + (logical_join(end) + rest), end) == Some(rest),
{
    lemma_skip_outside(cb, logical_join(end) + rest, end, nb, hi);
    let j = logical_join(end);
    let p = seq![Instr::CompareZero, Instr::LoadImm(0), Instr::SetIf(Cond::NotEqual)];
    assert(j + rest =~= p + (seq![Instr::Label(end)] + rest));
    lemma_skip_over(p, seq![Instr::Label(end)] + rest, end);
    lemma_skip_cons(Instr::Label(end), rest, end);
}

proof fn lemma_logical_correct(e: Expression, n: int, rest: Seq<Instr>, st: State) -> (s: State)
    requires
        e is BinaryOp,
        e->BinaryOp_0 == BinaryOp::And || e->BinaryOp_0 == BinaryOp::Or,
        0 <= n,
        n + label_count(e) <= u64::MAX,
    ensures
        runs_as_eval(e, n, rest, st, s),
    decreases e, 0int,
{
    match e {
        Expression::BinaryOp(op, a, b) => {
            let end = label(n);
            let second = label(n + 1);
            let na = n + 2;
            let nb = na + label_count(*a);
            let hi = nb + label_count(*b);
            let ca = compile(*a, na);
            let cb = compile(*b, nb);
            lemma_compile_labels(*b, nb);
            let j = logical_join(end);
            let z = cb + (j + rest);
            let from_second = seq![Instr::Label(second)] + z;
            let via_jump = seq![Instr::Jump(end)] + from_second;
            let after_test = if op == BinaryOp::And {
                seq![Instr::JumpIfNotEqual(second)] + via_jump
            } else {
                seq![Instr::JumpIfEqual(second)] + (seq![Instr::LoadImm(1)] + via_jump)
            };
            let r1 = seq![Instr::CompareZero] + after_test;
            assert(compile(e, n) + rest =~= ca + r1);
            assert(end != second);
            lemma_skip_cons(Instr::Jump(end), from_second, second);
            lemma_skip_cons(Instr::LoadImm(1), via_jump, second);
            lemma_skip_cons(Instr::Label(second), z, second);
            let s1 = lemma_compile_correct(*a, na, r1, st);
            match eval(*a) {
                None => st,
                Some(x) => {
                    let q = State { flags: Some((x, 0)), ..s1 };
                    lemma_exec_cons(Instr::CompareZero, after_test, s1);
                    assert(exec(r1, s1) == exec(after_test, q));
                    let shortcut = (op == BinaryOp::And && x == 0) || (op == BinaryOp::Or && x != 0);
                    if shortcut {
                        lemma_skip_cons(Instr::Label(second), z, end);
                        lemma_skip_to_join(cb, nb, hi, end, rest);
                        assert(skip_to(from_second, end) == Some(rest));
                        if op == BinaryOp::And {
                            lemma_exec_cons(Instr::JumpIfNotEqual(second), via_jump, q);
                            lemma_exec_cons(Instr::Jump(end), from_second, q);
                            assert(exec(after_test, q) == exec(rest, q));
                            q
                        } else {
                            let q1 = State { rax: 1, ..q };
                            lemma_exec_cons(Instr::JumpIfEqual(second), seq![Instr::LoadImm(1)] + via_jump, q);
                            lemma_exec_cons(Instr::LoadImm(1), via_jump, q);
                            lemma_exec_cons(Instr::Jump(end), from_second, q1);
                            assert(exec(after_test, q) == exec(rest, q1));
                            q1
                        }
                    } else {
                        if op == BinaryOp::And {
                            lemma_exec_cons(Instr::JumpIfNotEqual(second), via_jump, q);
                        } else {
                            lemma_exec_cons(Instr::JumpIfEqual(second), seq![Instr::LoadImm(1)] + via_jump, q);
                        }
                        assert(exec(after_test, q) == exec(z, q));
                        let s2 = lemma_compile_correct(*b, nb, j + rest, q);
                        match eval(*b) {
                            None => st,
                            Some(y) => {
                                lemma_join(end, rest, s2, y);
                                State { rax: truth(y != 0), flags: Some((y, 0)), ..s2 }
                            },
                        }
                    }
                },
            }
        },
        _ => st,
    }
}

proof fn lemma_conditional_correct(e: Expression, n: int, rest: Seq<Instr>, st: State) -> (s: State)
    requires
        e is Conditional,
        0 <= n,
        n + label_count(e) <= u64::MAX,
    ensures
        runs_as_eval(e, n, rest, st, s),
    decreases e, 0int,
{
    match e {
        Expression::Conditional(t, c, a) => {
            let alt = label(n);
            let end = label(n + 1);
            let nt = n + 2;
            let nc = nt + label_count(*t);
            let na = nc + label_count(*c);
            let hi = na + label_count(*a);
            let ct = compile(*t, nt);
            let cc = compile(*c, nc);
            let ca = compile(*a, na);
            lemma_compile_labels(*c, nc);
            lemma_compile_labels(*a, na);
            let r4 = seq![Instr::Label(end)] + rest;
            let r3 = ca + r4;
            let r2 = seq![Instr::Jump(end)] + (seq![Instr::Label(alt)] + r3);
            let r1 = seq![Instr::CompareZero] + (seq![Instr::JumpIfEqual(alt)] + (cc + r2));
            assert(compile(e, n) + rest =~= ct + r1);
            let s1 = lemma_compile_correct(*t, nt, r1, st);
            match eval(*t) {
                None => st,
                Some(x) => {
                    let q = State { flags: Some((x, 0)), ..s1 };
                    lemma_exec_cons(Instr::CompareZero, seq![Instr::JumpIfEqual(alt)] + (cc + r2), s1);
                    lemma_exec_cons(Instr::JumpIfEqual(alt), cc + r2, q);
                    lemma_skip_cons(Instr::Label(end), rest, end);
                    lemma_skip_outside(ca, r4, end, na, hi);
                    if x == 0 {
                        lemma_skip_outside(cc, r2, alt, nc, na);
                        lemma_skip_cons(Instr::Jump(end), seq![Instr::Label(alt)] + r3, alt);
                        lemma_skip_cons(Instr::Label(alt), r3, alt);
                        let s3 = lemma_compile_correct(*a, na, r4, q);
                        match eval(*a) {
                            None => st,
                            Some(v) => {
                                lemma_exec_cons(Instr::Label(end), rest, s3);
                                s3
                            },
                        }
                    } else {
                        let s2 = lemma_compile_correct(*c, nc, r2, q);
                        match eval(*c) {
                            None => st,
                            Some(v) => {
                                lemma_exec_cons(Instr::Jump(end), seq![Instr::Label(alt)] + r3, s2);
                                lemma_skip_cons(Instr::Label(alt), r3, end);
                                s2
                            },
                        }
                    }
                },
            }
        },
        _ => st,
    }
}

/// No label is defined twice in `code`.
pub open spec fn labels_distinct(code: Seq<Instr>) -> bool {
    forall|i: int, j: int|
        0 <= i < j < code.len() && (#[trigger] code[i]) is Label && (#[trigger] code[j]) is Label
            ==> code[i]->Label_0 != code[j]->Label_0
}

/// No label that `a` defines is defined in `b`.
pub open spec fn labels_apart(a: Seq<Instr>, b: Seq<Instr>) -> bool {
    forall|i: int, j: int|
        0 <= i < a.len() && 0 <= j < b.len() && (#[trigger] a[i]) is Label && (
        #[trigger] b[j]) is Label ==> a[i]->Label_0 != b[j]->Label_0
}

/// `code` defines no label with a number in `lo .. hi`.
pub open spec fn labels_avoid(code: Seq<Instr>, lo: int, hi: int) -> bool {
    forall|k: int|
        0 <= k < code.len() && (#[trigger] code[k]) is Label ==> !(lo <= code[k]->Label_0 as int
            && (code[k]->Label_0 as int) < hi)
}

proof fn lemma_distinct_concat(a: Seq<Instr>, b: Seq<Instr>)
    requires
        labels_distinct(a),
        labels_distinct(b),
        labels_apart(a, b),
    ensures
        labels_distinct(a + b),
{
    let c = a + b;
    assert forall|i: int, j: int|
        0 <= i < j < c.len() && (#[trigger] c[i]) is Label && (#[trigger] c[j]) is Label implies c[i]->Label_0
        != c[j]->Label_0 by {
        if j < a.len() {
            assert(c[i] == a[i] && c[j] == a[j]);
        } else if i >= a.len() {
            assert(c[i] == b[i - a.len()] && c[j] == b[j - a.len()]);
        } else {
            assert(c[i] == a[i] && c[j] == b[j - a.len()]);
        }
    }
}

proof fn lemma_apart_ranges(a: Seq<Instr>, b: Seq<Instr>, lo: int, hi: int)
    requires
        (labels_within(a, lo, hi) && labels_avoid(b, lo, hi)) || (labels_avoid(a, lo, hi)
            && labels_within(b, lo, hi)),
    ensures
        labels_apart(a, b),
{
}

proof fn lemma_avoid_concat(a: Seq<Instr>, b: Seq<Instr>, lo: int, hi: int)
    requires
        labels_avoid(a, lo, hi),
        labels_avoid(b, lo, hi),
    ensures
        labels_avoid(a + b, lo, hi),
{
    assert forall|k: int| 0 <= k < (a + b).len() && (#[trigger] (a + b)[k]) is Label implies !(lo
        <= (a + b)[k]->Label_0 as int && ((a + b)[k]->Label_0 as int) < hi) by {
        if k < a.len() {
            assert((a + b)[k] == a[k]);
        } else {
            assert((a + b)[k] == b[k - a.len()]);
        }
    }
}

/// Each label number is defined at most once in the code for `e`.
pub proof fn lemma_compile_labels_distinct(e: Expression, n: int)
    requires
        0 <= n,
        n + label_count(e) <= u64::MAX,
    ensures
        labels_distinct(compile(e, n)),
    decreases e,
{
    lemma_compile_labels(e, n);
    let hi = n + label_count(e);
    match e {
        Expression::Int(_) => {},
        Expression::Bool(_) => {},
        Expression::UnaryOp(op, a) => {
            lemma_compile_labels_distinct(*a, n);
            let tail = if op == UnaryOp::Minus {
                seq![Instr::Neg]
            } else {
                seq![Instr::CompareZero, Instr::LoadImm(0), Instr::SetIf(Cond::Equal)]
            };
            assert(compile(e, n) == compile(*a, n) + tail);
            lemma_distinct_concat(compile(*a, n), tail);
        },
        Expression::BinaryOp(op, a, b) => {
            if op == BinaryOp::And || op == BinaryOp::Or {
                let end = label(n);
                let second = label(n + 1);
                let na = n + 2;
                let nb = na + label_count(*a);
                let ca = compile(*a, na);
                let cb = compile(*b, nb);
                lemma_compile_labels(*a, na);
                lemma_compile_labels(*b, nb);
                lemma_compile_labels_distinct(*a, na);
                lemma_compile_labels_distinct(*b, nb);
                let s1 = if op == BinaryOp::And {
                    seq![
                        Instr::CompareZero,
                        Instr::JumpIfNotEqual(second),
                        Instr::Jump(end),
                        Instr::Label(second),
                    ]
                } else {
                    seq![
                        Instr::CompareZero,
                        Instr::JumpIfEqual(second),
                        Instr::LoadImm(1),
                        Instr::Jump(end),
                        Instr::Label(second),
                    ]
                };
                let s2 = seq![
                    Instr::CompareZero,
                    Instr::LoadImm(0),
                    Instr::SetIf(Cond::NotEqual),
                    Instr::Label(end),
                ];
                assert(labels_within(s1, n + 1, n + 2));
                assert(labels_within(s2, n, n + 1));
                assert(labels_distinct(s1));
                assert(labels_distinct(s2));
                lemma_apart_ranges(ca, s1, na, nb);
                lemma_distinct_concat(ca, s1);
                lemma_within_widen(ca, na, nb, n + 1, nb);
                lemma_within_widen(s1, n + 1, n + 2, n + 1, nb);
                lemma_within_concat(ca, s1, n + 1, nb);
                lemma_apart_ranges(ca + s1, cb, n + 1, nb);
                lemma_distinct_concat(ca + s1, cb);
                lemma_within_widen(cb, nb, hi, n + 1, hi);
                lemma_within_concat(ca + s1, cb, n + 1, hi);
                lemma_apart_ranges(ca + s1 + cb, s2, n + 1, hi);
                lemma_distinct_concat(ca + s1 + cb, s2);
            } else {
                let sub = op == BinaryOp::Sub;
                let f = if sub { *b } else { *a };
                let g = if sub { *a } else { *b };
                let ng = n + label_count(f);
                if sub {
                    lemma_compile_labels_distinct(*b, n);
                    lemma_compile_labels_distinct(*a, ng);
                } else {
                    lemma_compile_labels_distinct(*a, n);
                    lemma_compile_labels_distinct(*b, ng);
                }
                lemma_compile_labels(f, n);
                lemma_compile_labels(g, ng);
                let cf = compile(f, n);
                let cg = compile(g, ng);
                let tail = binary_tail(op);
                assert(compile(e, n) == binary_code(op, cf, cg));
                lemma_distinct_concat(cf, seq![Instr::Push]);
                lemma_within_concat(cf, seq![Instr::Push], n, ng);
                lemma_apart_ranges(cf + seq![Instr::Push], cg, n, ng);
                lemma_distinct_concat(cf + seq![Instr::Push], cg);
                lemma_distinct_concat(cf + seq![Instr::Push] + cg, tail);
            }
        },
        Expression::Conditional(t, c, a) => {
            let alt = label(n);
            let end = label(n + 1);
            let nt = n + 2;
            let nc = nt + label_count(*t);
            let na = nc + label_count(*c);
            let ct = compile(*t, nt);
            let cc = compile(*c, nc);
            let ca = compile(*a, na);
            lemma_compile_labels(*t, nt);
            lemma_compile_labels(*c, nc);
            lemma_compile_labels(*a, na);
            lemma_compile_labels_distinct(*t, nt);
            lemma_compile_labels_distinct(*c, nc);
            lemma_compile_labels_distinct(*a, na);
            let s1 = seq![Instr::CompareZero, Instr::JumpIfEqual(alt)];
            let s2 = seq![Instr::Jump(end), Instr::Label(alt)];
            let s3 = seq![Instr::Label(end)];
            assert(labels_distinct(s2));
            // the test and the consequent: numbers nt .. na
            lemma_distinct_concat(ct, s1);
            lemma_within_concat(ct, s1, nt, nc);
            lemma_within_widen(ct + s1, nt, nc, nt, na);
            lemma_within_widen(cc, nc, na, nt, na);
            lemma_apart_ranges(ct + s1, cc, nt, nc);
            lemma_distinct_concat(ct + s1, cc);
            lemma_within_concat(ct + s1, cc, nt, na);
            let x = ct + s1 + cc;
            // the rest: alt, then na .. hi, then end
            assert(labels_within(s2, n, n + 1));
            assert(labels_within(s3, n + 1, n + 2));
            lemma_apart_ranges(ca, s3, na, hi);
            lemma_distinct_concat(ca, s3);
            lemma_avoid_concat(ca, s3, n, n + 1);
            lemma_apart_ranges(s2, ca + s3, n, n + 1);
            lemma_distinct_concat(s2, ca + s3);
            let y = s2 + (ca + s3);
            lemma_avoid_concat(ca, s3, nt, na);
            lemma_avoid_concat(s2, ca + s3, nt, na);
            lemma_apart_ranges(x, y, nt, na);
            lemma_distinct_concat(x, y);
            assert(compile(e, n) =~= x + y);
        },
    }
}

pub open spec fn jump_target(i: Instr) -> u64 {
    match i {
        Instr::Jump(l) => l,
        Instr::JumpIfEqual(l) => l,
        Instr::JumpIfNotEqual(l) => l,
        _ => 0,
    }
}

/// Every jump in `a` has its label defined after it in `a + b`.
pub open spec fn resolves(a: Seq<Instr>, b: Seq<Instr>) -> bool {
    forall|i: int|
        0 <= i < a.len() && is_jump(#[trigger] a[i]) ==> exists|j: int|
            i < j < a.len() + b.len() && (a + b)[j] == Instr::Label(jump_target(a[i]))
}

proof fn lemma_resolves_insert(a: Seq<Instr>, c: Seq<Instr>, b: Seq<Instr>)
    requires
        resolves(a, b),
    ensures
        resolves(a, c + b),
{
    assert forall|i: int| 0 <= i < a.len() && is_jump(#[trigger] a[i]) implies exists|j: int|
        i < j < a.len() + (c + b).len() && (a + (c + b))[j] == Instr::Label(jump_target(a[i])) by {
        let j = choose|j: int| i < j < a.len() + b.len() && (a + b)[j] == Instr::Label(jump_target(a[i]));
        if j < a.len() {
            assert((a + (c + b))[j] == (a + b)[j]);
        } else {
            assert((a + (c + b))[j + c.len()] == (a + b)[j]);
        }
    }
}

proof fn lemma_resolves_concat(a: Seq<Instr>, b: Seq<Instr>, r: Seq<Instr>)
    requires
        resolves(a, b + r),
        resolves(b, r),
    ensures
        resolves(a + b, r),
{
    assert((a + b) + r =~= a + (b + r));
    assert forall|i: int| 0 <= i < (a + b).len() && is_jump(#[trigger] (a + b)[i]) implies exists|j: int|
        i < j < (a + b).len() + r.len() && ((a + b) + r)[j] == Instr::Label(jump_target((a + b)[i])) by {
        if i < a.len() {
            assert((a + b)[i] == a[i]);
            let j = choose|j: int| i < j < a.len() + (b + r).len() && (a + (b + r))[j] == Instr::Label(jump_target(a[i]));
            assert(((a + b) + r)[j] == (a + (b + r))[j]);
        } else {
            let k = i - a.len();
            assert((a + b)[i] == b[k]);
            let j = choose|j: int| k < j < b.len() + r.len() && (b + r)[j] == Instr::Label(jump_target(b[k]));
            assert(((a + b) + r)[j + a.len()] == (b + r)[j]);
        }
    }
}

proof fn lemma_no_jumps_resolve(a: Seq<Instr>, b: Seq<Instr>)
    requires
        no_jumps(a),
    ensures
        resolves(a, b),
{
}

/// Every jump in the code for `e` goes to a label that the code defines
/// after the jump.
pub proof fn lemma_compile_jumps_ahead(e: Expression, n: int)
    requires
        0 <= n,
        n + label_count(e) <= u64::MAX,
    ensures
        resolves(compile(e, n), Seq::empty()),
    decreases e,
{
    let emp = Seq::<Instr>::empty();
    match e {
        Expression::Int(_) => {},
        Expression::Bool(_) => {},
        Expression::UnaryOp(op, a) => {
            lemma_compile_jumps_ahead(*a, n);
            let tail = if op == UnaryOp::Minus {
                seq![Instr::Neg]
            } else {
                seq![Instr::CompareZero, Instr::LoadImm(0), Instr::SetIf(Cond::Equal)]
            };
            assert(compile(e, n) == compile(*a, n) + tail);
            assert(tail + emp =~= tail);
            lemma_resolves_insert(compile(*a, n), tail, emp);
            lemma_no_jumps_resolve(tail, emp);
            lemma_resolves_concat(compile(*a, n), tail, emp);
        },
        Expression::BinaryOp(op, a, b) => {
            if op == BinaryOp::And || op == BinaryOp::Or {
                let end = label(n);
                let second = label(n + 1);
                let na = n + 2;
                let nb = na + label_count(*a);
                let ca = compile(*a, na);
                let cb = compile(*b, nb);
                lemma_compile_jumps_ahead(*a, na);
                lemma_compile_jumps_ahead(*b, nb);
                let s1 = if op == BinaryOp::And {
                    seq![
                        Instr::CompareZero,
                        Instr::JumpIfNotEqual(second),
                        Instr::Jump(end),
                        Instr::Label(second),
                    ]
                } else {
                    seq![
                        Instr::CompareZero,
                        Instr::JumpIfEqual(second),
                        Instr::LoadImm(1),
                        Instr::Jump(end),
                        Instr::Label(second),
                    ]
                };
                let s2 = logical_join(end);
                let rest2 = cb + s2;
                assert(s2 + emp =~= s2);
                assert(cb + emp =~= cb);
                lemma_no_jumps_resolve(s2, emp);
                lemma_resolves_insert(cb, s2, emp);
                lemma_resolves_concat(cb, s2, emp);
                assert(resolves(s1, rest2 + emp)) by {
                    let w = s1 + (rest2 + emp);
                    assert(w[s1.len() - 1int] == Instr::Label(second));
                    assert(w[s1.len() + cb.len() + 3int] == Instr::Label(end));
                }
                lemma_resolves_concat(s1, rest2, emp);
                lemma_resolves_insert(ca, s1 + rest2, emp);
                lemma_resolves_concat(ca, s1 + rest2, emp);
                assert(compile(e, n) =~= ca + (s1 + rest2));
            } else {
                let sub = op == BinaryOp::Sub;
                let f = if sub { *b } else { *a };
                let g = if sub { *a } else { *b };
                let ng = n + label_count(f);
                if sub {
                    lemma_compile_jumps_ahead(*b, n);
                    lemma_compile_jumps_ahead(*a, ng);
                } else {
                    lemma_compile_jumps_ahead(*a, n);
                    lemma_compile_jumps_ahead(*b, ng);
                }
                let cf = compile(f, n);
                let cg = compile(g, ng);
                let tail = binary_tail(op);
                assert(compile(e, n) == binary_code(op, cf, cg));
                let p = seq![Instr::Push];
                assert(tail + emp =~= tail);
                lemma_no_jumps_resolve(tail, emp);
                lemma_resolves_insert(cg, tail, emp);
                lemma_resolves_concat(cg, tail, emp);
                lemma_no_jumps_resolve(p, cg + tail + emp);
                lemma_resolves_concat(p, cg + tail, emp);
                lemma_resolves_insert(cf, p + (cg + tail), emp);
                lemma_resolves_concat(cf, p + (cg + tail), emp);
                assert(compile(e, n) =~= cf + (p + (cg + tail)));
            }
        },
        Expression::Conditional(t, c, a) => {
            let alt = label(n);
            let end = label(n + 1);
            let nt = n + 2;
            let nc = nt + label_count(*t);
            let na = nc + label_count(*c);
            let ct = compile(*t, nt);
            let cc = compile(*c, nc);
            let ca = compile(*a, na);
            lemma_compile_jumps_ahead(*t, nt);
            lemma_compile_jumps_ahead(*c, nc);
            lemma_compile_jumps_ahead(*a, na);
            let s1 = seq![Instr::CompareZero, Instr::JumpIfEqual(alt)];
            let s2 = seq![Instr::Jump(end), Instr::Label(alt)];
            let s3 = seq![Instr::Label(end)];
            assert(s3 + emp =~= s3);
            lemma_no_jumps_resolve(s3, emp);
            lemma_resolves_insert(ca, s3, emp);
            lemma_resolves_concat(ca, s3, emp);
            let r3 = ca + s3;
            assert(resolves(s2, r3 + emp)) by {
                let w = s2 + (r3 + emp);
                assert(w[2int + ca.len()] == Instr::Label(end));
            }
            lemma_resolves_concat(s2, r3, emp);
            let r2 = s2 + r3;
            lemma_resolves_insert(cc, r2, emp);
            lemma_resolves_concat(cc, r2, emp);
            let r1 = cc + r2;
            assert(resolves(s1, r1 + emp)) by {
                let w = s1 + (r1 + emp);
                assert(w[3int + cc.len()] == Instr::Label(alt));
            }
            lemma_resolves_concat(s1, r1, emp);
            lemma_resolves_insert(ct, s1 + r1, emp);
            lemma_resolves_concat(ct, s1 + r1, emp);
            assert(compile(e, n) =~= ct + (s1 + r1));
        },
    }
}

/// Every label that `b` defines is named by a jump before it in `p + b`.
pub open spec fn labels_used(p: Seq<Instr>, b: Seq<Instr>) -> bool {
    forall|j: int|
        0 <= j < b.len() && (#[trigger] b[j]) is Label ==> exists|i: int|
            0 <= i < p.len() + j && is_jump((p + b)[i]) && jump_target((p + b)[i])
                == b[j]->Label_0
}

proof fn lemma_used_prefix(q: Seq<Instr>, p: Seq<Instr>, b: Seq<Instr>)
    requires
        labels_used(p, b),
    ensures
        labels_used(q + p, b),
{
    assert forall|j: int| 0 <= j < b.len() && (#[trigger] b[j]) is Label implies exists|i: int|
        0 <= i < (q + p).len() + j && is_jump(((q + p) + b)[i]) && jump_target(((q + p) + b)[i])
            == b[j]->Label_0 by {
        let i = choose|i: int|
            0 <= i < p.len() + j && is_jump((p + b)[i]) && jump_target((p + b)[i]) == b[j]->Label_0;
        assert(((q + p) + b)[i + q.len()] == (p + b)[i]);
    }
}

proof fn lemma_used_concat(p: Seq<Instr>, a: Seq<Instr>, b: Seq<Instr>)
    requires
        labels_used(p, a),
        labels_used(p + a, b),
    ensures
        labels_used(p, a + b),
{
    assert((p + a) + b =~= p + (a + b));
    assert forall|j: int| 0 <= j < (a + b).len() && (#[trigger] (a + b)[j]) is Label implies exists|i: int|
        0 <= i < p.len() + j && is_jump((p + (a + b))[i]) && jump_target((p + (a + b))[i])
            == (a + b)[j]->Label_0 by {
        if j < a.len() {
            assert((a + b)[j] == a[j]);
            let i = choose|i: int|
                0 <= i < p.len() + j && is_jump((p + a)[i]) && jump_target((p + a)[i]) == a[j]->Label_0;
            assert((p + (a + b))[i] == (p + a)[i]);
        } else {
            let k = j - a.len();
            assert((a + b)[j] == b[k]);
            let i = choose|i: int|
                0 <= i < (p + a).len() + k && is_jump(((p + a) + b)[i]) && jump_target(((p + a) + b)[i])
                    == b[k]->Label_0;
        }
    }
}

/// Every label that the code for `e` defines is named by an earlier jump of
/// that code.
pub proof fn lemma_compile_labels_used(e: Expression, n: int)
    requires
        0 <= n,
        n + label_count(e) <= u64::MAX,
    ensures
        labels_used(Seq::empty(), compile(e, n)),
    decreases e,
{
    let emp = Seq::<Instr>::empty();
    match e {
        Expression::Int(_) => {},
        Expression::Bool(_) => {},
        Expression::UnaryOp(op, a) => {
            lemma_compile_labels_used(*a, n);
            let ca = compile(*a, n);
            let tail = if op == UnaryOp::Minus {
                seq![Instr::Neg]
            } else {
                seq![Instr::CompareZero, Instr::LoadImm(0), Instr::SetIf(Cond::Equal)]
            };
            assert(compile(e, n) == ca + tail);
            assert(labels_used(emp + ca, tail));
            lemma_used_concat(emp, ca, tail);
        },
        Expression::BinaryOp(op, a, b) => {
            if op == BinaryOp::And || op == BinaryOp::Or {
                let end = label(n);
                let second = label(n + 1);
                let na = n + 2;
                let nb = na + label_count(*a);
                let ca = compile(*a, na);
                let cb = compile(*b, nb);
                lemma_compile_labels_used(*a, na);
                lemma_compile_labels_used(*b, nb);
                let s1 = if op == BinaryOp::And {
                    seq![
                        Instr::CompareZero,
                        Instr::JumpIfNotEqual(second),
                        Instr::Jump(end),
                        Instr::Label(second),
                    ]
                } else {
                    seq![
                        Instr::CompareZero,
                        Instr::JumpIfEqual(second),
                        Instr::LoadImm(1),
                        Instr::Jump(end),
                        Instr::Label(second),
                    ]
                };
                let s2 = logical_join(end);
                let jump_end: int = if op == BinaryOp::And { 2 } else { 3 };
                assert(labels_used(ca, s1)) by {
                    assert((ca + s1)[ca.len() + 1int] == s1[1]);
                }
                assert(emp + cb =~= cb);
                lemma_used_prefix(ca + s1, emp, cb);
                assert((ca + s1) + emp =~= ca + s1);
                assert(labels_used(ca + s1 + cb, s2)) by {
                    assert((ca + s1 + cb + s2)[ca.len() + jump_end] == s1[jump_end]);
                }
                lemma_used_concat(ca + s1, cb, s2);
                lemma_used_concat(ca, s1, cb + s2);
                assert(emp + ca =~= ca);
                lemma_used_concat(emp, ca, s1 + (cb + s2));
                assert(compile(e, n) =~= ca + (s1 + (cb + s2)));
            } else {
                let sub = op == BinaryOp::Sub;
                let f = if sub { *b } else { *a };
                let g = if sub { *a } else { *b };
                let ng = n + label_count(f);
                if sub {
                    lemma_compile_labels_used(*b, n);
                    lemma_compile_labels_used(*a, ng);
                } else {
                    lemma_compile_labels_used(*a, n);
                    lemma_compile_labels_used(*b, ng);
                }
                let cf = compile(f, n);
                let cg = compile(g, ng);
                let tail = binary_tail(op);
                let p = seq![Instr::Push];
                assert(compile(e, n) == binary_code(op, cf, cg));
                lemma_used_prefix(cf + p, emp, cg);
                assert((cf + p) + emp =~= cf + p);
                assert(labels_used(cf + p + cg, tail));
                lemma_used_concat(cf + p, cg, tail);
                assert(labels_used(cf, p));
                lemma_used_concat(cf, p, cg + tail);
                assert(emp + cf =~= cf);
                lemma_used_concat(emp, cf, p + (cg + tail));
                assert(compile(e, n) =~= cf + (p + (cg + tail)));
            }
        },
        Expression::Conditional(t, c, a) => {
            let alt = label(n);
            let end = label(n + 1);
            let nt = n + 2;
            let nc = nt + label_count(*t);
            let na = nc + label_count(*c);
            let ct = compile(*t, nt);
            let cc = compile(*c, nc);
            let ca = compile(*a, na);
            lemma_compile_labels_used(*t, nt);
            lemma_compile_labels_used(*c, nc);
            lemma_compile_labels_used(*a, na);
            let s1 = seq![Instr::CompareZero, Instr::JumpIfEqual(alt)];
            let s2 = seq![Instr::Jump(end), Instr::Label(alt)];
            let s3 = seq![Instr::Label(end)];
            let x = ct + s1 + cc;
            assert(labels_used(ct, s1));
            lemma_used_prefix(ct + s1, emp, cc);
            assert((ct + s1) + emp =~= ct + s1);
            assert(labels_used(x, s2)) by {
                assert((x + s2)[ct.len() + 1int] == s1[1]);
            }
            lemma_used_prefix(x + s2, emp, ca);
            assert((x + s2) + emp =~= x + s2);
            assert(labels_used(x + s2 + ca, s3)) by {
                assert((x + s2 + ca + s3)[x.len() as int] == s2[0]);
            }
            lemma_used_concat(x + s2, ca, s3);
            lemma_used_concat(x, s2, ca + s3);
            lemma_used_concat(ct + s1, cc, s2 + (ca + s3));
            lemma_used_concat(ct, s1, cc + (s2 + (ca + s3)));
            assert(emp + ct =~= ct);
            lemma_used_concat(emp, ct, s1 + (cc + (s2 + (ca + s3))));
            assert(compile(e, n) =~= ct + (s1 + (cc + (s2 + (ca + s3)))));
        },
    }
}

} // verus!
