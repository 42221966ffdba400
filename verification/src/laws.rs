//! Laws of the executor, stated over the specification model and proved from
//! the transition functions: what the stack keywords undo, what assignment
//! feeds into later operators, what errors leave behind, and how a purely
//! numeric line relates to plain left-to-right postfix evaluation.
use vstd::prelude::*;

use crate::exec::MsgV;
use crate::exec::StateV;
use crate::exec::all_resolvable;
use crate::exec::apply_bin;
use crate::exec::cell_name;
use crate::exec::fold_vals;
use crate::exec::resolvable;
use crate::exec::resolved_seq;
use crate::exec::run_toks;
use crate::exec::spec_process_line;
use crate::exec::step_tok;
use crate::num::div_bits;
use crate::stack::CellV;
use crate::token::BinKind;
use crate::token::FoldKind;
use crate::token::KeyKind;
use crate::token::TokV;
use crate::token::spec_classify;
use crate::token::spec_split;
use crate::token::split_from;

verus! {

/// How the operator and keyword literals classify.
proof fn lemma_classify_literals()
    ensures
        spec_classify("+"@) == TokV::Bin(BinKind::Plus),
        spec_classify("-"@) == TokV::Bin(BinKind::Minus),
        spec_classify("*"@) == TokV::Bin(BinKind::Times),
        spec_classify("/"@) == TokV::Bin(BinKind::Slash),
        spec_classify("="@) == TokV::Assign,
        spec_classify("clear"@) == TokV::Key(KeyKind::Clear),
        spec_classify("reset"@) == TokV::Key(KeyKind::Reset),
        spec_classify("exit"@) == TokV::Key(KeyKind::Exit),
        spec_classify("print"@) == TokV::Key(KeyKind::Print),
        spec_classify("dup"@) == TokV::Key(KeyKind::Dup),
        spec_classify("drop"@) == TokV::Key(KeyKind::Drop),
        spec_classify("swap"@) == TokV::Key(KeyKind::Swap),
        spec_classify("sum"@) == TokV::Fold(FoldKind::Sum),
        spec_classify("prod"@) == TokV::Fold(FoldKind::Prod),
{
    reveal_strlit("+");
    reveal_strlit("-");
    reveal_strlit("*");
    reveal_strlit("/");
    reveal_strlit("=");
    reveal_strlit("clear");
    reveal_strlit("reset");
    reveal_strlit("exit");
    reveal_strlit("print");
    reveal_strlit("dup");
    reveal_strlit("drop");
    reveal_strlit("swap");
    reveal_strlit("sum");
    reveal_strlit("prod");
    assert("+"@.len() == 1 && "+"@[0] == '+');
    assert("-"@.len() == 1 && "-"@[0] == '-');
    assert("*"@.len() == 1 && "*"@[0] == '*');
    assert("/"@.len() == 1 && "/"@[0] == '/');
    assert("="@.len() == 1 && "="@[0] == '=');
    assert("clear"@.len() == 5 && "clear"@[0] == 'c');
    assert("reset"@.len() == 5 && "reset"@[0] == 'r');
    assert("exit"@.len() == 4 && "exit"@[0] == 'e');
    assert("print"@.len() == 5 && "print"@[0] == 'p');
    assert("dup"@.len() == 3 && "dup"@[0] == 'd');
    assert("drop"@.len() == 4 && "drop"@[0] == 'd' && "drop"@[1] == 'r');
    assert("swap"@.len() == 4 && "swap"@[0] == 's');
    assert("sum"@.len() == 3 && "sum"@[0] == 's');
    assert("prod"@.len() == 4 && "prod"@[0] == 'p');
}

/// `dup` followed by `drop` restores the state exactly: the original
/// top-of-stack value and length, the environment, and the running flag; no
/// message is produced and the line goes on.
pub proof fn law_dup_drop(m: StateV)
    requires
        m.stack.len() >= 1,
    ensures
        ({
            let r = run_toks(seq!["dup"@, "drop"@], m);
            &&& r.st.stack == m.stack
            &&& r.st.env == m.env
            &&& r.st.running == m.running
            &&& r.msgs == Seq::<MsgV>::empty()
            &&& !r.stopped
        }),
{
    lemma_classify_literals();
    reveal_with_fuel(run_toks, 4);
    let ts = seq!["dup"@, "drop"@];
    assert(ts.drop_first() =~= seq!["drop"@]);
    assert(ts.drop_first().drop_first() =~= Seq::<Seq<char>>::empty());
    let s1 = step_tok(m, "dup"@);
    assert(s1.st.stack.drop_last() =~= m.stack);
    let r = run_toks(ts, m);
    assert(r.msgs =~= Seq::<MsgV>::empty());
}

/// `swap` applied twice is the identity on stack contents and length; the
/// environment and running flag are untouched and no message is produced.
pub proof fn law_swap_swap(m: StateV)
    requires
        m.stack.len() >= 2,
    ensures
        ({
            let r = run_toks(seq!["swap"@, "swap"@], m);
            &&& r.st.stack == m.stack
            &&& r.st.env == m.env
            &&& r.st.running == m.running
            &&& r.msgs == Seq::<MsgV>::empty()
            &&& !r.stopped
        }),
{
    lemma_classify_literals();
    reveal_with_fuel(run_toks, 4);
    let ts = seq!["swap"@, "swap"@];
    assert(ts.drop_first() =~= seq!["swap"@]);
    assert(ts.drop_first().drop_first() =~= Seq::<Seq<char>>::empty());
    let s1 = step_tok(m, "swap"@);
    let s2 = step_tok(s1.st, "swap"@);
    assert(s2.st.stack =~= m.stack);
    let r = run_toks(ts, m);
    assert(r.msgs =~= Seq::<MsgV>::empty());
}

/// Assigning a number to a variable and then using that variable twice with
/// an operator computes with the assigned value: from a stack ending in the
/// cells `Var(x)`, `Num(v)`, the line `= x x <op>` consumes both, binds `x`
/// to `v`, and pushes the one cell `Num(v <op> v)`.
pub proof fn law_assign_then_use(m: StateV, x: Seq<char>, v: u64, op: BinKind, optok: Seq<char>)
    requires
        m.stack.len() >= 2,
        m.stack[m.stack.len() - 2] == CellV::Var(x),
        m.stack.last() == CellV::Num(v),
        spec_classify(x) == TokV::Var(x),
        spec_classify(optok) == TokV::Bin(op),
    ensures
        ({
            let r = run_toks(seq!["="@, x, x, optok], m);
            &&& r.st.stack == m.stack.drop_last().drop_last().push(
                CellV::Num(apply_bin(op, v, v)),
            )
            &&& r.st.env == m.env.insert(x, v)
            &&& r.st.running == m.running
            &&& r.msgs == Seq::<MsgV>::empty()
            &&& !r.stopped
        }),
{
    lemma_classify_literals();
    reveal_with_fuel(run_toks, 6);
    let ts = seq!["="@, x, x, optok];
    assert(ts.drop_first() =~= seq![x, x, optok]);
    assert(ts.drop_first().drop_first() =~= seq![x, optok]);
    assert(ts.drop_first().drop_first().drop_first() =~= seq![optok]);
    assert(ts.drop_first().drop_first().drop_first().drop_first() =~= Seq::<Seq<char>>::empty());
    let s1 = step_tok(m, "="@);
    assert(s1.st.env == m.env.insert(x, v));
    let s2 = step_tok(s1.st, x);
    let s3 = step_tok(s2.st, x);
    let s4 = step_tok(s3.st, optok);
    assert(s3.st.stack.len() >= 2);
    assert(s3.st.stack.last() == CellV::Var(x));
    assert(s3.st.stack[s3.st.stack.len() - 2] == CellV::Var(x));
    assert(s4.st.stack =~= m.stack.drop_last().drop_last().push(
        CellV::Num(apply_bin(op, v, v)),
    ));
    let r = run_toks(ts, m);
    assert(r.msgs =~= Seq::<MsgV>::empty());
}

/// A binary operator applied while one of its two operands is an unassigned
/// variable aborts the line with `UnassignedVariable`, naming the offending
/// variable (the popped-first top cell is checked first), and leaves the
/// state exactly as it was: both cells stay, in their original order.
pub proof fn law_unassigned_operand(m: StateV, optok: Seq<char>, op: BinKind)
    requires
        spec_classify(optok) == TokV::Bin(op),
        m.stack.len() >= 2,
        !resolvable(m.env, m.stack.last()) || !resolvable(
            m.env,
            m.stack[m.stack.len() - 2],
        ),
    ensures
        ({
            let offender = if !resolvable(m.env, m.stack.last()) {
                m.stack.last()
            } else {
                m.stack[m.stack.len() - 2]
            };
            let r = run_toks(seq![optok], m);
            &&& r.st == m
            &&& r.msgs == seq![MsgV::UnassignedVariable(Some(cell_name(offender)))]
            &&& r.stopped
        }),
{
    reveal_with_fuel(run_toks, 2);
    assert(seq![optok][0] == optok);
}

/// `clear` empties the stack and leaves the environment untouched.
pub proof fn law_clear(m: StateV)
    ensures
        ({
            let r = run_toks(seq!["clear"@], m);
            &&& r.st.stack == Seq::<CellV>::empty()
            &&& r.st.env == m.env
            &&& r.st.running == m.running
            &&& r.msgs == Seq::<MsgV>::empty()
            &&& !r.stopped
        }),
{
    lemma_classify_literals();
    reveal_with_fuel(run_toks, 3);
    assert(seq!["clear"@].drop_first() =~= Seq::<Seq<char>>::empty());
    assert(Seq::<CellV>::empty() =~= seq![]);
    let r = run_toks(seq!["clear"@], m);
    assert(r.msgs =~= Seq::<MsgV>::empty());
}

/// `reset` empties both the stack and the environment.
pub proof fn law_reset(m: StateV)
    ensures
        ({
            let r = run_toks(seq!["reset"@], m);
            &&& r.st.stack == Seq::<CellV>::empty()
            &&& r.st.env == Map::<Seq<char>, u64>::empty()
            &&& r.st.running == m.running
            &&& r.msgs == Seq::<MsgV>::empty()
            &&& !r.stopped
        }),
{
    lemma_classify_literals();
    reveal_with_fuel(run_toks, 3);
    assert(seq!["reset"@].drop_first() =~= Seq::<Seq<char>>::empty());
    assert(Seq::<CellV>::empty() =~= seq![]);
    let r = run_toks(seq!["reset"@], m);
    assert(r.msgs =~= Seq::<MsgV>::empty());
}

/// A fold over a stack whose every cell resolves replaces the whole stack
/// with exactly one cell: the number obtained by reducing the resolved
/// values left to right, from the stack's bottom to its top.
pub proof fn law_fold(m: StateV, f: FoldKind, ftok: Seq<char>)
    requires
        spec_classify(ftok) == TokV::Fold(f),
        all_resolvable(m.env, m.stack),
    ensures
        ({
            let r = run_toks(seq![ftok], m);
            &&& r.st.stack == seq![CellV::Num(fold_vals(f, resolved_seq(m.env, m.stack)))]
            &&& r.st.stack.len() == 1
            &&& r.st.env == m.env
            &&& r.st.running == m.running
            &&& r.msgs == Seq::<MsgV>::empty()
            &&& !r.stopped
        }),
{
    reveal_with_fuel(run_toks, 3);
    assert(seq![ftok].drop_first() =~= Seq::<Seq<char>>::empty());
    let r = run_toks(seq![ftok], m);
    assert(r.msgs =~= Seq::<MsgV>::empty());
}

/// Division of two number cells is never an error, division by zero
/// included: the quotient bit pattern (an infinity or NaN when IEEE-754 says
/// so) is pushed and the line goes on.
pub proof fn law_div_total(m: StateV, a: u64, b: u64)
    requires
        m.stack.len() >= 2,
        m.stack[m.stack.len() - 2] == CellV::Num(a),
        m.stack.last() == CellV::Num(b),
    ensures
        ({
            let r = run_toks(seq!["/"@], m);
            &&& r.st.stack == m.stack.drop_last().drop_last().push(CellV::Num(div_bits(a, b)))
            &&& r.st.env == m.env
            &&& r.st.running == m.running
            &&& r.msgs == Seq::<MsgV>::empty()
            &&& !r.stopped
        }),
{
    lemma_classify_literals();
    reveal_with_fuel(run_toks, 3);
    assert(seq!["/"@].drop_first() =~= Seq::<Seq<char>>::empty());
    let r = run_toks(seq!["/"@], m);
    assert(r.msgs =~= Seq::<MsgV>::empty());
}

/// An invalid token aborts the line: the tokens before it keep their effect,
/// the tokens after it are not processed, and the one extra message is the
/// classification error.
pub proof fn law_invalid_aborts(ts1: Seq<Seq<char>>, t: Seq<char>, ts2: Seq<Seq<char>>, m: StateV)
    requires
        spec_classify(t) == TokV::Invalid,
        !run_toks(ts1, m).stopped,
    ensures
        ({
            let r1 = run_toks(ts1, m);
            let r = run_toks(ts1 + seq![t] + ts2, m);
            &&& r.st == r1.st
            &&& r.msgs == r1.msgs + seq![MsgV::LexError(t)]
            &&& r.stopped
        }),
    decreases ts1.len(),
{
    reveal_with_fuel(run_toks, 3);
    let ts = ts1 + seq![t] + ts2;
    if ts1.len() == 0 {
        assert(ts[0] == t);
        let r1 = run_toks(ts1, m);
        assert(r1.st == m && r1.msgs =~= Seq::<MsgV>::empty());
        assert(run_toks(ts, m).msgs =~= r1.msgs + seq![MsgV::LexError(t)]);
    } else {
        assert(ts[0] == ts1[0]);
        let s0 = step_tok(m, ts1[0]);
        assert(!s0.stop);
        assert(ts.drop_first() =~= ts1.drop_first() + seq![t] + ts2);
        law_invalid_aborts(ts1.drop_first(), t, ts2, s0.st);
        let r1t = run_toks(ts1.drop_first(), s0.st);
        assert(run_toks(ts, m).msgs =~= (crate::exec::opt_seq(s0.msg) + r1t.msgs) + seq![
            MsgV::LexError(t),
        ]);
    }
}

/// The cells of a purely numeric stack.
pub open spec fn num_cells(vals: Seq<u64>) -> Seq<CellV> {
    vals.map_values(|v: u64| CellV::Num(v))
}

/// Plain left-to-right postfix evaluation of numbers and binary operators
/// over a value stack: a number pushes its value, an operator replaces the
/// top two values `a`, `b` (in push order) by `a <op> b`; anything else, or
/// an operator on fewer than two values, has no defined result.
pub open spec fn eval_rpn(ts: Seq<Seq<char>>, vals: Seq<u64>) -> Option<Seq<u64>>
    decreases ts.len(),
{
    if ts.len() == 0 {
        Some(vals)
    } else {
        match spec_classify(ts[0]) {
            TokV::Num(b) => eval_rpn(ts.drop_first(), vals.push(b)),
            TokV::Bin(op) => if vals.len() >= 2 {
                eval_rpn(
                    ts.drop_first(),
                    vals.drop_last().drop_last().push(
                        apply_bin(op, vals[vals.len() - 2], vals.last()),
                    ),
                )
            } else {
                None
            },
            _ => None,
        }
    }
}

/// On a purely numeric stack, a line whose tokens evaluate under plain
/// postfix evaluation is processed without any error or message, and the
/// stack ends as exactly the evaluation's values: the interpreter computes
/// standard left-to-right binary application.
pub proof fn law_numeric_line(ts: Seq<Seq<char>>, vals: Seq<u64>, m: StateV)
    requires
        m.stack == num_cells(vals),
        eval_rpn(ts, vals) is Some,
    ensures
        ({
            let r = run_toks(ts, m);
            &&& !r.stopped
            &&& r.msgs == Seq::<MsgV>::empty()
            &&& r.st.stack == num_cells(eval_rpn(ts, vals)->Some_0)
            &&& r.st.env == m.env
            &&& r.st.running == m.running
        }),
    decreases ts.len(),
{
    reveal_with_fuel(run_toks, 2);
    if ts.len() == 0 {
    } else {
        let s0 = step_tok(m, ts[0]);
        match spec_classify(ts[0]) {
            TokV::Num(b) => {
                assert(s0.st.stack =~= num_cells(vals.push(b)));
                law_numeric_line(ts.drop_first(), vals.push(b), s0.st);
            },
            TokV::Bin(op) => {
                assert(m.stack.len() == vals.len());
                assert(m.stack.last() == CellV::Num(vals.last()));
                assert(m.stack[m.stack.len() - 2] == CellV::Num(vals[vals.len() - 2]));
                let vals2 = vals.drop_last().drop_last().push(
                    apply_bin(op, vals[vals.len() - 2], vals.last()),
                );
                assert(s0.st.stack =~= num_cells(vals2));
                law_numeric_line(ts.drop_first(), vals2, s0.st);
            },
            _ => {
                assert(false);
            },
        }
        let r = run_toks(ts, m);
        assert(r.msgs =~= Seq::<MsgV>::empty());
    }
}

/// How a concrete line splits: `"dup drop"` is the two tokens `dup`, `drop`.
proof fn lemma_split_dup_drop()
    ensures
        spec_split("dup drop"@) == seq!["dup"@, "drop"@],
{
    reveal_strlit("dup drop");
    reveal_strlit("dup");
    reveal_strlit("drop");
    reveal_with_fuel(split_from, 10);
    let s = "dup drop"@;
    assert(s.len() == 8 && s[0] == 'd' && s[1] == 'u' && s[2] == 'p' && s[3] == ' ' && s[4]
        == 'd' && s[5] == 'r' && s[6] == 'o' && s[7] == 'p');
    assert(spec_split(s) =~~= seq!["dup"@, "drop"@]);
}

/// The whole-line form of the `dup`/`drop` law: processing the line
/// `"dup drop"` leaves the state exactly as it was and reports nothing.
pub proof fn law_line_dup_drop(m: StateV)
    requires
        m.stack.len() >= 1,
    ensures
        ({
            let r = spec_process_line("dup drop"@, m);
            &&& r.st.stack == m.stack
            &&& r.st.env == m.env
            &&& r.st.running == m.running
            &&& r.msgs == Seq::<MsgV>::empty()
            &&& !r.stopped
        }),
{
    lemma_split_dup_drop();
    law_dup_drop(m);
}

/// How a concrete line splits: `"swap swap"` is the token `swap` twice.
proof fn lemma_split_swap_swap()
    ensures
        spec_split("swap swap"@) == seq!["swap"@, "swap"@],
{
    reveal_strlit("swap swap");
    reveal_strlit("swap");
    reveal_with_fuel(split_from, 11);
    let s = "swap swap"@;
    assert(s.len() == 9 && s[0] == 's' && s[1] == 'w' && s[2] == 'a' && s[3] == 'p' && s[4]
        == ' ' && s[5] == 's' && s[6] == 'w' && s[7] == 'a' && s[8] == 'p');
    assert(spec_split(s) =~~= seq!["swap"@, "swap"@]);
}

/// The whole-line form of the double-`swap` law: processing the line
/// `"swap swap"` leaves the state exactly as it was and reports nothing.
pub proof fn law_line_swap_swap(m: StateV)
    requires
        m.stack.len() >= 2,
    ensures
        ({
            let r = spec_process_line("swap swap"@, m);
            &&& r.st.stack == m.stack
            &&& r.st.env == m.env
            &&& r.st.running == m.running
            &&& r.msgs == Seq::<MsgV>::empty()
            &&& !r.stopped
        }),
{
    lemma_split_swap_swap();
    law_swap_swap(m);
}

} // verus!
