//! The executor: consumes one line's worth of tokens in order and applies
//! each token's transition to the interpreter state, aborting the remainder
//! of the line on the first error. Partial changes made by earlier tokens of
//! the line persist. The whole per-line behaviour is given by `run_toks`,
//! and `process_line` is proved to implement it.
use vstd::prelude::*;

use crate::env::Env;
use crate::num::add_bits;
use crate::num::div_bits;
use crate::num::mul_bits;
use crate::num::sub_bits;
use crate::num::add_num;
use crate::num::div_num;
use crate::num::mul_num;
use crate::num::sub_num;
use crate::stack::Cell;
use crate::stack::CellV;
use crate::stack::Stack;
use crate::stack::copy_cell;
use crate::token::BinKind;
use crate::token::FoldKind;
use crate::token::KeyKind;
use crate::token::Tok;
use crate::token::TokV;
use crate::token::chars_of;
use crate::token::classify;
use crate::token::copy_chars;
use crate::token::spec_classify;
use crate::token::spec_split;
use crate::token::split_line;

verus! {

/// The bit pattern of positive zero, the identity of `sum`.
pub const SUM_UNIT_BITS: u64 = 0;

/// The bit pattern of positive one, the identity of `prod`.
pub const PROD_UNIT_BITS: u64 = 0x3FF0_0000_0000_0000;

/// A user-facing message produced while processing a line: either the output
/// of `print`, or the diagnostic that aborted the line.
#[derive(Debug, PartialEq, Eq)]
pub enum Msg {
    /// `print` popped a number.
    PrintNum(u64),
    /// `print` popped a variable reference; its literal name is shown.
    PrintVar(Vec<char>),
    /// The token could not be classified.
    LexError(Vec<char>),
    /// An operation needed more cells than the stack holds.
    StackUnderflow,
    /// An operator or fold needed the value of a variable that has no
    /// assignment; the name is given for a binary operator, not for a fold.
    UnassignedVariable(Option<Vec<char>>),
    /// The operands of `=` do not fit its contract.
    InvalidOperands,
}

/// The specification-level image of a message.
pub enum MsgV {
    PrintNum(u64),
    PrintVar(Seq<char>),
    LexError(Seq<char>),
    StackUnderflow,
    UnassignedVariable(Option<Seq<char>>),
    InvalidOperands,
}

impl View for Msg {
    type V = MsgV;

    open spec fn view(&self) -> MsgV {
        match self {
            Msg::PrintNum(b) => MsgV::PrintNum(*b),
            Msg::PrintVar(n) => MsgV::PrintVar(n@),
            Msg::LexError(t) => MsgV::LexError(t@),
            Msg::StackUnderflow => MsgV::StackUnderflow,
            Msg::UnassignedVariable(o) => MsgV::UnassignedVariable(
                match o {
                    Some(n) => Some(n@),
                    None => None,
                },
            ),
            Msg::InvalidOperands => MsgV::InvalidOperands,
        }
    }
}

impl DeepView for Msg {
    type V = MsgV;

    open spec fn deep_view(&self) -> MsgV {
        self@
    }
}

/// The interpreter state: one value stack, one variable environment, and the
/// flag that tells the session loop whether to continue.
pub struct State {
    pub stack: Stack,
    pub env: Env,
    pub running: bool,
}

/// The specification-level image of the interpreter state.
pub struct StateV {
    pub stack: Seq<CellV>,
    pub env: Map<Seq<char>, u64>,
    pub running: bool,
}

impl View for State {
    type V = StateV;

    open spec fn view(&self) -> StateV {
        StateV { stack: self.stack@, env: self.env@, running: self.running }
    }
}

impl State {
    /// A fresh state: empty stack, empty environment, session running.
    pub fn new() -> (s: State)
        ensures
            s@.stack == Seq::<CellV>::empty(),
            s@.env == Map::<Seq<char>, u64>::empty(),
            s@.running,
    {
        State { stack: Stack::new(), env: Env::new(), running: true }
    }
}

/// Whether a cell can be resolved to a number under an environment: a number
/// cell always, a variable cell only if its name is assigned.
pub open spec fn resolvable(env: Map<Seq<char>, u64>, c: CellV) -> bool {
    match c {
        CellV::Num(_) => true,
        CellV::Var(n) => env.contains_key(n),
    }
}

/// The number a resolvable cell resolves to.
pub open spec fn resolved(env: Map<Seq<char>, u64>, c: CellV) -> u64 {
    match c {
        CellV::Num(b) => b,
        CellV::Var(n) => env[n],
    }
}

/// The name inside a variable cell.
pub open spec fn cell_name(c: CellV) -> Seq<char> {
    match c {
        CellV::Var(n) => n,
        CellV::Num(_) => seq![],
    }
}

/// The result of one binary operator on two binary64 bit patterns.
pub open spec fn apply_bin(op: BinKind, a: u64, b: u64) -> u64 {
    match op {
        BinKind::Plus => add_bits(a, b),
        BinKind::Minus => sub_bits(a, b),
        BinKind::Times => mul_bits(a, b),
        BinKind::Slash => div_bits(a, b),
    }
}

/// The operator a fold reduces with.
pub open spec fn fold_op(f: FoldKind) -> BinKind {
    match f {
        FoldKind::Sum => BinKind::Plus,
        FoldKind::Prod => BinKind::Times,
    }
}

/// The identity a fold starts from.
pub open spec fn fold_unit(f: FoldKind) -> u64 {
    match f {
        FoldKind::Sum => SUM_UNIT_BITS,
        FoldKind::Prod => PROD_UNIT_BITS,
    }
}

/// A fold's reduction, left to right (stack bottom to top).
pub open spec fn fold_vals(f: FoldKind, vals: Seq<u64>) -> u64
    decreases vals.len(),
{
    if vals.len() == 0 {
        fold_unit(f)
    } else {
        apply_bin(fold_op(f), fold_vals(f, vals.drop_last()), vals.last())
    }
}

/// Whether every cell of a stack resolves under an environment.
pub open spec fn all_resolvable(env: Map<Seq<char>, u64>, cells: Seq<CellV>) -> bool {
    forall|i: int| 0 <= i < cells.len() ==> resolvable(env, cells[i])
}

/// Every cell of a stack, resolved.
pub open spec fn resolved_seq(env: Map<Seq<char>, u64>, cells: Seq<CellV>) -> Seq<u64> {
    cells.map_values(|c: CellV| resolved(env, c))
}

/// The outcome of one token: the new state, at most one message, and whether
/// the rest of the line is abandoned.
pub struct StepV {
    pub st: StateV,
    pub msg: Option<MsgV>,
    pub stop: bool,
}

/// The transition of a binary operator: it needs two cells, both resolvable;
/// on an unassigned variable the stack is left exactly as it was.
pub open spec fn step_bin(m: StateV, op: BinKind) -> StepV {
    if m.stack.len() < 2 {
        StepV { st: m, msg: Some(MsgV::StackUnderflow), stop: true }
    } else {
        let b = m.stack.last();
        let a = m.stack[m.stack.len() - 2];
        if !resolvable(m.env, b) {
            StepV { st: m, msg: Some(MsgV::UnassignedVariable(Some(cell_name(b)))), stop: true }
        } else if !resolvable(m.env, a) {
            StepV { st: m, msg: Some(MsgV::UnassignedVariable(Some(cell_name(a)))), stop: true }
        } else {
            let r = apply_bin(op, resolved(m.env, a), resolved(m.env, b));
            StepV {
                st: StateV {
                    stack: m.stack.drop_last().drop_last().push(CellV::Num(r)),
                    env: m.env,
                    running: m.running,
                },
                msg: None,
                stop: false,
            }
        }
    }
}

/// The transition of `=`: the source value is the top cell, the target the
/// cell beneath it (`x 5 =` assigns five to `x`). The target must be a
/// variable cell and the source must resolve to a number — a number cell, or
/// a variable cell whose name is already assigned, whose current value is
/// copied. On success both cells are consumed and nothing is pushed back; on
/// failure both cells stay exactly where they were.
pub open spec fn step_assign(m: StateV) -> StepV {
    if m.stack.len() < 2 {
        StepV { st: m, msg: Some(MsgV::StackUnderflow), stop: true }
    } else {
        let b = m.stack.last();
        let a = m.stack[m.stack.len() - 2];
        if a is Var && resolvable(m.env, b) {
            StepV {
                st: StateV {
                    stack: m.stack.drop_last().drop_last(),
                    env: m.env.insert(cell_name(a), resolved(m.env, b)),
                    running: m.running,
                },
                msg: None,
                stop: false,
            }
        } else {
            StepV { st: m, msg: Some(MsgV::InvalidOperands), stop: true }
        }
    }
}

/// The transition of a keyword.
pub open spec fn step_key(m: StateV, k: KeyKind) -> StepV {
    match k {
        KeyKind::Clear => StepV {
            st: StateV { stack: seq![], env: m.env, running: m.running },
            msg: None,
            stop: false,
        },
        KeyKind::Reset => StepV {
            st: StateV { stack: seq![], env: Map::empty(), running: m.running },
            msg: None,
            stop: false,
        },
        KeyKind::Exit => StepV {
            st: StateV { stack: m.stack, env: m.env, running: false },
            msg: None,
            stop: true,
        },
        KeyKind::Print => if m.stack.len() < 1 {
            StepV { st: m, msg: Some(MsgV::StackUnderflow), stop: true }
        } else {
            StepV {
                st: StateV { stack: m.stack.drop_last(), env: m.env, running: m.running },
                msg: Some(
                    match m.stack.last() {
                        CellV::Num(b) => MsgV::PrintNum(b),
                        CellV::Var(n) => MsgV::PrintVar(n),
                    },
                ),
                stop: false,
            }
        },
        KeyKind::Drop => if m.stack.len() < 1 {
            StepV { st: m, msg: Some(MsgV::StackUnderflow), stop: true }
        } else {
            StepV {
                st: StateV { stack: m.stack.drop_last(), env: m.env, running: m.running },
                msg: None,
                stop: false,
            }
        },
        KeyKind::Dup => if m.stack.len() < 1 {
            StepV { st: m, msg: Some(MsgV::StackUnderflow), stop: true }
        } else {
            StepV {
                st: StateV { stack: m.stack.push(m.stack.last()), env: m.env, running: m.running },
                msg: None,
                stop: false,
            }
        },
        KeyKind::Swap => if m.stack.len() < 2 {
            StepV { st: m, msg: Some(MsgV::StackUnderflow), stop: true }
        } else {
            let top = m.stack.last();
            let under = m.stack[m.stack.len() - 2];
            StepV {
                st: StateV {
                    stack: m.stack.update(m.stack.len() - 2, top).update(
                        m.stack.len() - 1,
                        under,
                    ),
                    env: m.env,
                    running: m.running,
                },
                msg: None,
                stop: false,
            }
        },
    }
}

/// The transition of a fold: if any cell is an unassigned variable the stack
/// is untouched; otherwise the whole stack is replaced by the reduction.
pub open spec fn step_fold(m: StateV, f: FoldKind) -> StepV {
    if !all_resolvable(m.env, m.stack) {
        StepV { st: m, msg: Some(MsgV::UnassignedVariable(None)), stop: true }
    } else {
        StepV {
            st: StateV {
                stack: seq![CellV::Num(fold_vals(f, resolved_seq(m.env, m.stack)))],
                env: m.env,
                running: m.running,
            },
            msg: None,
            stop: false,
        }
    }
}

/// The transition of one token.
pub open spec fn step_tok(m: StateV, t: Seq<char>) -> StepV {
    match spec_classify(t) {
        TokV::Num(b) => StepV {
            st: StateV { stack: m.stack.push(CellV::Num(b)), env: m.env, running: m.running },
            msg: None,
            stop: false,
        },
        TokV::Var(n) => StepV {
            st: StateV { stack: m.stack.push(CellV::Var(n)), env: m.env, running: m.running },
            msg: None,
            stop: false,
        },
        TokV::Bin(op) => step_bin(m, op),
        TokV::Assign => step_assign(m),
        TokV::Key(k) => step_key(m, k),
        TokV::Fold(f) => step_fold(m, f),
        TokV::Invalid => StepV { st: m, msg: Some(MsgV::LexError(t)), stop: true },
    }
}

/// A step's message, as a sequence of zero or one messages.
pub open spec fn opt_seq(m: Option<MsgV>) -> Seq<MsgV> {
    match m {
        Some(x) => seq![x],
        None => seq![],
    }
}

/// The outcome of a whole line: the final state, the messages in order, and
/// whether the line was abandoned before its last token.
pub struct RunV {
    pub st: StateV,
    pub msgs: Seq<MsgV>,
    pub stopped: bool,
}

/// Processing a token sequence strictly left to right, stopping at the first
/// token whose transition says so; earlier tokens' effects persist.
pub open spec fn run_toks(ts: Seq<Seq<char>>, m: StateV) -> RunV
    decreases ts.len(),
{
    if ts.len() == 0 {
        RunV { st: m, msgs: seq![], stopped: false }
    } else {
        let s = step_tok(m, ts[0]);
        if s.stop {
            RunV { st: s.st, msgs: opt_seq(s.msg), stopped: true }
        } else {
            let r = run_toks(ts.drop_first(), s.st);
            RunV { st: r.st, msgs: opt_seq(s.msg) + r.msgs, stopped: r.stopped }
        }
    }
}

/// The outcome of one whole input line on a state.
pub open spec fn spec_process_line(line: Seq<char>, m: StateV) -> RunV {
    run_toks(spec_split(line), m)
}

/// Resolves a cell against the environment: direct for a number, by lookup
/// for a variable.
pub fn resolve(env: &Env, c: &Cell) -> (r: Option<u64>)
    ensures
        r == if resolvable(env@, c@) {
            Some(resolved(env@, c@))
        } else {
            None::<u64>
        },
{
    match c {
        Cell::Num(b) => Some(*b),
        Cell::Var(n) => env.get(n),
    }
}

/// Applies one binary operator to two binary64 bit patterns.
pub fn apply_bin_exec(op: BinKind, a: u64, b: u64) -> (r: u64)
    ensures
        r == apply_bin(op, a, b),
{
    match op {
        BinKind::Plus => add_num(a, b),
        BinKind::Minus => sub_num(a, b),
        BinKind::Times => mul_num(a, b),
        BinKind::Slash => div_num(a, b),
    }
}

/// Whether every cell of the stack resolves under the environment.
fn all_resolvable_exec(env: &Env, stack: &Stack) -> (r: bool)
    ensures
        r == all_resolvable(env@, stack@),
{
    let n = stack.len();
    let mut i: usize = 0;
    while i < n
        invariant
            i <= n,
            n == stack@.len(),
            forall|j: int| 0 <= j < i ==> resolvable(env@, stack@[j]),
        decreases n - i,
    {
        let ok = resolve(env, stack.get(i));
        if ok.is_none() {
            return false;
        }
        i = i + 1;
    }
    true
}

/// Reduces the whole stack, bottom to top.
fn fold_exec(env: &Env, stack: &Stack, f: FoldKind) -> (r: u64)
    requires
        all_resolvable(env@, stack@),
    ensures
        r == fold_vals(f, resolved_seq(env@, stack@)),
{
    let op = match f {
        FoldKind::Sum => BinKind::Plus,
        FoldKind::Prod => BinKind::Times,
    };
    let mut acc: u64 = match f {
        FoldKind::Sum => SUM_UNIT_BITS,
        FoldKind::Prod => PROD_UNIT_BITS,
    };
    let n = stack.len();
    let mut i: usize = 0;
    while i < n
        invariant
            i <= n,
            n == stack@.len(),
            all_resolvable(env@, stack@),
            op == fold_op(f),
            acc == fold_vals(f, resolved_seq(env@, stack@.take(i as int))),
        decreases n - i,
    {
        let ghost pre = resolved_seq(env@, stack@.take(i as int));
        let v = resolve(env, stack.get(i)).unwrap();
        acc = apply_bin_exec(op, acc, v);
        proof {
            let post = resolved_seq(env@, stack@.take(i + 1 as int));
            assert(post =~= pre.push(resolved(env@, stack@[i as int])));
            assert(post.drop_last() =~= pre);
        }
        i = i + 1;
    }
    proof {
        assert(stack@.take(n as int) =~= stack@);
    }
    acc
}

/// Applies one token to the state, returning its message, if any, and
/// whether the rest of the line is abandoned.
fn step_exec(st: &mut State, t: &Vec<char>) -> (r: (Option<Msg>, bool))
    ensures
        ({
            let s = step_tok(old(st)@, t@);
            &&& final(st)@ == s.st
            &&& s.msg == match r.0 {
                Some(m) => Some(m@),
                None => None::<MsgV>,
            }
            &&& r.1 == s.stop
        }),
{
    let ghost m0 = st@;
    match classify(t) {
        Tok::Num(b) => {
            st.stack.push(Cell::Num(b));
            (None, false)
        },
        Tok::Var(n) => {
            st.stack.push(Cell::Var(n));
            (None, false)
        },
        Tok::Bin(op) => {
            if st.stack.len() < 2 {
                return (Some(Msg::StackUnderflow), true);
            }
            let b = st.stack.pop();
            let rb = resolve(&st.env, &b);
            if rb.is_none() {
                let nm = match &b {
                    Cell::Var(n) => copy_chars(n),
                    Cell::Num(_) => Vec::new(),
                };
                st.stack.push(b);
                proof {
                    assert(st@.stack =~= m0.stack);
                }
                return (Some(Msg::UnassignedVariable(Some(nm))), true);
            }
            let a = st.stack.pop();
            let ra = resolve(&st.env, &a);
            if ra.is_none() {
                let nm = match &a {
                    Cell::Var(n) => copy_chars(n),
                    Cell::Num(_) => Vec::new(),
                };
                st.stack.push(a);
                st.stack.push(b);
                proof {
                    assert(st@.stack =~= m0.stack);
                }
                return (Some(Msg::UnassignedVariable(Some(nm))), true);
            }
            let av = ra.unwrap();
            let bv = rb.unwrap();
            let r = apply_bin_exec(op, av, bv);
            st.stack.push(Cell::Num(r));
            (None, false)
        },
        Tok::Assign => {
            if st.stack.len() < 2 {
                return (Some(Msg::StackUnderflow), true);
            }
            let b = st.stack.pop();
            let a = st.stack.pop();
            let rb = resolve(&st.env, &b);
            match (a, rb) {
                (Cell::Var(name), Some(bv)) => {
                    st.env.set(&name, bv);
                    (None, false)
                },
                (a, _) => {
                    st.stack.push(a);
                    st.stack.push(b);
                    proof {
                        assert(st@.stack =~= m0.stack);
                    }
                    (Some(Msg::InvalidOperands), true)
                },
            }
        },
        Tok::Key(k) => match k {
            KeyKind::Clear => {
                st.stack.clear();
                (None, false)
            },
            KeyKind::Reset => {
                st.stack.clear();
                st.env.clear();
                (None, false)
            },
            KeyKind::Exit => {
                st.running = false;
                (None, true)
            },
            KeyKind::Print => {
                if st.stack.len() < 1 {
                    return (Some(Msg::StackUnderflow), true);
                }
                let c = st.stack.pop();
                let msg = match c {
                    Cell::Num(b) => Msg::PrintNum(b),
                    Cell::Var(n) => Msg::PrintVar(n),
                };
                (Some(msg), false)
            },
            KeyKind::Drop => {
                if st.stack.len() < 1 {
                    return (Some(Msg::StackUnderflow), true);
                }
                let _ = st.stack.pop();
                (None, false)
            },
            KeyKind::Dup => {
                if st.stack.len() < 1 {
                    return (Some(Msg::StackUnderflow), true);
                }
                let n = st.stack.len();
                let c = copy_cell(st.stack.get(n - 1));
                st.stack.push(c);
                (None, false)
            },
            KeyKind::Swap => {
                if st.stack.len() < 2 {
                    return (Some(Msg::StackUnderflow), true);
                }
                let top = st.stack.pop();
                let under = st.stack.pop();
                st.stack.push(top);
                st.stack.push(under);
                proof {
                    assert(st@.stack =~= m0.stack.update(
                        m0.stack.len() - 2,
                        m0.stack.last(),
                    ).update(m0.stack.len() - 1, m0.stack[m0.stack.len() - 2]));
                }
                (None, false)
            },
        },
        Tok::Fold(f) => {
            if !all_resolvable_exec(&st.env, &st.stack) {
                return (Some(Msg::UnassignedVariable(None)), true);
            }
            let r = fold_exec(&st.env, &st.stack, f);
            st.stack.clear();
            st.stack.push(Cell::Num(r));
            proof {
                assert(st@.stack =~= seq![
                    CellV::Num(fold_vals(f, resolved_seq(m0.env, m0.stack))),
                ]);
            }
            (None, false)
        },
        Tok::Invalid => (Some(Msg::LexError(copy_chars(t))), true),
    }
}

/// Extending a run by one token composes its step onto the run's outcome,
/// unless the run had already stopped.
pub proof fn lemma_run_toks_snoc(ts: Seq<Seq<char>>, t: Seq<char>, m: StateV)
    ensures
        run_toks(ts.push(t), m) == ({
            let r = run_toks(ts, m);
            if r.stopped {
                RunV { st: r.st, msgs: r.msgs, stopped: true }
            } else {
                let s = step_tok(r.st, t);
                RunV { st: s.st, msgs: r.msgs + opt_seq(s.msg), stopped: s.stop }
            }
        }),
    decreases ts.len(),
{
    reveal_with_fuel(run_toks, 3);
    if ts.len() == 0 {
        assert(ts.push(t)[0] == t);
        assert(ts.push(t).drop_first() =~= Seq::<Seq<char>>::empty());
        let s = step_tok(m, t);
        if s.stop {
            assert(opt_seq(s.msg) =~= seq![] + opt_seq(s.msg));
        } else {
            assert(opt_seq(s.msg) + seq![] =~= seq![] + opt_seq(s.msg));
        }
    } else {
        assert(ts.push(t)[0] == ts[0]);
        assert(ts.push(t).drop_first() =~= ts.drop_first().push(t));
        let s0 = step_tok(m, ts[0]);
        if s0.stop {
        } else {
            lemma_run_toks_snoc(ts.drop_first(), t, s0.st);
            let r = run_toks(ts.drop_first(), s0.st);
            if r.stopped {
            } else {
                let s = step_tok(r.st, t);
                assert(opt_seq(s0.msg) + (r.msgs + opt_seq(s.msg)) =~= (opt_seq(s0.msg)
                    + r.msgs) + opt_seq(s.msg));
            }
        }
    }
}

/// Once a prefix of the tokens has stopped the line, the remaining tokens
/// change nothing.
pub proof fn lemma_run_toks_stopped(ts: Seq<Seq<char>>, i: int, m: StateV)
    requires
        0 <= i <= ts.len(),
        run_toks(ts.take(i), m).stopped,
    ensures
        run_toks(ts, m) == run_toks(ts.take(i), m),
    decreases i,
{
    assert(i > 0);
    assert(ts.take(i)[0] == ts[0]);
    let s = step_tok(m, ts[0]);
    if s.stop {
    } else {
        assert(ts.take(i).drop_first() =~= ts.drop_first().take(i - 1));
        lemma_run_toks_stopped(ts.drop_first(), i - 1, s.st);
    }
}

/// Processes one line against the interpreter state: the line is split into
/// whitespace-delimited tokens, the tokens are applied strictly left to
/// right, and the first error of any kind abandons the rest of the line.
/// The updated state and the messages, in order, are exactly those of
/// `spec_process_line`.
pub fn process_line(line: &str, st: State) -> (res: (State, Vec<Msg>))
    ensures
        res.0@ == spec_process_line(line@, st@).st,
        res.1.deep_view() == spec_process_line(line@, st@).msgs,
{
    let ghost m0 = st@;
    let chars = chars_of(line);
    let toks = split_line(&chars);
    let ghost tv = toks.deep_view();
    let mut st = st;
    let mut msgs: Vec<Msg> = Vec::new();
    let mut i: usize = 0;
    let mut stop = false;
    proof {
        assert(tv.take(0) =~= Seq::<Seq<char>>::empty());
        assert(msgs.deep_view() =~= Seq::<MsgV>::empty());
    }
    while i < toks.len() && !stop
        invariant
            i <= toks@.len(),
            toks.deep_view() == tv,
            tv == spec_split(line@),
            ({
                let r = run_toks(tv.take(i as int), m0);
                &&& st@ == r.st
                &&& msgs.deep_view() == r.msgs
                &&& stop == r.stopped
            }),
        decreases toks@.len() - i,
    {
        let t = &toks[i];
        proof {
            assert(t@ =~= tv[i as int]);
            assert(tv.take(i + 1 as int) =~= tv.take(i as int).push(tv[i as int]));
            lemma_run_toks_snoc(tv.take(i as int), tv[i as int], m0);
        }
        let ghost msgs_pre = msgs.deep_view();
        let (msg, s) = step_exec(&mut st, t);
        match msg {
            Some(x) => {
                let ghost xv = x@;
                msgs.push(x);
                proof {
                    assert(msgs.deep_view() =~= msgs_pre.push(xv));
                    assert(msgs_pre.push(xv) =~= msgs_pre + seq![xv]);
                }
            },
            None => {
                proof {
                    assert(msgs_pre + Seq::<MsgV>::empty() =~= msgs_pre);
                }
            },
        }
        stop = s;
        i = i + 1;
        proof {
            if stop {
                lemma_run_toks_stopped(tv, i as int, m0);
            }
        }
    }
    proof {
        if !stop {
            assert(i == tv.len());
            assert(tv.take(tv.len() as int) =~= tv);
        } else {
            lemma_run_toks_stopped(tv, i as int, m0);
        }
    }
    (st, msgs)
}

} // verus!
