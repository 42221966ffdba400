use rpn_core::exec::process_line;
use rpn_core::exec::Msg;
use rpn_core::exec::State;
use rpn_core::stack::Cell;

fn chars(s: &str) -> Vec<char> {
    s.chars().collect()
}

fn run(line: &str) -> (State, Vec<Msg>) {
    process_line(line, State::new())
}

fn stack_cells(st: &State) -> Vec<Cell> {
    let mut out = Vec::new();
    let n = st.stack.len();
    let mut i = 0;
    while i < n {
        out.push(match st.stack.get(i) {
            Cell::Num(b) => Cell::Num(*b),
            Cell::Var(v) => Cell::Var(v.clone()),
        });
        i += 1;
    }
    out
}

fn top_num(st: &State) -> f64 {
    let n = st.stack.len();
    assert!(n > 0, "stack is empty");
    match st.stack.get(n - 1) {
        Cell::Num(b) => f64::from_bits(*b),
        Cell::Var(v) => panic!("top of stack is a variable: {:?}", v),
    }
}

#[test]
fn empty_line_changes_nothing() {
    let (st, msgs) = run("");
    assert_eq!(st.stack.len(), 0);
    assert!(msgs.is_empty());
    assert!(st.running);
}

#[test]
fn pushes_numbers() {
    let (st, msgs) = run("1 2.5 -3");
    assert!(msgs.is_empty());
    assert_eq!(
        stack_cells(&st),
        vec![
            Cell::Num(1.0f64.to_bits()),
            Cell::Num(2.5f64.to_bits()),
            Cell::Num((-3.0f64).to_bits()),
        ]
    );
}

#[test]
fn splits_on_any_whitespace() {
    let (st, msgs) = run("  1\t2 \r\n 3  ");
    assert!(msgs.is_empty());
    assert_eq!(st.stack.len(), 3);
}

#[test]
fn postfix_left_to_right_division_chain() {
    let (st, msgs) = run("2 3 / 1 + 3 *");
    assert!(msgs.is_empty());
    assert_eq!(st.stack.len(), 1);
    assert_eq!(top_num(&st).to_bits(), (((2.0f64 / 3.0) + 1.0) * 3.0).to_bits());
}

#[test]
fn postfix_sum_then_divide() {
    let (st, msgs) = run("1 200 + 10 /");
    assert!(msgs.is_empty());
    assert_eq!(st.stack.len(), 1);
    assert_eq!(top_num(&st).to_bits(), ((1.0f64 + 200.0) / 10.0).to_bits());
    assert_eq!(top_num(&st), 20.1);
}

#[test]
fn subtraction_order() {
    let (st, msgs) = run("5 2 -");
    assert!(msgs.is_empty());
    assert_eq!(top_num(&st), 3.0);
}

#[test]
fn addition_is_not_an_operand() {
    let (st, _) = run("2 3 +");
    assert_eq!(top_num(&st), 5.0);
}

#[test]
fn dup_then_drop_restores_stack() {
    let (st, msgs) = run("7 4 dup drop");
    assert!(msgs.is_empty());
    assert_eq!(
        stack_cells(&st),
        vec![Cell::Num(7.0f64.to_bits()), Cell::Num(4.0f64.to_bits())]
    );
}

#[test]
fn dup_duplicates_top() {
    let (st, msgs) = run("7 dup");
    assert!(msgs.is_empty());
    assert_eq!(
        stack_cells(&st),
        vec![Cell::Num(7.0f64.to_bits()), Cell::Num(7.0f64.to_bits())]
    );
}

#[test]
fn swap_exchanges_top_two() {
    let (st, msgs) = run("1 2 swap");
    assert!(msgs.is_empty());
    assert_eq!(
        stack_cells(&st),
        vec![Cell::Num(2.0f64.to_bits()), Cell::Num(1.0f64.to_bits())]
    );
}

#[test]
fn swap_twice_is_identity() {
    let (st, msgs) = run("1 2 swap swap");
    assert!(msgs.is_empty());
    assert_eq!(
        stack_cells(&st),
        vec![Cell::Num(1.0f64.to_bits()), Cell::Num(2.0f64.to_bits())]
    );
}

#[test]
fn assignment_then_use_squares_value() {
    let (st, msgs) = run("x 5 = x x *");
    assert!(msgs.is_empty());
    assert_eq!(stack_cells(&st), vec![Cell::Num(25.0f64.to_bits())]);
}

#[test]
fn assignment_overwrites() {
    let (st, msgs) = run("x 5 = x 6 = x x +");
    assert!(msgs.is_empty());
    assert_eq!(top_num(&st), 12.0);
}

#[test]
fn assignment_from_assigned_variable_copies_value() {
    let (st, msgs) = run("x 5 = y x = y");
    assert!(msgs.is_empty());
    assert_eq!(st.env.get(&chars("y")), Some(5.0f64.to_bits()));
    assert_eq!(stack_cells(&st), vec![Cell::Var(chars("y"))]);
}

#[test]
fn identifier_pushes_unresolved_reference() {
    let (st, msgs) = run("abc");
    assert!(msgs.is_empty());
    assert_eq!(stack_cells(&st), vec![Cell::Var(chars("abc"))]);
}

#[test]
fn unassigned_variable_in_operator_restores_operands() {
    let (st, msgs) = run("3 y +");
    assert_eq!(msgs, vec![Msg::UnassignedVariable(Some(chars("y")))]);
    assert_eq!(
        stack_cells(&st),
        vec![Cell::Num(3.0f64.to_bits()), Cell::Var(chars("y"))]
    );
}

#[test]
fn unassigned_second_operand_restores_both() {
    let (st, msgs) = run("y 3 +");
    assert_eq!(msgs, vec![Msg::UnassignedVariable(Some(chars("y")))]);
    assert_eq!(
        stack_cells(&st),
        vec![Cell::Var(chars("y")), Cell::Num(3.0f64.to_bits())]
    );
}

#[test]
fn unassigned_variable_aborts_rest_of_line() {
    let (st, msgs) = run("3 y + 4 5");
    assert_eq!(msgs.len(), 1);
    assert_eq!(st.stack.len(), 2);
}

#[test]
fn operator_underflow() {
    let (_, msgs) = run("1 +");
    assert_eq!(msgs, vec![Msg::StackUnderflow]);
}

#[test]
fn assignment_underflow() {
    let (_, msgs) = run("5 =");
    assert_eq!(msgs, vec![Msg::StackUnderflow]);
}

#[test]
fn assignment_to_number_is_invalid() {
    let (st, msgs) = run("5 6 =");
    assert_eq!(msgs, vec![Msg::InvalidOperands]);
    assert_eq!(
        stack_cells(&st),
        vec![Cell::Num(5.0f64.to_bits()), Cell::Num(6.0f64.to_bits())]
    );
}

#[test]
fn assignment_from_unassigned_variable_is_invalid() {
    let (st, msgs) = run("x y =");
    assert_eq!(msgs, vec![Msg::InvalidOperands]);
    assert_eq!(stack_cells(&st), vec![Cell::Var(chars("x")), Cell::Var(chars("y"))]);
}

#[test]
fn clear_empties_stack_only() {
    let (st, _) = run("x 5 = 7 8 clear");
    assert_eq!(st.stack.len(), 0);
    assert_eq!(st.env.get(&chars("x")), Some(5.0f64.to_bits()));
}

#[test]
fn reset_empties_stack_and_environment() {
    let (st, _) = run("x 5 = 7 8 reset");
    assert_eq!(st.stack.len(), 0);
    assert!(!st.env.contains(&chars("x")));
}

#[test]
fn exit_stops_session_and_line() {
    let (st, msgs) = run("5 exit 6");
    assert!(!st.running);
    assert!(msgs.is_empty());
    assert_eq!(stack_cells(&st), vec![Cell::Num(5.0f64.to_bits())]);
}

#[test]
fn print_pops_and_reports_number() {
    let (st, msgs) = run("5 print");
    assert_eq!(msgs, vec![Msg::PrintNum(5.0f64.to_bits())]);
    assert_eq!(st.stack.len(), 0);
}

#[test]
fn print_reports_variable_name_not_value() {
    let (st, msgs) = run("x 5 = x print");
    assert_eq!(msgs, vec![Msg::PrintVar(chars("x"))]);
    assert_eq!(st.stack.len(), 0);
}

#[test]
fn print_underflow() {
    let (_, msgs) = run("print");
    assert_eq!(msgs, vec![Msg::StackUnderflow]);
}

#[test]
fn drop_underflow() {
    let (_, msgs) = run("drop");
    assert_eq!(msgs, vec![Msg::StackUnderflow]);
}

#[test]
fn dup_underflow() {
    let (_, msgs) = run("dup");
    assert_eq!(msgs, vec![Msg::StackUnderflow]);
}

#[test]
fn swap_underflow() {
    let (_, msgs) = run("1 swap");
    assert_eq!(msgs, vec![Msg::StackUnderflow]);
}

#[test]
fn sum_over_numeric_stack() {
    let (st, msgs) = run("2 3 4 sum");
    assert!(msgs.is_empty());
    assert_eq!(stack_cells(&st), vec![Cell::Num(9.0f64.to_bits())]);
}

#[test]
fn prod_over_numeric_stack() {
    let (st, msgs) = run("2 3 4 prod");
    assert!(msgs.is_empty());
    assert_eq!(stack_cells(&st), vec![Cell::Num(24.0f64.to_bits())]);
}

#[test]
fn sum_of_empty_stack_is_zero() {
    let (st, msgs) = run("sum");
    assert!(msgs.is_empty());
    assert_eq!(stack_cells(&st), vec![Cell::Num(0.0f64.to_bits())]);
}

#[test]
fn prod_of_empty_stack_is_one() {
    let (st, msgs) = run("prod");
    assert!(msgs.is_empty());
    assert_eq!(stack_cells(&st), vec![Cell::Num(1.0f64.to_bits())]);
}

#[test]
fn fold_resolves_assigned_variables() {
    let (st, msgs) = run("x 2 = x 3 sum");
    assert!(msgs.is_empty());
    assert_eq!(stack_cells(&st), vec![Cell::Num(5.0f64.to_bits())]);
}

#[test]
fn fold_with_unassigned_variable_leaves_stack_untouched() {
    let (st, msgs) = run("y 3 sum");
    assert_eq!(msgs, vec![Msg::UnassignedVariable(None)]);
    assert_eq!(
        stack_cells(&st),
        vec![Cell::Var(chars("y")), Cell::Num(3.0f64.to_bits())]
    );
}

#[test]
fn division_by_zero_is_infinity_not_error() {
    let (st, msgs) = run("1 0 /");
    assert!(msgs.is_empty());
    assert_eq!(top_num(&st), f64::INFINITY);
}

#[test]
fn negative_division_by_zero_is_negative_infinity() {
    let (st, msgs) = run("-1 0 /");
    assert!(msgs.is_empty());
    assert_eq!(top_num(&st), f64::NEG_INFINITY);
}

#[test]
fn zero_over_zero_is_nan_not_error() {
    let (st, msgs) = run("0 0 /");
    assert!(msgs.is_empty());
    assert!(top_num(&st).is_nan());
}

#[test]
fn invalid_token_aborts_line_keeping_earlier_effect() {
    let (st, msgs) = run("1 2 @@ 3");
    assert_eq!(msgs, vec![Msg::LexError(chars("@@"))]);
    assert_eq!(
        stack_cells(&st),
        vec![Cell::Num(1.0f64.to_bits()), Cell::Num(2.0f64.to_bits())]
    );
}

#[test]
fn state_persists_across_lines() {
    let (st, _) = run("x 5 =");
    let (st, msgs) = process_line("x x +", st);
    assert!(msgs.is_empty());
    assert_eq!(top_num(&st), 10.0);
}

#[test]
fn error_line_leaves_state_usable_for_next_line() {
    let (st, _) = run("3 y +");
    let (st, msgs) = process_line("y 7 = +", st);
    assert!(msgs.is_empty());
    assert_eq!(top_num(&st), 10.0);
}
