use f3::inner::Status;
use f3::messages::MsgKind;
use f3::runtime::{ForthRuntime, BRANCH, BRANCH0, CONSTANT, DEFINITION, EXIT, LITERAL, VARIABLE};

const FUEL: u64 = 100000;

fn booted() -> ForthRuntime {
    let mut rt = ForthRuntime::new();
    rt.cold_start();
    rt
}

fn eval(rt: &mut ForthRuntime, line: &str) -> String {
    let status = rt.evaluate(line, FUEL);
    assert_eq!(status, Status::Done);
    String::from_utf8(rt.take_output()).unwrap()
}

fn stack_of(rt: &ForthRuntime) -> Vec<i64> {
    let mut result = vec![];
    for i in (0..rt.kernel.stack_len()).rev() {
        result.push(rt.kernel.peek(i));
    }
    result
}

fn has_message(rt: &ForthRuntime, kind: MsgKind) -> bool {
    rt.msg.log.iter().any(|m| m.kind == kind)
}

#[test]
fn two_plus_two_prints_four() {
    let mut rt = booted();
    assert_eq!(eval(&mut rt, "2 2 + ."), "4 ");
    assert_eq!(rt.kernel.stack_len(), 0);
}

#[test]
fn colon_definition_of_square() {
    let mut rt = booted();
    assert_eq!(eval(&mut rt, ": sq dup * ; 7 sq ."), "49 ");
    assert_eq!(rt.kernel.stack_len(), 0);
    assert!(!rt.get_compile_mode());
}

#[test]
fn unknown_token_at_top_level_warns_and_keeps_stack() {
    let mut rt = booted();
    eval(&mut rt, "1 2");
    eval(&mut rt, "foo");
    assert!(has_message(&rt, MsgKind::TokenNotRecognized));
    assert_eq!(stack_of(&rt), vec![1, 2]);
    assert!(!rt.get_abort_flag());
}

#[test]
fn unknown_token_in_definition_aborts_it() {
    let mut rt = booted();
    eval(&mut rt, "5 : bar foo ;");
    assert!(has_message(&rt, MsgKind::TokenNotRecognized));
    assert!(rt.get_abort_flag());
    assert!(!rt.get_compile_mode());
    assert_eq!(rt.kernel.stack_len(), 0);
    eval(&mut rt, "bar");
    assert_eq!(rt.kernel.stack_len(), 0);
}

#[test]
fn redefinition_resolves_to_latest() {
    let mut rt = booted();
    assert_eq!(eval(&mut rt, ": w 1 ; : w 2 ; w ."), "2 ");
    assert!(has_message(&rt, MsgKind::Redefinition));
}

#[test]
fn literal_in_definition_comes_back_unchanged() {
    let mut rt = booted();
    eval(&mut rt, ": lit -9223372036854775808 ; lit");
    assert_eq!(rt.kernel.pop(), i64::MIN);
}

#[test]
fn arithmetic_sequence_depth() {
    let mut rt = booted();
    eval(&mut rt, "1 2 3 4");
    assert_eq!(rt.kernel.stack_len(), 4);
    eval(&mut rt, "+ dup swap rot over * 0=");
    // + -1, dup +1, swap 0, rot 0, over +1, * -1, 0= 0
    assert_eq!(rt.kernel.stack_len(), 4);
}

#[test]
fn underflow_aborts_and_empties_stack() {
    let mut rt = booted();
    eval(&mut rt, "1 +");
    assert!(has_message(&rt, MsgKind::StackUnderflow));
    assert!(rt.get_abort_flag());
    assert_eq!(rt.kernel.stack_len(), 0);
}

#[test]
fn division_by_zero_is_reported() {
    let mut rt = booted();
    eval(&mut rt, "7 0 /");
    assert!(has_message(&rt, MsgKind::DivisionError));
    assert_eq!(rt.kernel.stack_len(), 0);
    assert_eq!(eval(&mut rt, "-7 2 / . -7 2 mod ."), "-3 -1 ");
}

#[test]
fn comparisons_and_logic() {
    let mut rt = booted();
    eval(&mut rt, "1 2 < 2 1 < 3 3 = 0 0= -5 0< 12 10 and 12 3 or");
    assert_eq!(stack_of(&rt), vec![-1, 0, -1, -1, -1, 8, 15]);
}

#[test]
fn wrapping_arithmetic() {
    let mut rt = booted();
    eval(&mut rt, "9223372036854775807 1 +");
    assert_eq!(rt.kernel.pop(), i64::MIN);
}

#[test]
fn numbers_are_read_in_base_ten_whatever_base_holds() {
    let mut rt = booted();
    eval(&mut rt, "16 base !");
    assert_eq!(eval(&mut rt, "10 ."), "10 ");
}

#[test]
fn variables_fetch_and_store() {
    let mut rt = booted();
    eval(&mut rt, "42 tmp ! tmp @");
    assert_eq!(rt.kernel.pop(), 42);
}

#[test]
fn immediate_word_runs_while_compiling() {
    let mut rt = booted();
    assert_eq!(eval(&mut rt, ": now-it 99 . ; immediate : user now-it ;"), "99 ");
}

#[test]
fn return_stack_words() {
    let mut rt = booted();
    eval(&mut rt, ": t 5 >r r@ r> + ; t");
    assert_eq!(rt.kernel.pop(), 10);
}

#[test]
fn pick_and_depth() {
    let mut rt = booted();
    eval(&mut rt, "10 20 30 2 pick depth");
    assert_eq!(stack_of(&rt), vec![10, 20, 30, 10, 4]);
}

#[test]
fn execute_runs_a_word_by_address() {
    let mut rt = booted();
    eval(&mut rt, ": five 5 ; (') five execute");
    assert_eq!(stack_of(&rt), vec![5]);
}

#[test]
fn emit_writes_characters() {
    let mut rt = booted();
    assert_eq!(eval(&mut rt, "72 (emit) 105 (emit)"), "Hi");
}

#[test]
fn dot_s_shows_stack_bottom_first() {
    let mut rt = booted();
    assert_eq!(eval(&mut rt, "1 2 3 .s"), "[ 1 2 3 ] ");
}

#[test]
fn see_decompiles_a_definition() {
    let mut rt = booted();
    eval(&mut rt, ": sq dup * ;");
    assert_eq!(eval(&mut rt, "see sq"), ": sq dup * ; \n");
}

#[test]
fn abort_twice_then_next_cycle_is_clean() {
    let mut rt = booted();
    eval(&mut rt, "1 2 3");
    rt.f_abort();
    rt.f_abort();
    assert!(rt.get_abort_flag());
    assert_eq!(rt.kernel.stack_len(), 0);
    assert!(rt.begin_cycle());
    assert!(!rt.get_abort_flag());
    assert_eq!(rt.kernel.stack_len(), 0);
}

#[test]
fn bye_ends_the_session() {
    let mut rt = booted();
    eval(&mut rt, "bye");
    assert!(rt.should_exit());
    assert!(!rt.begin_cycle());
}

#[test]
fn branch0_jumps_relative_to_the_branch_cell() {
    let mut rt = booted();
    rt.make_word("t0", &[DEFINITION, LITERAL, 0, BRANCH0, 4, LITERAL, 111, LITERAL, 222, EXIT]);
    rt.make_word("t1", &[DEFINITION, LITERAL, -1, BRANCH0, 4, LITERAL, 111, LITERAL, 222, EXIT]);
    rt.make_word("t2", &[DEFINITION, BRANCH, 4, LITERAL, 111, LITERAL, 333, EXIT]);
    eval(&mut rt, "t0");
    assert_eq!(stack_of(&rt), vec![222]);
    rt.f_clear();
    eval(&mut rt, "t1");
    assert_eq!(stack_of(&rt), vec![111, 222]);
    rt.f_clear();
    eval(&mut rt, "t2");
    assert_eq!(stack_of(&rt), vec![333]);
}

#[test]
fn constants_and_variables_as_records() {
    let mut rt = booted();
    let c = rt.make_word("seven", &[CONSTANT, 7]);
    let v = rt.make_word("box", &[VARIABLE, 0]);
    assert!(c > 0 && v > 0);
    eval(&mut rt, "seven box ! box @ seven +");
    assert_eq!(stack_of(&rt), vec![14]);
}
