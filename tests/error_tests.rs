use f3::inner::Status;
use f3::messages::MsgKind;
use f3::runtime::{ForthRuntime, BUILTIN_FLAG, DEFINITION, EXIT};

fn booted() -> ForthRuntime {
    let mut rt = ForthRuntime::new();
    rt.cold_start();
    rt
}

fn has(rt: &ForthRuntime, kind: MsgKind) -> bool {
    rt.msg.log.iter().any(|m| m.kind == kind)
}

#[test]
fn fetch_outside_the_arena() {
    let mut rt = booted();
    rt.evaluate("-1 @", 1000);
    assert!(has(&rt, MsgKind::AddressOutOfRange));
    assert!(rt.get_abort_flag());
    assert_eq!(rt.kernel.stack_len(), 0);
}

#[test]
fn return_stack_empty() {
    let mut rt = booted();
    rt.evaluate("r>", 1000);
    assert!(has(&rt, MsgKind::ReturnStackError));
}

#[test]
fn runaway_recursion_fills_the_return_stack() {
    let mut rt = booted();
    let h = rt.kernel.get(rt.here_ptr);
    rt.make_word("f", &[DEFINITION, h + 1, EXIT]);
    let status = rt.evaluate("f", 100000);
    assert_eq!(status, Status::Done);
    assert!(has(&rt, MsgKind::ReturnStackError));
    assert_eq!(rt.kernel.ret_stack_len(), 0);
}

#[test]
fn data_stack_overflow() {
    let mut rt = booted();
    for i in 0..5000 {
        rt.push(i);
    }
    assert!(has(&rt, MsgKind::StackOverflow));
    assert!(rt.get_abort_flag());
}

#[test]
fn dictionary_full() {
    let mut rt = booted();
    let sp = rt.kernel.stack_ptr as i64;
    rt.kernel.set(rt.here_ptr, sp - 10);
    let cfa = rt.make_word("big", &[0; 20]);
    assert_eq!(cfa, 0);
    assert!(has(&rt, MsgKind::OutOfSpace));
}

#[test]
fn control_stack_errors() {
    let mut rt = booted();
    rt.evaluate("c>", 1000);
    assert!(has(&rt, MsgKind::ControlStackUnderflow));
    rt.evaluate("5 7 >c", 1000);
    assert!(has(&rt, MsgKind::UnknownControlTag));
    rt.evaluate("100 200000 >c c>", 1000);
    assert_eq!(rt.kernel.pop(), 100);
}

#[test]
fn executing_a_plain_cell() {
    let mut rt = booted();
    rt.evaluate("1 execute", 1000);
    assert!(has(&rt, MsgKind::NotExecutable));
}

#[test]
fn bad_builtin_index_ends_the_session() {
    let mut rt = booted();
    rt.make_word("bad", &[DEFINITION, (BUILTIN_FLAG | 99999) as i64, 0]);
    rt.evaluate("bad", 1000);
    assert!(has(&rt, MsgKind::CorruptCode));
    assert!(rt.should_exit());
}

#[test]
fn tick_of_unknown_word() {
    let mut rt = booted();
    rt.evaluate("(') nosuch", 1000);
    assert!(has(&rt, MsgKind::WordNotFound));
    assert_eq!(rt.kernel.pop(), 0);
}

#[test]
fn explicit_abort_is_reported() {
    let mut rt = booted();
    rt.evaluate("1 2 abort 3", 1000);
    assert!(has(&rt, MsgKind::Aborted));
    assert_eq!(rt.kernel.stack_len(), 0);
}
