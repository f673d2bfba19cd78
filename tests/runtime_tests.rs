use f3::builtin::{BuiltInFn, Prim};
use f3::kernel::{ADDRESS_MASK, WORD_START};
use f3::runtime::{ForthRuntime, BUILTIN_FLAG, FALSE, PAD_START};

#[test]
fn test_builtin_fn_creation() {
    let mut rt = ForthRuntime::new();
    rt.cold_start();
    let name = "test".to_string();
    let doc = "This is a test function".to_string();
    let builtin_fn = BuiltInFn::new(name, Prim::Plus, doc);
    assert_eq!(builtin_fn.name, "test");
    assert_eq!(builtin_fn.doc, "This is a test function");
    assert_eq!(builtin_fn.code, Prim::Plus);
    let index = rt.kernel.add_builtin(builtin_fn);
    rt.kernel.push(40);
    rt.kernel.push(4);
    rt.builtin(index);
    assert_eq!(rt.kernel.pop(), 44);
}

#[test]
fn test_run_forth_word_dup_and_mul() {
    let mut rt = ForthRuntime::new();
    rt.cold_start();
    rt.kernel.push(7);
    rt.run_forth_word("dup");
    rt.run_forth_word("*");
    let result = rt.kernel.pop();
    assert_eq!(result, 49);
}

fn setup_stack(rt: &mut ForthRuntime, vals: &[i64]) {
    for &v in vals.iter() {
        rt.kernel.push(v);
    }
}

fn stack_of(rt: &ForthRuntime) -> Vec<i64> {
    let mut result = vec![];
    for i in (0..rt.kernel.stack_len()).rev() {
        result.push(rt.kernel.peek(i));
    }
    result
}

#[test]
fn test_roll_basic() {
    let mut rt = ForthRuntime::new();
    rt.cold_start();
    setup_stack(&mut rt, &[1, 2, 3, 4, 5]);
    rt.kernel.push(2);
    rt.f_roll();
    assert_eq!(stack_of(&rt), vec![1, 2, 4, 5, 3]);
}

#[test]
fn test_roll_zero() {
    let mut rt = ForthRuntime::new();
    setup_stack(&mut rt, &[1, 2, 3]);
    rt.kernel.push(0);
    rt.f_roll();
    assert_eq!(stack_of(&rt), vec![1, 2, 3]);
}

#[test]
fn test_roll_top() {
    let mut rt = ForthRuntime::new();
    setup_stack(&mut rt, &[7, 8, 9]);
    rt.kernel.push(2);
    rt.f_roll();
    assert_eq!(stack_of(&rt), vec![8, 9, 7]);
}

#[test]
fn test_stack_push_and_pop() {
    let mut rt = ForthRuntime::new();
    rt.cold_start();
    rt.kernel.push(42);
    assert_eq!(rt.kernel.pop(), 42);
}

#[test]
fn test_new_runtime() {
    let mut runtime = ForthRuntime::new();
    runtime.cold_start();
    assert_eq!(runtime.kernel.get(0), 0);
    assert_eq!(runtime.kernel.get(1), 0);
    assert!(!runtime.exit_flag);
}

#[test]
fn test_cold_start() {
    let mut runtime = ForthRuntime::new();
    runtime.cold_start();
    assert_eq!(runtime.kernel.get(runtime.state_ptr), FALSE);
}

#[test]
fn test_make_word() {
    let mut runtime = ForthRuntime::new();
    runtime.cold_start();
    let code_ptr = runtime.make_word("test", &[1, 2, 3]);
    let s1 = runtime.kernel.get(code_ptr - 1) as usize;
    let s2 = runtime.kernel.string_new("test");
    assert!(runtime.kernel.string_equal(s1, s2));
    assert_eq!(runtime.kernel.get(code_ptr), 1);
    assert_eq!(runtime.kernel.get(code_ptr + 1), 2);
    assert_eq!(runtime.kernel.get(code_ptr + 2), 3);
}

#[test]
fn test_add_builtin() {
    let mut runtime = ForthRuntime::new();
    runtime.cold_start();
    let addr = runtime.add_builtin("test", Prim::Plus, "Test function");
    let cfa = runtime.kernel.get(addr) as u64;
    assert!(cfa > BUILTIN_FLAG);
}

#[test]
fn test_add_and_call_builtin() {
    let mut rt = ForthRuntime::new();
    rt.cold_start();
    let addr = rt.add_builtin("add", Prim::Plus, "Add two numbers");
    rt.kernel.push(10);
    rt.kernel.push(32);
    let cfa = (rt.kernel.get(addr) as u64 & ADDRESS_MASK) as usize;
    rt.builtin(cfa);
    assert_eq!(rt.kernel.pop(), 42);
}

#[test]
fn test_insert_variables() {
    let mut runtime = ForthRuntime::new();
    runtime.cold_start();
    runtime.insert_variables();
    assert!(runtime.kernel.get(0) == 0);
    assert!(runtime.kernel.get(1) == 0);
    assert!(runtime.kernel.get(runtime.here_ptr) > WORD_START as i64);
    assert!(runtime.kernel.get(runtime.pad_ptr) == PAD_START as i64);
    assert!(runtime.kernel.get(runtime.base_ptr) == 10);
}

#[test]
fn test_compile_builtins() {
    let mut runtime = ForthRuntime::new();
    runtime.cold_start();
    runtime.compile_builtins();
    assert_eq!(runtime.kernel.get_builtin(6).name, "true".to_string());
    assert_eq!(runtime.kernel.get_builtin(5).name, "<".to_string());
    assert_eq!(runtime.kernel.get_builtin(0).name, "+".to_string());
}

#[test]
fn test_get_compile_mode() {
    let mut runtime = ForthRuntime::new();
    runtime.cold_start();
    runtime.set_compile_mode(true);
    assert!(runtime.get_compile_mode());
    runtime.set_compile_mode(false);
    assert!(!runtime.get_compile_mode());
}

#[test]
fn test_set_compile_mode() {
    let mut runtime = ForthRuntime::new();
    runtime.cold_start();
    runtime.set_compile_mode(true);
    assert_eq!(runtime.kernel.get(runtime.state_ptr), -1);
    runtime.set_compile_mode(false);
    assert_eq!(runtime.kernel.get(runtime.state_ptr), 0);
}

#[test]
fn test_set_abort_flag() {
    let mut runtime = ForthRuntime::new();
    runtime.cold_start();
    runtime.set_abort_flag(true);
    assert!(runtime.get_abort_flag());
    runtime.set_abort_flag(false);
    assert!(!runtime.get_abort_flag());
}

#[test]
fn test_should_exit() {
    let mut runtime = ForthRuntime::new();
    runtime.cold_start();
    assert!(!runtime.should_exit());
}

#[test]
fn test_f_bye() {
    let mut runtime = ForthRuntime::new();
    runtime.cold_start();
    runtime.f_bye();
    assert!(runtime.should_exit());
}

#[test]
fn test_f_clear() {
    let mut runtime = ForthRuntime::new();
    runtime.kernel.push(42);
    runtime.kernel.push(99);
    assert_eq!(runtime.kernel.stack_len(), 2);
    runtime.f_clear();
    assert_eq!(runtime.kernel.stack_len(), 0);
}

#[test]
fn test_f_abort() {
    let mut runtime = ForthRuntime::new();
    runtime.kernel.push(42);
    runtime.kernel.push(99);
    assert_eq!(runtime.kernel.stack_len(), 2);
    runtime.f_abort();
    assert_eq!(runtime.kernel.stack_len(), 0);
}

#[test]
fn test_f_get_compile_mode() {
    let mut runtime = ForthRuntime::new();
    runtime.cold_start();
    runtime.set_compile_mode(true);
    assert!(runtime.get_compile_mode());
    runtime.set_compile_mode(false);
    assert!(!runtime.get_compile_mode());
}

#[test]
fn test_f_set_compile_mode() {
    let mut runtime = ForthRuntime::new();
    runtime.cold_start();
    runtime.set_compile_mode(true);
    assert_eq!(runtime.kernel.get(runtime.state_ptr), -1);
    runtime.set_compile_mode(false);
    assert_eq!(runtime.kernel.get(runtime.state_ptr), 0);
}

#[test]
fn test_f_set_abort_flag() {
    let mut runtime = ForthRuntime::new();
    runtime.cold_start();
    runtime.set_abort_flag(true);
    assert!(runtime.get_abort_flag());
    runtime.set_abort_flag(false);
    assert!(!runtime.get_abort_flag());
}

#[test]
fn test_f_should_exit() {
    let mut runtime = ForthRuntime::new();
    runtime.cold_start();
    assert!(!runtime.should_exit());
}
