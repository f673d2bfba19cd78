use f3::kernel::{Kernel, STRING_SIZE};

fn kernel_with_string_ptr(start: usize) -> Kernel {
    let mut k = Kernel::new();
    let sp = k.string_ptr;
    k.heap[sp] = start as i64;
    k
}

#[test]
fn test_string_new_and_get() {
    let mut k = kernel_with_string_ptr(100);
    let addr = k.string_new("hello");
    assert_eq!(addr, 100);
    assert_eq!(k.string_get(addr), "hello");
}

#[test]
fn test_string_save_and_get() {
    let mut k = Kernel::new();
    let addr = 200;
    k.string_save("world", addr);
    assert_eq!(k.string_get(addr), "world");
}

#[test]
fn test_string_set_and_get() {
    let mut k = Kernel::new();
    let addr = 300;
    k.string_set(addr, "rust");
    assert_eq!(k.string_get(addr), "rust");
}

#[test]
fn test_string_copy_counted() {
    let mut k = Kernel::new();
    k.string_save("forth", 50);
    k.string_copy(50, 60, 5, true);
    assert_eq!(k.string_get(60), "forth");
}

#[test]
fn test_string_copy_uncounted() {
    let mut k = Kernel::new();
    k.string_set(100, "abcde");
    k.string_copy(101, 200, 5, false);
    assert_eq!(k.string_get(200), "abcde");
}

#[test]
fn test_string_equal_matches() {
    let mut k = Kernel::new();
    k.string_save("match", 10);
    k.string_save("match", 30);
    assert!(k.string_equal(10, 30));
}

#[test]
fn test_string_equal_mismatch() {
    let mut k = Kernel::new();
    k.string_save("abc", 10);
    k.string_save("xyz", 20);
    assert!(!k.string_equal(10, 20));
}

#[test]
fn test_string_length() {
    let mut k = Kernel::new();
    k.string_save("short", 400);
    assert_eq!(k.string_length(400), 5);
}

#[test]
fn test_byte_get_and_set() {
    let mut k = Kernel::new();
    k.byte_set(500, b'X');
    assert_eq!(k.byte_get(500), b'X');
}

#[test]
fn test_string_slice() {
    let mut k = Kernel::new();
    k.string_save("abcdef", 600);
    let slice = k.string_slice(601, 3);
    assert_eq!(slice, b"abc");
}

#[test]
fn string_new_advances_free_pointer() {
    let mut k = kernel_with_string_ptr(100);
    let a = k.string_new("ab");
    let b = k.string_new("cde");
    assert_eq!(a, 100);
    assert_eq!(b, 103);
    assert_eq!(k.heap[k.string_ptr], 107);
    assert_eq!(k.string_get(b), "cde");
}

#[test]
fn string_equal_differs_in_length() {
    let mut k = Kernel::new();
    k.string_save("abc", 10);
    k.string_save("abcd", 20);
    assert!(!k.string_equal(10, 20));
}

#[test]
fn stack_push_pop_peek() {
    let mut k = Kernel::new();
    assert_eq!(k.stack_len(), 0);
    k.push(1);
    k.push(2);
    k.push(3);
    assert_eq!(k.stack_len(), 3);
    assert_eq!(k.top(), 3);
    assert_eq!(k.peek(2), 1);
    assert!(k.stack_check(3, "x"));
    assert!(!k.stack_check(4, "x"));
    assert_eq!(k.pop(), 3);
    k.reset();
    assert_eq!(k.stack_len(), 0);
}

#[test]
fn pop2_push1_applies_to_second_and_top() {
    let mut k = Kernel::new();
    k.push(10);
    k.push(3);
    k.pop2_push1("-", |a, b| a - b);
    assert_eq!(k.pop(), 7);
    k.push(5);
    k.pop1_push1("neg", |a| -a);
    assert_eq!(k.pop(), -5);
}

#[test]
fn fresh_string_arena_is_spaces() {
    let k = Kernel::new();
    assert_eq!(k.byte_get(STRING_SIZE - 1), b' ');
}
