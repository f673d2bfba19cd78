//! The cell arena, the string arena and the builtin table.
//!
//! The cell arena holds the dictionary (growing up from address 0), the data
//! stack (growing down from `STACK_START`) and the return stack (growing down
//! from `RET_START`). Strings are kept as counted strings in a byte arena.
use crate::builtin::BuiltInFn;
use vstd::prelude::*;
use vstd::string::StringSliceAdditionalSpecFns;

verus! {

pub const DATA_SIZE: usize = 10000;
pub const STRING_SIZE: usize = 10000;
pub const BUF_SIZE: usize = 132;
pub const ALLOC_START: usize = DATA_SIZE / 2;
/// The data stack grows down from here: its cells are `STACK_START - depth .. STACK_START`.
pub const STACK_START: usize = ALLOC_START - 1;
/// The return stack grows down from here.
pub const RET_START: usize = DATA_SIZE - 1;
pub const WORD_START: usize = 0;
pub const ADDRESS_MASK: u64 = 0x00FFFFFFFFFFFFFF;

/// The counted string at `addr` of a byte arena: its payload bytes.
pub open spec fn counted(strings: Seq<u8>, addr: int) -> Seq<u8> {
    strings.subrange(addr + 1, addr + 1 + strings[addr] as int)
}

/// The counted string at `addr` fits inside the byte arena.
pub open spec fn counted_fits(strings: Seq<u8>, addr: int) -> bool {
    0 <= addr < strings.len() && addr + 1 + strings[addr] as int <= strings.len()
}

/// A byte arena after a counted string with payload `s` was written at `addr`.
pub open spec fn with_counted(strings: Seq<u8>, addr: int, s: Seq<u8>) -> Seq<u8> {
    Seq::new(
        strings.len(),
        |i: int|
            if i == addr {
                s.len() as u8
            } else if addr < i <= addr + s.len() {
                s[i - addr - 1]
            } else {
                strings[i]
            },
    )
}

/// The characters of a byte string, one for each byte.
pub open spec fn bytes_as_chars(b: Seq<u8>) -> Seq<char> {
    b.map_values(|c: u8| c as char)
}

pub struct Kernel {
    pub heap: Vec<i64>,
    pub strings: Vec<u8>,
    pub builtins: Vec<BuiltInFn>,
    /// The lowest cell of the data stack; `STACK_START` when it is empty.
    pub stack_ptr: usize,
    /// The lowest cell of the return stack; `RET_START` when it is empty.
    pub return_ptr: usize,
    /// Address of the cell that holds the first free byte of the string arena.
    pub string_ptr: usize,
}

impl Kernel {
    /// The arenas have their fixed sizes and the stack pointers lie in their regions.
    pub open spec fn wf(&self) -> bool {
        &&& self.heap@.len() == DATA_SIZE
        &&& self.strings@.len() == STRING_SIZE
        &&& self.stack_ptr <= STACK_START
        &&& ALLOC_START <= self.return_ptr <= RET_START
        &&& self.string_ptr < DATA_SIZE
    }

    pub open spec fn depth(&self) -> int {
        STACK_START - self.stack_ptr
    }

    /// The data stack, bottom first: its last element is the top of the stack.
    pub open spec fn data_stack(&self) -> Seq<i64> {
        Seq::new((STACK_START - self.stack_ptr) as nat, |i: int| self.heap@[STACK_START - 1 - i])
    }

    /// The return stack, bottom first.
    pub open spec fn ret_stack(&self) -> Seq<i64> {
        Seq::new((RET_START - self.return_ptr) as nat, |i: int| self.heap@[RET_START - 1 - i])
    }

    pub fn new() -> (k: Kernel)
        ensures
            k.wf(),
            k.data_stack().len() == 0,
            k.ret_stack().len() == 0,
            forall|a: int| 0 <= a < DATA_SIZE ==> #[trigger] k.heap@[a] == 0,
            forall|a: int| 0 <= a < STRING_SIZE ==> #[trigger] k.strings@[a] == 32u8,
            k.builtins@.len() == 0,
            k.string_ptr == 0,
    {
        let mut heap: Vec<i64> = Vec::new();
        while heap.len() < DATA_SIZE
            invariant
                heap@.len() <= DATA_SIZE,
                forall|a: int| 0 <= a < heap@.len() ==> #[trigger] heap@[a] == 0,
            decreases DATA_SIZE - heap@.len(),
        {
            heap.push(0);
        }
        let mut strings: Vec<u8> = Vec::new();
        while strings.len() < STRING_SIZE
            invariant
                strings@.len() <= STRING_SIZE,
                forall|a: int| 0 <= a < strings@.len() ==> #[trigger] strings@[a] == 32u8,
            decreases STRING_SIZE - strings@.len(),
        {
            strings.push(32u8);
        }
        Kernel {
            heap,
            strings,
            builtins: Vec::new(),
            stack_ptr: STACK_START,
            return_ptr: RET_START,
            string_ptr: 0,
        }
    }

    /// Empties both stacks; the arenas keep their contents.
    pub fn reset(&mut self)
        requires
            old(self).wf(),
        ensures
            final(self).wf(),
            final(self).data_stack().len() == 0,
            final(self).ret_stack().len() == 0,
            final(self).heap@ == old(self).heap@,
            final(self).strings@ == old(self).strings@,
            final(self).builtins@ == old(self).builtins@,
            final(self).string_ptr == old(self).string_ptr,
    {
        self.stack_ptr = STACK_START;
        self.return_ptr = RET_START;
    }

    /// The value of the cell at `addr`.
    pub fn get(&self, addr: usize) -> (r: i64)
        requires
            self.wf(),
            addr < DATA_SIZE,
        ensures
            r == self.heap@[addr as int],
    {
        self.heap[addr]
    }

    /// Stores `val` in the cell at `addr`.
    pub fn set(&mut self, addr: usize, val: i64)
        requires
            old(self).wf(),
            addr < DATA_SIZE,
        ensures
            final(self).wf(),
            final(self).heap@ == old(self).heap@.update(addr as int, val),
            final(self).strings@ == old(self).strings@,
            final(self).builtins@ == old(self).builtins@,
            final(self).stack_ptr == old(self).stack_ptr,
            final(self).return_ptr == old(self).return_ptr,
            final(self).string_ptr == old(self).string_ptr,
    {
        self.heap.set(addr, val);
    }

    /// Adds one to the cell at `addr`, wrapping around.
    pub fn incr(&mut self, addr: usize)
        requires
            old(self).wf(),
            addr < DATA_SIZE,
        ensures
            final(self).wf(),
            final(self).heap@ == old(self).heap@.update(addr as int, old(self).heap@[addr as int].wrapping_add(1)),
            final(self).strings@ == old(self).strings@,
            final(self).builtins@ == old(self).builtins@,
            final(self).stack_ptr == old(self).stack_ptr,
            final(self).return_ptr == old(self).return_ptr,
            final(self).string_ptr == old(self).string_ptr,
    {
        let v = self.heap[addr].wrapping_add(1);
        self.heap.set(addr, v);
    }

    /// Subtracts one from the cell at `addr`, wrapping around.
    pub fn decr(&mut self, addr: usize)
        requires
            old(self).wf(),
            addr < DATA_SIZE,
        ensures
            final(self).wf(),
            final(self).heap@ == old(self).heap@.update(addr as int, old(self).heap@[addr as int].wrapping_sub(1)),
            final(self).strings@ == old(self).strings@,
            final(self).builtins@ == old(self).builtins@,
            final(self).stack_ptr == old(self).stack_ptr,
            final(self).return_ptr == old(self).return_ptr,
            final(self).string_ptr == old(self).string_ptr,
    {
        let v = self.heap[addr].wrapping_sub(1);
        self.heap.set(addr, v);
    }

    /// Adds `delta` to the cell at `addr`, wrapping around.
    pub fn delta(&mut self, addr: usize, delta: i64)
        requires
            old(self).wf(),
            addr < DATA_SIZE,
        ensures
            final(self).wf(),
            final(self).heap@ == old(self).heap@.update(addr as int, old(self).heap@[addr as int].wrapping_add(delta)),
            final(self).strings@ == old(self).strings@,
            final(self).builtins@ == old(self).builtins@,
            final(self).stack_ptr == old(self).stack_ptr,
            final(self).return_ptr == old(self).return_ptr,
            final(self).string_ptr == old(self).string_ptr,
    {
        let v = self.heap[addr].wrapping_add(delta);
        self.heap.set(addr, v);
    }

    /// Pushes `val` on the data stack.
    pub fn push(&mut self, val: i64)
        requires
            old(self).wf(),
            old(self).stack_ptr > 0,
        ensures
            final(self).wf(),
            final(self).data_stack() == old(self).data_stack().push(val),
            final(self).stack_ptr == old(self).stack_ptr - 1,
            final(self).heap@ == old(self).heap@.update(old(self).stack_ptr - 1, val),
            final(self).ret_stack() == old(self).ret_stack(),
            final(self).strings@ == old(self).strings@,
            final(self).builtins@ == old(self).builtins@,
            final(self).return_ptr == old(self).return_ptr,
            final(self).string_ptr == old(self).string_ptr,
    {
        self.stack_ptr = self.stack_ptr - 1;
        self.heap.set(self.stack_ptr, val);
        assert(self.data_stack() =~= old(self).data_stack().push(val));
        assert(self.ret_stack() =~= old(self).ret_stack());
    }

    /// Pops the top of the data stack.
    pub fn pop(&mut self) -> (r: i64)
        requires
            old(self).wf(),
            old(self).depth() > 0,
        ensures
            final(self).wf(),
            r == old(self).data_stack().last(),
            final(self).data_stack() == old(self).data_stack().drop_last(),
            final(self).stack_ptr == old(self).stack_ptr + 1,
            final(self).heap@ == old(self).heap@,
            final(self).ret_stack() == old(self).ret_stack(),
            final(self).strings@ == old(self).strings@,
            final(self).builtins@ == old(self).builtins@,
            final(self).return_ptr == old(self).return_ptr,
            final(self).string_ptr == old(self).string_ptr,
    {
        let r = self.heap[self.stack_ptr];
        self.stack_ptr = self.stack_ptr + 1;
        assert(self.data_stack() =~= old(self).data_stack().drop_last());
        r
    }

    /// The top of the data stack.
    pub fn top(&self) -> (r: i64)
        requires
            self.wf(),
            self.depth() > 0,
        ensures
            r == self.data_stack().last(),
    {
        self.heap[self.stack_ptr]
    }

    /// The item `n` places below the top of the data stack.
    pub fn peek(&self, n: usize) -> (r: i64)
        requires
            self.wf(),
            n < self.depth(),
        ensures
            r == self.data_stack()[self.depth() - 1 - n],
    {
        self.heap[self.stack_ptr + n]
    }

    /// The number of items on the data stack.
    pub fn stack_len(&self) -> (r: usize)
        requires
            self.wf(),
        ensures
            r == self.depth(),
            r == self.data_stack().len(),
    {
        STACK_START - self.stack_ptr
    }

    /// The number of items on the return stack.
    pub fn ret_stack_len(&self) -> (r: usize)
        requires
            self.wf(),
        ensures
            r == self.ret_stack().len(),
    {
        RET_START - self.return_ptr
    }

    /// Whether the data stack holds at least `needed` items.
    pub fn stack_check(&self, needed: usize, word: &str) -> (r: bool)
        requires
            self.wf(),
        ensures
            r == (self.depth() >= needed),
    {
        let available = STACK_START - self.stack_ptr;
        available >= needed
    }

    /// Pops `j` then `k` and pushes `f(k, j)`.
    pub fn pop2_push1<F>(&mut self, word: &str, f: F)
        where
            F: Fn(i64, i64) -> i64,
        requires
            old(self).wf(),
            old(self).depth() >= 2,
            forall|a: i64, b: i64| f.requires((a, b)),
        ensures
            final(self).wf(),
            final(self).depth() == old(self).depth() - 1,
            final(self).data_stack().drop_last() == old(self).data_stack().drop_last().drop_last(),
            f.ensures(
                (old(self).data_stack()[old(self).depth() - 2], old(self).data_stack().last()),
                final(self).data_stack().last(),
            ),
            forall|a: int|
                0 <= a < DATA_SIZE && (a < old(self).stack_ptr || a >= STACK_START) ==> #[trigger] final(self).heap@[a]
                    == old(self).heap@[a],
            final(self).ret_stack() == old(self).ret_stack(),
            final(self).strings@ == old(self).strings@,
            final(self).builtins@ == old(self).builtins@,
            final(self).return_ptr == old(self).return_ptr,
            final(self).string_ptr == old(self).string_ptr,
    {
        let j = self.pop();
        let k = self.pop();
        let r = f(k, j);
        self.push(r);
    }

    /// Pops `x` and pushes `f(x)`.
    pub fn pop1_push1<F>(&mut self, word: &str, f: F)
        where
            F: Fn(i64) -> i64,
        requires
            old(self).wf(),
            old(self).depth() >= 1,
            forall|a: i64| f.requires((a,)),
        ensures
            final(self).wf(),
            final(self).depth() == old(self).depth(),
            final(self).data_stack().drop_last() == old(self).data_stack().drop_last(),
            f.ensures((old(self).data_stack().last(),), final(self).data_stack().last()),
            final(self).ret_stack() == old(self).ret_stack(),
            final(self).strings@ == old(self).strings@,
            final(self).builtins@ == old(self).builtins@,
            final(self).return_ptr == old(self).return_ptr,
            final(self).string_ptr == old(self).string_ptr,
    {
        let x = self.pop();
        let r = f(x);
        self.push(r);
    }

    /// The index of the last builtin.
    pub fn max_builtin(&self) -> (r: usize)
        requires
            self.builtins@.len() > 0,
        ensures
            r == self.builtins@.len() - 1,
    {
        self.builtins.len() - 1
    }
    /// There is room in the string arena for a new counted string of `len` bytes.
    pub open spec fn string_room(&self, len: int) -> bool {
        let free = self.heap@[self.string_ptr as int];
        &&& len < 256
        &&& 0 <= free
        &&& free + 1 + len <= STRING_SIZE
    }

    /// Writes `string` as a new counted string at the first free byte of the
    /// string arena, advances the free pointer past it, and returns its address.
    pub fn string_new(&mut self, string: &str) -> (r: usize)
        requires
            old(self).wf(),
            old(self).string_room(string.spec_bytes().len() as int),
        ensures
            final(self).wf(),
            r as int == old(self).heap@[old(self).string_ptr as int],
            final(self).strings@ == with_counted(old(self).strings@, r as int, string.spec_bytes()),
            final(self).heap@ == old(self).heap@.update(
                old(self).string_ptr as int,
                (r + 1 + string.spec_bytes().len()) as i64,
            ),
            counted(final(self).strings@, r as int) == string.spec_bytes(),
            final(self).builtins@ == old(self).builtins@,
            final(self).stack_ptr == old(self).stack_ptr,
            final(self).return_ptr == old(self).return_ptr,
            final(self).string_ptr == old(self).string_ptr,
    {
        let ptr = self.heap[self.string_ptr] as usize;
        self.string_save(string, ptr);
        let next = (ptr + 1 + string.len()) as i64;
        self.heap.set(self.string_ptr, next);
        ptr
    }

    /// Writes `from` as a counted string at `to`.
    pub fn string_save(&mut self, from: &str, to: usize)
        requires
            old(self).wf(),
            from.spec_bytes().len() < 256,
            to + 1 + from.spec_bytes().len() <= STRING_SIZE,
        ensures
            final(self).wf(),
            final(self).strings@ == with_counted(old(self).strings@, to as int, from.spec_bytes()),
            counted(final(self).strings@, to as int) == from.spec_bytes(),
            final(self).heap@ == old(self).heap@,
            final(self).builtins@ == old(self).builtins@,
            final(self).stack_ptr == old(self).stack_ptr,
            final(self).return_ptr == old(self).return_ptr,
            final(self).string_ptr == old(self).string_ptr,
    {
        let bytes = from.as_bytes();
        self.write_counted(bytes, to);
    }

    /// Writes the bytes of `bytes` as a counted string at `to`.
    pub fn write_counted(&mut self, bytes: &[u8], to: usize)
        requires
            old(self).wf(),
            bytes@.len() < 256,
            to + 1 + bytes@.len() <= STRING_SIZE,
        ensures
            final(self).wf(),
            final(self).strings@ == with_counted(old(self).strings@, to as int, bytes@),
            counted(final(self).strings@, to as int) == bytes@,
            final(self).heap@ == old(self).heap@,
            final(self).builtins@ == old(self).builtins@,
            final(self).stack_ptr == old(self).stack_ptr,
            final(self).return_ptr == old(self).return_ptr,
            final(self).string_ptr == old(self).string_ptr,
    {
        let n = bytes.len();
        self.strings.set(to, n as u8);
        let mut i: usize = 0;
        while i < n
            invariant
                self.wf(),
                n == bytes@.len(),
                n < 256,
                to + 1 + n <= STRING_SIZE,
                i <= n,
                self.heap@ == old(self).heap@,
                self.builtins@ == old(self).builtins@,
                self.stack_ptr == old(self).stack_ptr,
                self.return_ptr == old(self).return_ptr,
                self.string_ptr == old(self).string_ptr,
                forall|k: int|
                    0 <= k < STRING_SIZE ==> #[trigger] self.strings@[k] == (if k == to {
                        n as u8
                    } else if to < k <= to + i {
                        bytes@[k - to - 1]
                    } else {
                        old(self).strings@[k]
                    }),
            decreases n - i,
        {
            self.strings.set(to + 1 + i, bytes[i]);
            i = i + 1;
        }
        assert(self.strings@ =~= with_counted(old(self).strings@, to as int, bytes@));
        assert(counted(self.strings@, to as int) =~= bytes@);
    }

    /// Writes `string` as a counted string at `addr`.
    pub fn string_set(&mut self, addr: usize, string: &str)
        requires
            old(self).wf(),
            string.spec_bytes().len() < 256,
            addr + 1 + string.spec_bytes().len() <= STRING_SIZE,
        ensures
            final(self).wf(),
            final(self).strings@ == with_counted(old(self).strings@, addr as int, string.spec_bytes()),
            counted(final(self).strings@, addr as int) == string.spec_bytes(),
            final(self).heap@ == old(self).heap@,
            final(self).builtins@ == old(self).builtins@,
            final(self).stack_ptr == old(self).stack_ptr,
            final(self).return_ptr == old(self).return_ptr,
            final(self).string_ptr == old(self).string_ptr,
    {
        self.string_save(string, addr);
    }

    /// The payload bytes of the counted string at `addr`.
    pub fn counted_bytes(&self, addr: usize) -> (r: Vec<u8>)
        requires
            self.wf(),
            counted_fits(self.strings@, addr as int),
        ensures
            r@ == counted(self.strings@, addr as int),
    {
        let n = self.strings[addr] as usize;
        let mut r: Vec<u8> = Vec::new();
        let mut i: usize = 0;
        while i < n
            invariant
                self.wf(),
                n == self.strings@[addr as int],
                counted_fits(self.strings@, addr as int),
                i <= n,
                r@ == self.strings@.subrange(addr + 1, addr + 1 + i),
            decreases n - i,
        {
            r.push(self.strings[addr + 1 + i]);
            i = i + 1;
            assert(r@ =~= self.strings@.subrange(addr + 1, addr + 1 + i));
        }
        r
    }

    /// The counted string at `addr`, one character for each byte.
    pub fn string_get(&self, addr: usize) -> (r: String)
        requires
            self.wf(),
            counted_fits(self.strings@, addr as int),
        ensures
            r@ == bytes_as_chars(counted(self.strings@, addr as int)),
    {
        let n = self.strings[addr] as usize;
        let mut r = String::new();
        let mut i: usize = 0;
        while i < n
            invariant
                self.wf(),
                n == self.strings@[addr as int],
                counted_fits(self.strings@, addr as int),
                i <= n,
                r@ == bytes_as_chars(self.strings@.subrange(addr + 1, addr + 1 + i)),
            decreases n - i,
        {
            let c = self.strings[addr + 1 + i] as char;
            push_char(&mut r, c);
            i = i + 1;
            assert(r@ =~= bytes_as_chars(self.strings@.subrange(addr + 1, addr + 1 + i)));
        }
        r
    }

    /// Writes a counted string of `length` bytes at `to`, taken from `from`
    /// (from `from + 1` when the source is itself a counted string).
    pub fn string_copy(&mut self, from: usize, to: usize, length: usize, counted: bool)
        requires
            old(self).wf(),
            length < 256,
            to + 1 + length <= STRING_SIZE,
            from + (if counted { 1int } else { 0int }) + length <= STRING_SIZE,
        ensures
            final(self).wf(),
            final(self).strings@ == with_counted(
                old(self).strings@,
                to as int,
                old(self).strings@.subrange(
                    from + (if counted { 1int } else { 0int }),
                    from + (if counted { 1int } else { 0int }) + length,
                ),
            ),
            final(self).heap@ == old(self).heap@,
            final(self).builtins@ == old(self).builtins@,
            final(self).stack_ptr == old(self).stack_ptr,
            final(self).return_ptr == old(self).return_ptr,
            final(self).string_ptr == old(self).string_ptr,
    {
        let offset: usize = if counted { 1 } else { 0 };
        let src = self.string_slice(from + offset, length);
        self.write_counted(src.as_slice(), to);
    }

    /// Compares the counted strings at `s_addr1` and `s_addr2`.
    pub fn string_equal(&self, s_addr1: usize, s_addr2: usize) -> (r: bool)
        requires
            self.wf(),
            counted_fits(self.strings@, s_addr1 as int),
            counted_fits(self.strings@, s_addr2 as int),
        ensures
            r == (counted(self.strings@, s_addr1 as int) == counted(self.strings@, s_addr2 as int)),
    {
        let n = self.strings[s_addr1] as usize;
        if n != self.strings[s_addr2] as usize {
            proof {
                assert(counted(self.strings@, s_addr1 as int).len() != counted(self.strings@, s_addr2 as int).len());
            }
            return false;
        }
        let mut i: usize = 0;
        while i < n
            invariant
                self.wf(),
                n == self.strings@[s_addr1 as int],
                n == self.strings@[s_addr2 as int],
                counted_fits(self.strings@, s_addr1 as int),
                counted_fits(self.strings@, s_addr2 as int),
                i <= n,
                forall|k: int| 0 <= k < i ==> #[trigger] counted(self.strings@, s_addr1 as int)[k] == counted(self.strings@, s_addr2 as int)[k],
            decreases n - i,
        {
            if self.strings[s_addr1 + 1 + i] != self.strings[s_addr2 + 1 + i] {
                proof {
                    assert(counted(self.strings@, s_addr1 as int)[i as int] != counted(self.strings@, s_addr2 as int)[i as int]);
                }
                return false;
            }
            i = i + 1;
        }
        assert(counted(self.strings@, s_addr1 as int) =~= counted(self.strings@, s_addr2 as int));
        true
    }

    /// The length of the counted string at `addr`: its count byte.
    pub fn string_length(&self, addr: usize) -> (r: usize)
        requires
            self.wf(),
            addr < STRING_SIZE,
        ensures
            r == self.strings@[addr as int],
    {
        self.strings[addr] as usize
    }

    /// A copy of the `len` bytes of the string arena from `addr` on.
    pub fn string_slice(&self, addr: usize, len: usize) -> (r: Vec<u8>)
        requires
            self.wf(),
            addr + len <= STRING_SIZE,
        ensures
            r@ == self.strings@.subrange(addr as int, addr + len),
    {
        let mut r: Vec<u8> = Vec::new();
        let mut i: usize = 0;
        while i < len
            invariant
                self.wf(),
                addr + len <= STRING_SIZE,
                i <= len,
                r@ == self.strings@.subrange(addr as int, addr + i),
            decreases len - i,
        {
            r.push(self.strings[addr + i]);
            i = i + 1;
            assert(r@ =~= self.strings@.subrange(addr as int, addr + i));
        }
        r
    }

    /// The byte at `addr` of the string arena.
    pub fn byte_get(&self, addr: usize) -> (r: u8)
        requires
            self.wf(),
            addr < STRING_SIZE,
        ensures
            r == self.strings@[addr as int],
    {
        self.strings[addr]
    }

    /// Stores `value` at `addr` of the string arena.
    pub fn byte_set(&mut self, addr: usize, value: u8)
        requires
            old(self).wf(),
            addr < STRING_SIZE,
        ensures
            final(self).wf(),
            final(self).strings@ == old(self).strings@.update(addr as int, value),
            final(self).heap@ == old(self).heap@,
            final(self).builtins@ == old(self).builtins@,
            final(self).stack_ptr == old(self).stack_ptr,
            final(self).return_ptr == old(self).return_ptr,
            final(self).string_ptr == old(self).string_ptr,
    {
        self.strings.set(addr, value);
    }

    /// Appends an entry to the builtin table and returns its index.
    pub fn add_builtin(&mut self, builtin: BuiltInFn) -> (r: usize)
        requires
            old(self).wf(),
            old(self).builtins@.len() < ADDRESS_MASK,
        ensures
            final(self).wf(),
            r == old(self).builtins@.len(),
            final(self).builtins@ == old(self).builtins@.push(builtin),
            final(self).heap@ == old(self).heap@,
            final(self).strings@ == old(self).strings@,
            final(self).stack_ptr == old(self).stack_ptr,
            final(self).return_ptr == old(self).return_ptr,
            final(self).string_ptr == old(self).string_ptr,
    {
        self.builtins.push(builtin);
        self.builtins.len() - 1
    }

    /// The builtin table entry at `index`.
    pub fn get_builtin(&self, index: usize) -> (r: &BuiltInFn)
        requires
            index < self.builtins@.len(),
        ensures
            *r == self.builtins@[index as int],
    {
        &self.builtins[index]
    }

    pub fn get_return_ptr(&self) -> (r: usize)
        ensures
            r == self.return_ptr,
    {
        self.return_ptr
    }

    pub fn set_return_ptr(&mut self, val: usize)
        requires
            old(self).wf(),
            ALLOC_START <= val <= RET_START,
        ensures
            final(self).wf(),
            final(self).return_ptr == val,
            final(self).heap@ == old(self).heap@,
            final(self).strings@ == old(self).strings@,
            final(self).builtins@ == old(self).builtins@,
            final(self).stack_ptr == old(self).stack_ptr,
            final(self).string_ptr == old(self).string_ptr,
    {
        self.return_ptr = val;
    }

    pub fn get_string_ptr(&self) -> (r: usize)
        ensures
            r == self.string_ptr,
    {
        self.string_ptr
    }

    pub fn set_string_ptr(&mut self, val: usize)
        requires
            old(self).wf(),
            val < DATA_SIZE,
        ensures
            final(self).wf(),
            final(self).string_ptr == val,
            final(self).heap@ == old(self).heap@,
            final(self).strings@ == old(self).strings@,
            final(self).builtins@ == old(self).builtins@,
            final(self).stack_ptr == old(self).stack_ptr,
            final(self).return_ptr == old(self).return_ptr,
    {
        self.string_ptr = val;
    }

    pub fn get_stack_ptr(&self) -> (r: usize)
        ensures
            r == self.stack_ptr,
    {
        self.stack_ptr
    }
}

/// Relies on `String::push`: appends one character to the string.
#[verifier::external_body]
pub(crate) fn push_char(s: &mut String, c: char)
    ensures
        final(s)@ == old(s)@.push(c),
{
    s.push(c)
}

} // verus!
