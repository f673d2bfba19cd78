//! Builtin words on the data stack: arithmetic, comparison, logic, stack
//! shuffling, and cell and byte access.
use crate::builtin::Prim;
use crate::kernel::{counted, with_counted, DATA_SIZE, STRING_SIZE};
use crate::messages::MsgKind;
use crate::runtime::{ForthRuntime, FALSE, TRUE};
use crate::inner::frame_kept;
use vstd::prelude::*;

verus! {

/// The top item of a stack (its last element).
pub open spec fn top(st: Seq<i64>) -> i64 {
    st.last()
}

/// The item below the top.
pub open spec fn second(st: Seq<i64>) -> i64 {
    st[st.len() - 2]
}

/// The item two below the top.
pub open spec fn third(st: Seq<i64>) -> i64 {
    st[st.len() - 3]
}

/// A stack whose top `k` items were replaced by `v`.
pub open spec fn replace_top(st: Seq<i64>, k: int, v: i64) -> Seq<i64> {
    st.subrange(0, st.len() - k).push(v)
}

/// Forth truth values: -1 for true, 0 for false.
pub open spec fn flag(b: bool) -> i64 {
    if b {
        TRUE
    } else {
        FALSE
    }
}

/// A stack after `roll` with `n`: its item `n` places below the top moves to the top.
pub open spec fn rolled(st: Seq<i64>, n: int) -> Seq<i64> {
    st.remove(st.len() - 1 - n).push(st[st.len() - 1 - n])
}

/// The data-stack effect of a word that takes `k` items and leaves one
/// result `v`: with at least `k` items the top `k` are replaced by `v` and
/// nothing else changes; with fewer, the underflow error path runs.
pub open spec fn takes_gives_one(old: ForthRuntime, new: ForthRuntime, k: int, v: i64) -> bool {
    &&& old.kernel.depth() >= k ==> {
        &&& new.stack() == replace_top(old.stack(), k, v)
        &&& new.kernel.depth() == old.kernel.depth() - k + 1
        &&& new.msg == old.msg
        &&& new.kernel.ret_stack() == old.kernel.ret_stack()
        &&& new.same_registers(&old)
    }
    &&& old.kernel.depth() < k ==> underflowed(old, new)
}

/// The underflow error path: reported, and the machine aborted.
pub open spec fn underflowed(old: ForthRuntime, new: ForthRuntime) -> bool {
    &&& new.is_reset()
    &&& new.msg.log@.len() > 0
    &&& new.msg.log@.last().kind == MsgKind::StackUnderflow
}


/// The words on the data stack whose depth effect is fixed: arithmetic,
/// comparison, logic and stack shuffling.
pub open spec fn is_arith(p: Prim) -> bool {
    match p {
        Prim::Plus | Prim::Minus | Prim::Times | Prim::Divide | Prim::Mod | Prim::Less | Prim::Equal | Prim::And
        | Prim::Or | Prim::ZeroEqual | Prim::ZeroLess | Prim::Dup | Prim::Drop | Prim::Swap | Prim::Over
        | Prim::Rot => true,
        _ => false,
    }
}

/// The number of items such a word needs.
pub open spec fn arity(p: Prim) -> int {
    match p {
        Prim::ZeroEqual | Prim::ZeroLess | Prim::Dup | Prim::Drop => 1,
        Prim::Rot => 3,
        _ => 2,
    }
}

/// The declared net stack effect of such a word.
pub open spec fn net_effect(p: Prim) -> int {
    match p {
        Prim::ZeroEqual | Prim::ZeroLess | Prim::Swap | Prim::Rot => 0,
        Prim::Dup | Prim::Over => 1,
        _ => -1,
    }
}

/// The word can run on `rt` without an error: enough items, room for a
/// growing result, and a divisor that gives a quotient.
pub open spec fn arith_ok(rt: ForthRuntime, p: Prim) -> bool {
    &&& rt.kernel.depth() >= arity(p)
    &&& arith_ok_seq(rt.stack(), rt.has_room(), p)
}

/// The word can run on the stack `st` without an error; `room` says whether
/// one more item fits.
pub open spec fn arith_ok_seq(st: Seq<i64>, room: bool, p: Prim) -> bool {
    &&& st.len() >= arity(p)
    &&& net_effect(p) > 0 ==> room
    &&& p == Prim::Divide ==> second(st).checked_div(top(st)) is Some
    &&& p == Prim::Mod ==> second(st).checked_rem(top(st)) is Some
}

/// Running `p` on the stack `st` (with `room` as above) gave `new`: the depth
/// changed by its net effect, or, with too few items, the underflow path ran.
pub open spec fn arith_result(st: Seq<i64>, room: bool, new: ForthRuntime, p: Prim) -> bool {
    &&& arith_ok_seq(st, room, p) ==> new.stack().len() == st.len() + net_effect(p)
    &&& st.len() < arity(p) ==> new.is_reset() && new.msg.log@.len() > 0 && new.msg.log@.last().kind
        == MsgKind::StackUnderflow
}

/// Running `p` took `old` to `new`: when it could run, the depth changed by
/// its net effect; with too few items, the underflow error path ran.
pub open spec fn arith_step(old: ForthRuntime, new: ForthRuntime, p: Prim) -> bool {
    &&& arith_ok(old, p) ==> new.kernel.depth() == old.kernel.depth() + net_effect(p)
    &&& old.kernel.depth() < arity(p) ==> underflowed(old, new)
}

impl ForthRuntime {
    /// Pops the top two items `a` (second) and `b` (top) and pushes `v`;
    /// the stack must hold at least two items.
    fn replace2(&mut self, v: i64)
        requires
            old(self).wf(),
            old(self).kernel.depth() >= 2,
        ensures
            final(self).stable(old(self)),
            final(self).stack() == replace_top(old(self).stack(), 2, v),
            final(self).kernel.heap@ == old(self).kernel.heap@.update(old(self).kernel.stack_ptr + 1, v),
            final(self).kernel.stack_ptr == old(self).kernel.stack_ptr + 1,
            final(self).msg == old(self).msg,
            final(self).kernel.ret_stack() == old(self).kernel.ret_stack(),
            final(self).kernel.return_ptr == old(self).kernel.return_ptr,
            final(self).kernel.strings@ == old(self).kernel.strings@,
            final(self).same_registers(old(self)),
    {
        self.pop();
        self.pop();
        self.kernel.push(v);
        assert(self.stack() =~= replace_top(old(self).stack(), 2, v));
    }

    /// Replaces the top item by `v`; the stack must hold at least one item.
    fn replace1(&mut self, v: i64)
        requires
            old(self).wf(),
            old(self).kernel.depth() >= 1,
        ensures
            final(self).stable(old(self)),
            final(self).stack() == replace_top(old(self).stack(), 1, v),
            final(self).kernel.heap@ == old(self).kernel.heap@.update(old(self).kernel.stack_ptr as int, v),
            final(self).kernel.stack_ptr == old(self).kernel.stack_ptr,
            final(self).msg == old(self).msg,
            final(self).kernel.ret_stack() == old(self).kernel.ret_stack(),
            final(self).kernel.return_ptr == old(self).kernel.return_ptr,
            final(self).kernel.strings@ == old(self).kernel.strings@,
            final(self).same_registers(old(self)),
    {
        self.pop();
        self.kernel.push(v);
        assert(self.stack() =~= replace_top(old(self).stack(), 1, v));
    }

    /// + ( j k -- j+k ), wrapping around.
    pub fn f_plus(&mut self)
        requires
            old(self).wf(),
        ensures
            frame_kept(*old(self), *final(self)),
            final(self).stable(old(self)),
            takes_gives_one(*old(self), *final(self), 2, second(old(self).stack()).wrapping_add(top(old(self).stack()))),
    {
        if self.need(2) {
            let b = self.kernel.top();
            let a = self.kernel.peek(1);
            self.replace2(a.wrapping_add(b));
        }
    }

    /// - ( j k -- j-k ), wrapping around.
    pub fn f_minus(&mut self)
        requires
            old(self).wf(),
        ensures
            frame_kept(*old(self), *final(self)),
            final(self).stable(old(self)),
            takes_gives_one(*old(self), *final(self), 2, second(old(self).stack()).wrapping_sub(top(old(self).stack()))),
    {
        if self.need(2) {
            let b = self.kernel.top();
            let a = self.kernel.peek(1);
            self.replace2(a.wrapping_sub(b));
        }
    }

    /// * ( j k -- j*k ), wrapping around.
    pub fn f_times(&mut self)
        requires
            old(self).wf(),
        ensures
            frame_kept(*old(self), *final(self)),
            final(self).stable(old(self)),
            takes_gives_one(*old(self), *final(self), 2, second(old(self).stack()).wrapping_mul(top(old(self).stack()))),
    {
        if self.need(2) {
            let b = self.kernel.top();
            let a = self.kernel.peek(1);
            self.replace2(a.wrapping_mul(b));
        }
    }

    /// / ( j k -- j/k ), truncating toward zero. Division by zero, or a
    /// quotient that does not fit a cell, is reported and aborts.
    pub fn f_divide(&mut self)
        requires
            old(self).wf(),
        ensures
            frame_kept(*old(self), *final(self)),
            final(self).stable(old(self)),
            ({
                let q = second(old(self).stack()).checked_div(top(old(self).stack()));
                &&& old(self).kernel.depth() >= 2 && q is Some ==> takes_gives_one(*old(self), *final(self), 2, q->0)
                &&& old(self).kernel.depth() >= 2 && q is None ==> final(self).is_reset()
                    && final(self).msg.log@.last().kind == MsgKind::DivisionError
                &&& old(self).kernel.depth() < 2 ==> underflowed(*old(self), *final(self))
            }),
    {
        if self.need(2) {
            let b = self.kernel.top();
            let a = self.kernel.peek(1);
            match a.checked_div(b) {
                Some(q) => self.replace2(q),
                None => self.f_abort_with(MsgKind::DivisionError, a),
            }
        }
    }

    /// mod ( j k -- j%k ), with the sign of `j`. A zero divisor is reported and aborts.
    pub fn f_mod(&mut self)
        requires
            old(self).wf(),
        ensures
            frame_kept(*old(self), *final(self)),
            final(self).stable(old(self)),
            ({
                let q = second(old(self).stack()).checked_rem(top(old(self).stack()));
                &&& old(self).kernel.depth() >= 2 && q is Some ==> takes_gives_one(*old(self), *final(self), 2, q->0)
                &&& old(self).kernel.depth() >= 2 && q is None ==> final(self).is_reset()
                    && final(self).msg.log@.last().kind == MsgKind::DivisionError
                &&& old(self).kernel.depth() < 2 ==> underflowed(*old(self), *final(self))
            }),
    {
        if self.need(2) {
            let b = self.kernel.top();
            let a = self.kernel.peek(1);
            match a.checked_rem(b) {
                Some(q) => self.replace2(q),
                None => self.f_abort_with(MsgKind::DivisionError, a),
            }
        }
    }

    /// < ( j k -- flag ) true if j < k.
    pub fn f_less(&mut self)
        requires
            old(self).wf(),
        ensures
            frame_kept(*old(self), *final(self)),
            final(self).stable(old(self)),
            takes_gives_one(*old(self), *final(self), 2, flag(second(old(self).stack()) < top(old(self).stack()))),
    {
        if self.need(2) {
            let b = self.kernel.top();
            let a = self.kernel.peek(1);
            self.replace2(if a < b { TRUE } else { FALSE });
        }
    }

    /// = ( j k -- flag ) true if j == k.
    pub fn f_equal(&mut self)
        requires
            old(self).wf(),
        ensures
            frame_kept(*old(self), *final(self)),
            final(self).stable(old(self)),
            takes_gives_one(*old(self), *final(self), 2, flag(second(old(self).stack()) == top(old(self).stack()))),
    {
        if self.need(2) {
            let b = self.kernel.top();
            let a = self.kernel.peek(1);
            self.replace2(if a == b { TRUE } else { FALSE });
        }
    }

    /// 0= ( j -- flag ) true if j == 0.
    pub fn f_0equal(&mut self)
        requires
            old(self).wf(),
        ensures
            frame_kept(*old(self), *final(self)),
            final(self).stable(old(self)),
            takes_gives_one(*old(self), *final(self), 1, flag(top(old(self).stack()) == 0)),
    {
        if self.need(1) {
            let a = self.kernel.top();
            self.replace1(if a == 0 { TRUE } else { FALSE });
        }
    }

    /// 0< ( j -- flag ) true if j < 0.
    pub fn f_0less(&mut self)
        requires
            old(self).wf(),
        ensures
            frame_kept(*old(self), *final(self)),
            final(self).stable(old(self)),
            takes_gives_one(*old(self), *final(self), 1, flag(top(old(self).stack()) < 0)),
    {
        if self.need(1) {
            let a = self.kernel.top();
            self.replace1(if a < 0 { TRUE } else { FALSE });
        }
    }

    /// and ( a b -- a&b ) bitwise.
    pub fn f_and(&mut self)
        requires
            old(self).wf(),
        ensures
            frame_kept(*old(self), *final(self)),
            final(self).stable(old(self)),
            takes_gives_one(*old(self), *final(self), 2, second(old(self).stack()) & top(old(self).stack())),
    {
        if self.need(2) {
            let b = self.kernel.top();
            let a = self.kernel.peek(1);
            self.replace2(a & b);
        }
    }

    /// or ( a b -- a|b ) bitwise.
    pub fn f_or(&mut self)
        requires
            old(self).wf(),
        ensures
            frame_kept(*old(self), *final(self)),
            final(self).stable(old(self)),
            takes_gives_one(*old(self), *final(self), 2, second(old(self).stack()) | top(old(self).stack())),
    {
        if self.need(2) {
            let b = self.kernel.top();
            let a = self.kernel.peek(1);
            self.replace2(a | b);
        }
    }

    /// true ( -- -1 )
    pub fn f_true(&mut self)
        requires
            old(self).wf(),
        ensures
            frame_kept(*old(self), *final(self)),
            final(self).stable(old(self)),
            old(self).has_room() ==> final(self).stack() == old(self).stack().push(TRUE),
    {
        self.push(TRUE);
    }

    /// false ( -- 0 )
    pub fn f_false(&mut self)
        requires
            old(self).wf(),
        ensures
            frame_kept(*old(self), *final(self)),
            final(self).stable(old(self)),
            old(self).has_room() ==> final(self).stack() == old(self).stack().push(FALSE),
    {
        self.push(FALSE);
    }

    /// dup ( n -- n n )
    pub fn f_dup(&mut self)
        requires
            old(self).wf(),
        ensures
            frame_kept(*old(self), *final(self)),
            final(self).stable(old(self)),
            old(self).kernel.depth() < 1 ==> underflowed(*old(self), *final(self)),
            old(self).kernel.depth() >= 1 && old(self).has_room() ==> final(self).stack() == old(self).stack().push(
                top(old(self).stack()),
            ) && final(self).kernel.depth() == old(self).kernel.depth() + 1,
    {
        if self.need(1) {
            let t = self.kernel.top();
            self.push(t);
        }
    }

    /// drop ( n -- )
    pub fn f_drop(&mut self)
        requires
            old(self).wf(),
        ensures
            frame_kept(*old(self), *final(self)),
            final(self).stable(old(self)),
            old(self).kernel.depth() < 1 ==> underflowed(*old(self), *final(self)),
            old(self).kernel.depth() >= 1 ==> final(self).stack() == old(self).stack().drop_last()
                && final(self).kernel.depth() == old(self).kernel.depth() - 1,
    {
        if self.need(1) {
            self.pop();
        }
    }

    /// swap ( m n -- n m )
    pub fn f_swap(&mut self)
        requires
            old(self).wf(),
        ensures
            frame_kept(*old(self), *final(self)),
            final(self).stable(old(self)),
            old(self).kernel.depth() < 2 ==> underflowed(*old(self), *final(self)),
            old(self).kernel.depth() >= 2 ==> final(self).stack() == old(self).stack().subrange(
                0,
                old(self).stack().len() - 2,
            ).push(top(old(self).stack())).push(second(old(self).stack())) && final(self).kernel.depth()
                == old(self).kernel.depth(),
    {
        if self.need(2) {
            let a = self.pop();
            let b = self.pop();
            self.kernel.push(a);
            self.kernel.push(b);
            assert(self.stack() =~= old(self).stack().subrange(0, old(self).stack().len() - 2).push(a).push(b));
        }
    }

    /// over ( m n -- m n m )
    pub fn f_over(&mut self)
        requires
            old(self).wf(),
        ensures
            frame_kept(*old(self), *final(self)),
            final(self).stable(old(self)),
            old(self).kernel.depth() < 2 ==> underflowed(*old(self), *final(self)),
            old(self).kernel.depth() >= 2 && old(self).has_room() ==> final(self).stack() == old(self).stack().push(
                second(old(self).stack()),
            ) && final(self).kernel.depth() == old(self).kernel.depth() + 1,
    {
        if self.need(2) {
            let second = self.kernel.peek(1);
            self.push(second);
        }
    }

    /// rot ( i j k -- j k i )
    pub fn f_rot(&mut self)
        requires
            old(self).wf(),
        ensures
            frame_kept(*old(self), *final(self)),
            final(self).stable(old(self)),
            old(self).kernel.depth() < 3 ==> underflowed(*old(self), *final(self)),
            old(self).kernel.depth() >= 3 ==> final(self).stack() == old(self).stack().subrange(
                0,
                old(self).stack().len() - 3,
            ).push(second(old(self).stack())).push(top(old(self).stack())).push(third(old(self).stack()))
                && final(self).kernel.depth() == old(self).kernel.depth(),
    {
        if self.need(3) {
            let first = self.pop();
            let second = self.pop();
            let third = self.pop();
            self.kernel.push(second);
            self.kernel.push(first);
            self.kernel.push(third);
            assert(self.stack() =~= old(self).stack().subrange(0, old(self).stack().len() - 3).push(second).push(
                first,
            ).push(third));
        }
    }

    /// pick ( .. n -- .. v ) copies the item `n` places below the (removed) `n` to the top.
    pub fn f_pick(&mut self)
        requires
            old(self).wf(),
        ensures
            frame_kept(*old(self), *final(self)),
            final(self).stable(old(self)),
            ({
                let st = old(self).stack();
                let n = top(st) as int;
                &&& (st.len() < 1 || n < 0 || st.len() < n + 2) ==> underflowed(*old(self), *final(self))
                &&& st.len() >= 1 && 0 <= n && st.len() >= n + 2 ==> final(self).stack() == replace_top(
                    st,
                    1,
                    st[st.len() - 2 - n],
                )
            }),
    {
        if self.need(1) {
            let n = self.kernel.top();
            if n < 0 || n > STRING_SIZE as i64 {
                self.f_abort_with(MsgKind::StackUnderflow, n);
                return;
            }
            if self.need(n as usize + 2) {
                let v = self.kernel.peek(n as usize + 1);
                self.replace1(v);
            }
        }
    }

    /// roll ( .. n -- .. ) moves the item `n` places below the (removed) `n` to the top.
    pub fn f_roll(&mut self)
        requires
            old(self).wf(),
        ensures
            frame_kept(*old(self), *final(self)),
            final(self).stable(old(self)),
            ({
                let st = old(self).stack();
                let n = top(st) as int;
                &&& (st.len() < 1 || n < 0 || st.len() < n + 2) ==> underflowed(*old(self), *final(self))
                &&& st.len() >= 1 && 0 <= n && st.len() >= n + 2 ==> final(self).stack() == rolled(
                    st.drop_last(),
                    n,
                )
            }),
    {
        if self.need(1) {
            let n = self.kernel.top();
            if n < 0 || n > STRING_SIZE as i64 {
                self.f_abort_with(MsgKind::StackUnderflow, n);
                return;
            }
            if !self.need(n as usize + 2) {
                return;
            }
            self.pop();
            let ghost st = self.stack();
            let k = n as usize;
            let sp = self.kernel.stack_ptr;
            let val = self.kernel.peek(k);
            let mut i: usize = k;
            while i > 0
                invariant
                    self.wf(),
                    i <= k,
                    sp == self.kernel.stack_ptr,
                    sp + k < STACK_START_BOUND,
                    k < st.len(),
                    st.len() == STACK_START_BOUND - 1 - sp,
                    self.stable(old(self)),
                    self.msg == old(self).msg,
                    self.same_registers(old(self)),
                    self.kernel.return_ptr == old(self).kernel.return_ptr,
                    forall|a: int|
                        0 <= a < DATA_SIZE ==> #[trigger] self.kernel.heap@[a] == if sp + i < a <= sp + k {
                            old(self).kernel.heap@[a - 1]
                        } else {
                            old(self).kernel.heap@[a]
                        },
                decreases i,
            {
                let tmp = self.kernel.get(sp + i - 1);
                self.kernel.set(sp + i, tmp);
                i = i - 1;
            }
            self.kernel.set(sp, val);
            assert(self.stack() =~= rolled(st, n as int));
        }
    }
}

impl ForthRuntime {
    /// @ ( a -- n ) fetches the cell at address `a`; an address outside the
    /// arena is reported and aborts.
    pub fn f_get(&mut self)
        requires
            old(self).wf(),
        ensures
            frame_kept(*old(self), *final(self)),
            final(self).stable(old(self)),
            ({
                let a = top(old(self).stack());
                &&& old(self).kernel.depth() < 1 ==> underflowed(*old(self), *final(self))
                &&& old(self).kernel.depth() >= 1 && 0 <= a < DATA_SIZE ==> takes_gives_one(
                    *old(self),
                    *final(self),
                    1,
                    old(self).kernel.heap@[a as int],
                )
                &&& old(self).kernel.depth() >= 1 && !(0 <= a < DATA_SIZE) ==> final(self).is_reset()
                    && final(self).msg.log@.last().kind == MsgKind::AddressOutOfRange
            }),
    {
        if self.need(1) {
            let addr = self.kernel.top();
            if 0 <= addr && addr < DATA_SIZE as i64 {
                let val = self.kernel.get(addr as usize);
                self.replace1(val);
            } else {
                self.f_abort_with(MsgKind::AddressOutOfRange, addr);
            }
        }
    }

    /// ! ( n a -- ) stores `n` at address `a`; an address outside the arena is
    /// reported and aborts.
    pub fn f_store(&mut self)
        requires
            old(self).wf(),
        ensures
            frame_kept(*old(self), *final(self)),
            final(self).stable(old(self)),
            ({
                let a = top(old(self).stack());
                let v = second(old(self).stack());
                &&& old(self).kernel.depth() < 2 ==> underflowed(*old(self), *final(self))
                &&& old(self).kernel.depth() >= 2 && 0 <= a < DATA_SIZE ==> {
                    &&& final(self).kernel.heap@ == old(self).kernel.heap@.update(a as int, v)
                    &&& final(self).kernel.stack_ptr == old(self).kernel.stack_ptr + 2
                    &&& final(self).msg == old(self).msg
                }
                &&& old(self).kernel.depth() >= 2 && !(0 <= a < DATA_SIZE) ==> final(self).is_reset()
                    && final(self).msg.log@.last().kind == MsgKind::AddressOutOfRange
            }),
    {
        if self.need(2) {
            let addr = self.pop();
            let value = self.pop();
            if 0 <= addr && addr < DATA_SIZE as i64 {
                self.kernel.set(addr as usize, value);
            } else {
                self.f_abort_with(MsgKind::AddressOutOfRange, addr);
            }
        }
    }

    /// c@ ( s -- c ) fetches the byte at string address `s`.
    pub fn f_c_get(&mut self)
        requires
            old(self).wf(),
        ensures
            frame_kept(*old(self), *final(self)),
            final(self).stable(old(self)),
            ({
                let a = top(old(self).stack());
                &&& old(self).kernel.depth() < 1 ==> underflowed(*old(self), *final(self))
                &&& old(self).kernel.depth() >= 1 && 0 <= a < STRING_SIZE ==> takes_gives_one(
                    *old(self),
                    *final(self),
                    1,
                    old(self).kernel.strings@[a as int] as i64,
                )
                &&& old(self).kernel.depth() >= 1 && !(0 <= a < STRING_SIZE) ==> final(self).is_reset()
            }),
    {
        if self.need(1) {
            let addr = self.kernel.top();
            if 0 <= addr && addr < STRING_SIZE as i64 {
                let c = self.kernel.byte_get(addr as usize);
                self.replace1(c as i64);
            } else {
                self.f_abort_with(MsgKind::AddressOutOfRange, addr);
            }
        }
    }

    /// c! ( c s -- ) stores the low byte of `c` at string address `s`.
    pub fn f_c_store(&mut self)
        requires
            old(self).wf(),
        ensures
            frame_kept(*old(self), *final(self)),
            final(self).stable(old(self)),
            ({
                let a = top(old(self).stack());
                let c = second(old(self).stack());
                &&& old(self).kernel.depth() < 2 ==> underflowed(*old(self), *final(self))
                &&& old(self).kernel.depth() >= 2 && 0 <= a < STRING_SIZE ==> {
                    &&& final(self).kernel.strings@ == old(self).kernel.strings@.update(a as int, c as u8)
                    &&& final(self).stack() == old(self).stack().drop_last().drop_last()
                }
                &&& old(self).kernel.depth() >= 2 && !(0 <= a < STRING_SIZE) ==> final(self).is_reset()
            }),
    {
        if self.need(2) {
            let addr = self.pop();
            let c = self.pop();
            if 0 <= addr && addr < STRING_SIZE as i64 {
                self.kernel.byte_set(addr as usize, c as u8);
            } else {
                self.f_abort_with(MsgKind::AddressOutOfRange, addr);
            }
        }
    }

    /// s-copy ( from to -- ) copies the counted string at `from` to `to`.
    pub fn f_s_copy(&mut self)
        requires
            old(self).wf(),
        ensures
            frame_kept(*old(self), *final(self)),
            final(self).stable(old(self)),
            ({
                let to = top(old(self).stack());
                let from = second(old(self).stack());
                let strings = old(self).kernel.strings@;
                &&& old(self).kernel.depth() < 2 ==> underflowed(*old(self), *final(self))
                &&& old(self).kernel.depth() >= 2 && old(self).valid_string(from) && 0 <= to && to + 1
                    + strings[from as int] <= STRING_SIZE ==> {
                    &&& final(self).kernel.strings@ == with_counted(strings, to as int, counted(strings, from as int))
                    &&& final(self).stack() == old(self).stack().drop_last().drop_last()
                }
            }),
    {
        if self.need(2) {
            let dest = self.pop();
            let source = self.pop();
            if self.string_ok(source) && 0 <= dest && dest < STRING_SIZE as i64 {
                let length = self.kernel.byte_get(source as usize) as usize;
                if (dest as usize) + 1 + length <= STRING_SIZE {
                    self.kernel.string_copy(source as usize, dest as usize, length, true);
                    return;
                }
            }
            self.f_abort_with(MsgKind::AddressOutOfRange, dest);
        }
    }

    /// s-create ( from -- to ) copies the counted string at `from` to free
    /// string space, advances the free pointer, and returns the copy's address.
    pub fn f_s_create(&mut self)
        requires
            old(self).wf(),
        ensures
            frame_kept(*old(self), *final(self)),
            final(self).stable(old(self)),
            old(self).kernel.depth() < 1 ==> underflowed(*old(self), *final(self)),
            ({
                let from = top(old(self).stack());
                let strings = old(self).kernel.strings@;
                let to = old(self).kernel.heap@[old(self).kernel.string_ptr as int];
                old(self).kernel.depth() >= 1 && old(self).valid_string(from) && 0 <= to && to + 1
                    + strings[from as int] <= STRING_SIZE && old(self).kernel.string_ptr
                    < old(self).kernel.stack_ptr ==> {
                    &&& final(self).kernel.strings@ == with_counted(strings, to as int, counted(strings, from as int))
                    &&& final(self).stack() == replace_top(old(self).stack(), 1, to)
                    &&& final(self).kernel.heap@[old(self).kernel.string_ptr as int] == to + 1 + strings[from as int]
                }
            }),
    {
        if self.need(1) {
            let source = self.kernel.top();
            let sp = self.kernel.string_ptr;
            let dest = self.kernel.get(sp);
            if self.string_ok(source) && 0 <= dest && dest < STRING_SIZE as i64 && sp < self.kernel.stack_ptr {
                let length = self.kernel.byte_get(source as usize) as usize;
                if (dest as usize) + 1 + length <= STRING_SIZE {
                    let ghost strings0 = self.kernel.strings@;
                    self.kernel.string_copy(source as usize, dest as usize, length, true);
                    assert(strings0.subrange(source + 1, source + 1 + length) == counted(strings0, source as int));
                    self.kernel.set(sp, dest + 1 + length as i64);
                    let ghost mid = *self;
                    self.replace1(dest);
                    assert(self.kernel.heap@[sp as int] == mid.kernel.heap@[sp as int]);
                    return;
                }
            }
            self.f_abort_with(MsgKind::AddressOutOfRange, dest);
        }
    }

    /// depth ( -- n ) pushes the number of items on the data stack.
    pub fn f_stack_depth(&mut self)
        requires
            old(self).wf(),
        ensures
            frame_kept(*old(self), *final(self)),
            final(self).stable(old(self)),
            old(self).has_room() ==> final(self).stack() == old(self).stack().push(old(self).stack().len() as i64),
    {
        let depth = self.kernel.stack_len();
        self.push(depth as i64);
    }
}

/// One past the highest data-stack cell.
pub const STACK_START_BOUND: usize = crate::kernel::STACK_START + 1;

} // verus!
