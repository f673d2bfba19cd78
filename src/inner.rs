//! The inner interpreter: the return stack, calls, and the threaded-code loop.
use crate::builtin::Prim;
use crate::compiler::{colon_done, semicolon_done};
use crate::console::decimal_text;
use crate::general::{arith_result, arith_step, flag, is_arith, second, takes_gives_one, top};
use crate::kernel::{ADDRESS_MASK, ALLOC_START, DATA_SIZE, RET_START};
use crate::messages::MsgKind;
use crate::compiler::token_evaluated;
use crate::runtime::{FALSE, TRUE, 
    ForthRuntime, HostOp, ABORT, BRANCH, BRANCH0, BREAK, BUILTIN, BUILTIN_FLAG, CONSTANT,
    DEFINITION, EXEC, EXIT, LITERAL, STRLIT, VARIABLE,
};
use vstd::prelude::*;

verus! {

/// What `run` stopped for.
#[derive(Clone, Copy, Debug, PartialEq, Eq, Structural)]
pub enum Status {
    /// The line is finished (or was abandoned by an abort).
    Done,
    /// The host must carry out `pending`, then call `run` again.
    Waiting,
    /// The step budget ran out; call `run` again to go on.
    Busy,
}

/// A cell that holds a builtin reference: the builtin flag is set.
pub open spec fn is_builtin_ref(code: i64) -> bool {
    code >= 0 && (code as u64 & BUILTIN_FLAG) != 0
}

proof fn lemma_small_not_builtin(code: i64)
    requires
        0 <= code < 0x2000000000000000,
    ensures
        !is_builtin_ref(code),
{
    let u = code as u64;
    assert(u & 0x2000000000000000u64 == 0) by (bit_vector)
        requires
            u < 0x2000000000000000u64,
    ;
}

pub fn builtin_ref(code: i64) -> (r: bool)
    ensures
        r == is_builtin_ref(code),
{
    code >= 0 && (code as u64 & BUILTIN_FLAG) != 0
}

impl ForthRuntime {
    /// Pushes `val` on the return stack; reports an error and aborts when it is full.
    pub fn push_r(&mut self, val: i64)
        requires
            old(self).wf(),
        ensures
            final(self).wf(),
            final(self).same_pointers(old(self)),
            final(self).kernel.builtins@ == old(self).kernel.builtins@,
            final(self).kernel.string_ptr == old(self).kernel.string_ptr,
            final(self).reader@ == old(self).reader@,
            final(self).exit_flag == old(self).exit_flag,
            old(self).kernel.return_ptr > ALLOC_START ==> {
                &&& final(self).kernel.ret_stack() == old(self).kernel.ret_stack().push(val)
                &&& final(self).stack() == old(self).stack()
                &&& final(self).kernel.stack_ptr == old(self).kernel.stack_ptr
                &&& final(self).msg == old(self).msg
                &&& final(self).same_registers(old(self))
                &&& final(self).kernel.heap@ == old(self).kernel.heap@.update(old(self).kernel.return_ptr - 1, val)
            },
            old(self).kernel.return_ptr <= ALLOC_START ==> final(self).is_reset(),
    {
        let rp = self.kernel.return_ptr;
        if rp > ALLOC_START {
            self.kernel.set_return_ptr(rp - 1);
            self.kernel.set(rp - 1, val);
            assert(self.kernel.ret_stack() =~= old(self).kernel.ret_stack().push(val));
            assert(self.stack() =~= old(self).stack());
        } else {
            self.f_abort_with(MsgKind::ReturnStackError, val);
        }
    }

    /// Pops the return stack; reports an error and aborts when it is empty.
    pub fn pop_r(&mut self) -> (r: i64)
        requires
            old(self).wf(),
        ensures
            final(self).wf(),
            final(self).same_pointers(old(self)),
            final(self).kernel.builtins@ == old(self).kernel.builtins@,
            final(self).kernel.string_ptr == old(self).kernel.string_ptr,
            final(self).reader@ == old(self).reader@,
            final(self).exit_flag == old(self).exit_flag,
            old(self).kernel.ret_stack().len() > 0 ==> {
                &&& r == old(self).kernel.ret_stack().last()
                &&& final(self).kernel.ret_stack() == old(self).kernel.ret_stack().drop_last()
                &&& final(self).kernel.heap@ == old(self).kernel.heap@
                &&& final(self).kernel.stack_ptr == old(self).kernel.stack_ptr
                &&& final(self).msg == old(self).msg
                &&& final(self).same_registers(old(self))
            },
            old(self).kernel.ret_stack().len() == 0 ==> final(self).is_reset(),
    {
        let rp = self.kernel.return_ptr;
        if rp < RET_START {
            let v = self.kernel.get(rp);
            self.kernel.set_return_ptr(rp + 1);
            assert(self.kernel.ret_stack() =~= old(self).kernel.ret_stack().drop_last());
            v
        } else {
            self.f_abort_with(MsgKind::ReturnStackError, 0);
            0
        }
    }

    /// >r ( n -- ) moves the top of the data stack to the return stack.
    pub fn f_to_r(&mut self)
        requires
            old(self).wf(),
        ensures
            final(self).stable(old(self)),
            old(self).kernel.depth() < 1 ==> final(self).is_reset(),
            old(self).kernel.depth() >= 1 && old(self).kernel.return_ptr > ALLOC_START ==> {
                &&& final(self).kernel.ret_stack() == old(self).kernel.ret_stack().push(old(self).stack().last())
                &&& final(self).stack() == old(self).stack().drop_last()
            },
    {
        if self.need(1) {
            let v = self.pop();
            self.push_r(v);
        }
    }

    /// r> ( -- n ) moves the top of the return stack to the data stack.
    pub fn f_r_from(&mut self)
        requires
            old(self).wf(),
        ensures
            final(self).stable(old(self)),
            old(self).kernel.ret_stack().len() > 0 && old(self).has_room() ==> {
                &&& final(self).kernel.ret_stack() == old(self).kernel.ret_stack().drop_last()
                &&& final(self).stack() == old(self).stack().push(old(self).kernel.ret_stack().last())
            },
    {
        if self.kernel.return_ptr < RET_START {
            let v = self.pop_r();
            self.push(v);
        } else {
            self.f_abort_with(MsgKind::ReturnStackError, 0);
        }
    }

    /// Pushes the item `n` places below the top of the return stack.
    fn copy_r(&mut self, n: usize)
        requires
            old(self).wf(),
            n < 2,
        ensures
            frame_kept(*old(self), *final(self)),
            final(self).stable(old(self)),
            old(self).kernel.ret_stack().len() > n && old(self).has_room() ==> {
                &&& final(self).kernel.ret_stack() == old(self).kernel.ret_stack()
                &&& final(self).stack() == old(self).stack().push(
                    old(self).kernel.ret_stack()[old(self).kernel.ret_stack().len() - 1 - n],
                )
            },
    {
        let rp = self.kernel.return_ptr;
        if rp + n < RET_START {
            let v = self.kernel.get(rp + n);
            self.push(v);
        } else {
            self.f_abort_with(MsgKind::ReturnStackError, 0);
        }
    }

    /// r@ ( -- n ) copies the top of the return stack to the data stack.
    pub fn f_r_get(&mut self)
        requires
            old(self).wf(),
        ensures
            frame_kept(*old(self), *final(self)),
            final(self).stable(old(self)),
            old(self).kernel.ret_stack().len() > 0 && old(self).has_room() ==> final(self).stack()
                == old(self).stack().push(old(self).kernel.ret_stack().last()),
    {
        self.copy_r(0);
    }

    /// i ( -- n ) pushes the innermost loop index: the top of the return stack.
    pub fn f_i(&mut self)
        requires
            old(self).wf(),
        ensures
            frame_kept(*old(self), *final(self)),
            final(self).stable(old(self)),
            old(self).kernel.ret_stack().len() > 0 && old(self).has_room() ==> final(self).stack()
                == old(self).stack().push(old(self).kernel.ret_stack().last()),
    {
        self.copy_r(0);
    }

    /// j ( -- n ) pushes the outer loop index: the second item of the return stack.
    pub fn f_j(&mut self)
        requires
            old(self).wf(),
        ensures
            frame_kept(*old(self), *final(self)),
            final(self).stable(old(self)),
            old(self).kernel.ret_stack().len() > 1 && old(self).has_room() ==> final(self).stack()
                == old(self).stack().push(old(self).kernel.ret_stack()[old(self).kernel.ret_stack().len() - 2]),
    {
        self.copy_r(1);
    }

    /// Calls the threaded code at `target`: saves `pc` on the return stack as
    /// the continuation and jumps.
    fn call(&mut self, target: usize)
        requires
            old(self).wf(),
            target < DATA_SIZE,
        ensures
            final(self).stable(old(self)),
            old(self).kernel.return_ptr > ALLOC_START ==> {
                &&& final(self).pc == target
                &&& final(self).kernel.ret_stack() == old(self).kernel.ret_stack().push(old(self).pc as i64)
                &&& final(self).stack() == old(self).stack()
            },
    {
        if self.kernel.return_ptr > ALLOC_START {
            self.push_r(self.pc as i64);
            self.pc = target;
            self.call_depth = if self.call_depth < usize::MAX { self.call_depth + 1 } else { self.call_depth };
            self.traced = false;
        } else {
            self.f_abort_with(MsgKind::ReturnStackError, 0);
        }
    }
}

/// `new` is `old` after the inner interpreter ran a LITERAL cell: the inline
/// operand is pushed and the program counter moves past it.
pub open spec fn literal_stepped(old: ForthRuntime, new: ForthRuntime) -> bool {
    let pc = old.pc as int;
    old.kernel.heap@[pc] == LITERAL && 0 < pc && pc + 2 < DATA_SIZE && old.has_room() ==> {
        &&& new.stack() == old.stack().push(old.kernel.heap@[pc + 1])
        &&& new.pc == pc + 2
        &&& new.kernel.ret_stack() == old.kernel.ret_stack()
        &&& new.kernel.return_ptr == old.kernel.return_ptr
        &&& new.kernel.heap@ == old.kernel.heap@.update(old.kernel.stack_ptr - 1, old.kernel.heap@[pc + 1])
        &&& new.kernel.strings@ == old.kernel.strings@
        &&& new.msg == old.msg
    }
}

/// `new` is `old` after the inner interpreter ran the cell at the program
/// counter, for each kind of cell whose effect needs no error path.
pub open spec fn stepped(old: ForthRuntime, new: ForthRuntime) -> bool {
    let pc = old.pc as int;
    let code = old.kernel.heap@[pc];
    let next = old.kernel.heap@[pc + 1];
    let rs = old.kernel.ret_stack();
    0 < pc && pc + 2 < DATA_SIZE ==> {
        &&& literal_stepped(old, new)
        &&& code == STRLIT && old.has_room() ==> new.stack() == old.stack().push(next) && new.pc == pc + 2
        &&& code == DEFINITION ==> new.pc == pc + 1 && new.kernel == old.kernel
        &&& code == BRANCH && 0 < pc + next < DATA_SIZE ==> new.pc == pc + next && new.kernel == old.kernel
        &&& code == BRANCH0 && old.kernel.depth() >= 1 && old.stack().last() != 0 ==> new.pc == pc + 2
            && new.stack() == old.stack().drop_last()
        &&& code == BRANCH0 && old.kernel.depth() >= 1 && old.stack().last() == 0 && 0 < pc + next < DATA_SIZE
            ==> new.pc == pc + next && new.stack() == old.stack().drop_last()
        &&& (code == EXIT || code == BREAK) && rs.len() > 0 && 0 <= rs.last() < DATA_SIZE ==> new.pc == rs.last()
            && new.kernel.ret_stack() == rs.drop_last() && new.stack() == old.stack()
        &&& code == ABORT ==> new.is_reset()
        &&& is_builtin_ref(code) && (code as u64 & ADDRESS_MASK) >= old.kernel.builtins@.len() ==> new.is_reset()
            && new.exit_flag
        &&& is_builtin_ref(code) && (code as u64 & ADDRESS_MASK) < old.kernel.builtins@.len() && is_arith(
            old.kernel.builtins@[(code as u64 & ADDRESS_MASK) as int].code,
        ) ==> arith_step(old, new, old.kernel.builtins@[(code as u64 & ADDRESS_MASK) as int].code)
        &&& is_builtin_ref(code) && (code as u64 & ADDRESS_MASK) < old.kernel.builtins@.len() ==> {
            let p = old.kernel.builtins@[(code as u64 & ADDRESS_MASK) as int].code;
            &&& prim_effect(ForthRuntime { pc: (pc + 1) as usize, ..old }, new, p)
            &&& !moves_frames(p) ==> new.is_reset() || (new.pc == pc + 1 && new.kernel.return_ptr
                == old.kernel.return_ptr)
        }
        &&& 0 < code < DATA_SIZE && old.kernel.return_ptr > ALLOC_START ==> new.pc == code
            && new.kernel.ret_stack() == rs.push((pc + 1) as i64) && new.stack() == old.stack()
    }
}

/// `new` is `old` after `execute` ran the word whose code field address is
/// on top of the stack, for each kind of word that needs no builtin.
pub open spec fn executed(old: ForthRuntime, new: ForthRuntime) -> bool {
    let st = old.stack();
    let xt = st.last() as int;
    let tag = old.kernel.heap@[xt];
    old.kernel.depth() >= 1 && 0 <= xt < DATA_SIZE - 1 ==> {
        &&& tag == VARIABLE ==> new.stack() == st.drop_last().push((xt + 1) as i64) && new.pc == old.pc
        &&& tag == CONSTANT ==> new.stack() == st.drop_last().push(old.kernel.heap@[xt + 1]) && new.pc == old.pc
        &&& tag == DEFINITION && old.kernel.return_ptr > ALLOC_START ==> new.pc == xt + 1
            && new.kernel.ret_stack() == old.kernel.ret_stack().push(old.pc as i64) && new.stack() == st.drop_last()
        &&& tag == ABORT ==> new.is_reset()
        &&& is_builtin_ref(tag) && (tag as u64 & ADDRESS_MASK) >= old.kernel.builtins@.len() ==> new.is_reset()
            && new.exit_flag
    }
}

/// One turn of `run` from `old` (not aborted, no pending request): a cell of
/// threaded code when a definition is running and the tracer does not want
/// to see it, otherwise the next token of the line.
pub open spec fn one_step(old: ForthRuntime, new: ForthRuntime) -> bool {
    &&& old.pc != 0 && !old.wants_trace() ==> stepped(old, new)
    &&& old.pc == 0 && old.evaluating ==> token_evaluated(old, new)
}

/// A builtin left the program counter and the return stack pointer alone,
/// or aborted.
pub open spec fn frame_kept(old: ForthRuntime, new: ForthRuntime) -> bool {
    new.is_reset() || (new.pc == old.pc && new.kernel.return_ptr == old.kernel.return_ptr)
}

/// The builtins that work on the program counter or the return stack.
pub open spec fn moves_frames(p: Prim) -> bool {
    p is Execute || p is ToR || p is RFrom || p is Clear
}

/// What builtin `p` did, taking `old` to `new`: the effect its own word
/// states, for the words of the core.
pub open spec fn prim_effect(old: ForthRuntime, new: ForthRuntime, p: Prim) -> bool {
    let st = old.stack();
    match p {
        Prim::Plus => takes_gives_one(old, new, 2, second(st).wrapping_add(top(st))),
        Prim::Minus => takes_gives_one(old, new, 2, second(st).wrapping_sub(top(st))),
        Prim::Times => takes_gives_one(old, new, 2, second(st).wrapping_mul(top(st))),
        Prim::Less => takes_gives_one(old, new, 2, flag(second(st) < top(st))),
        Prim::Equal => takes_gives_one(old, new, 2, flag(second(st) == top(st))),
        Prim::ZeroEqual => takes_gives_one(old, new, 1, flag(top(st) == 0)),
        Prim::ZeroLess => takes_gives_one(old, new, 1, flag(top(st) < 0)),
        Prim::And => takes_gives_one(old, new, 2, second(st) & top(st)),
        Prim::Or => takes_gives_one(old, new, 2, second(st) | top(st)),
        Prim::True => old.has_room() ==> new.stack() == st.push(TRUE),
        Prim::False => old.has_room() ==> new.stack() == st.push(FALSE),
        Prim::Dup => old.kernel.depth() >= 1 && old.has_room() ==> new.stack() == st.push(top(st)),
        Prim::Drop => old.kernel.depth() >= 1 ==> new.stack() == st.drop_last(),
        Prim::Over => old.kernel.depth() >= 2 && old.has_room() ==> new.stack() == st.push(second(st)),
        Prim::Abort | Prim::Quit => new.is_reset(),
        Prim::Bye => new.exit_flag,
        Prim::Eval => new.evaluating,
        Prim::Dot => old.kernel.depth() >= 1 ==> new.out@ == old.out@ + decimal_text(top(st) as int) + seq![32u8]
            && new.stack() == st.drop_last(),
        Prim::Colon => colon_done(old, new),
        Prim::Semicolon => semicolon_done(old, new),
        Prim::Depth => old.has_room() ==> new.stack() == st.push(st.len() as i64),
        _ => true,
    }
}

/// `run` takes another turn from `s`: not aborted, no host request pending,
/// and a definition or a line still to run that the tracer does not hold up.
pub open spec fn running(s: ForthRuntime) -> bool {
    &&& !s.aborted()
    &&& s.pending is None
    &&& s.pc != 0 || s.evaluating
    &&& !(s.pc != 0 && s.wants_trace())
}

/// `cur` is reached from `old` by `k` turns of `run`, each from a running state.
pub open spec fn reach(old: ForthRuntime, cur: ForthRuntime, k: nat) -> bool
    decreases k,
{
    if k == 0 {
        cur == old
    } else {
        exists|mid: ForthRuntime| #![trigger one_step(mid, cur)]
            reach(old, mid, (k - 1) as nat) && running(mid) && one_step(mid, cur)
    }
}

/// `run` stopped at `cur`, leaving `new` and giving `r`.
pub open spec fn stopped(cur: ForthRuntime, new: ForthRuntime, r: Status) -> bool {
    ||| cur.aborted() && r == Status::Done && new.pc == 0 && !new.evaluating && new.kernel == cur.kernel
    ||| !cur.aborted() && cur.pending is Some && r == Status::Waiting && new == cur
    ||| !cur.aborted() && cur.pending is None && cur.pc == 0 && !cur.evaluating && r == Status::Done && new == cur
    ||| !cur.aborted() && cur.pending is None && cur.pc != 0 && cur.wants_trace() && r == Status::Waiting
        && new.pending == Some(HostOp::Step { pc: cur.pc, depth: cur.call_depth }) && new.kernel == cur.kernel
}

/// `run` with `fuel` took `k` turns and then stopped, or used all `fuel`
/// turns and gave `Busy`.
pub open spec fn ran_chain(old: ForthRuntime, new: ForthRuntime, fuel: u64, r: Status) -> bool {
    exists|k: nat, cur: ForthRuntime| #![trigger reach(old, cur, k)]
        k <= fuel && reach(old, cur, k) && ((k < fuel && stopped(cur, new, r)) || (k == fuel && r == Status::Busy
            && new == cur))
}

/// What `run` with `fuel` steps did to `old`, giving `r`.
pub open spec fn ran(old: ForthRuntime, new: ForthRuntime, fuel: u64, r: Status) -> bool {
    &&& fuel > 0 && old.aborted() ==> r == Status::Done && new.pc == 0 && !new.evaluating && new.kernel
        == old.kernel
    &&& fuel > 0 && !old.aborted() && old.pending is Some ==> r == Status::Waiting && new == old
    &&& fuel > 0 && !old.aborted() && old.pending is None && old.pc == 0 && !old.evaluating ==> r == Status::Done
        && new == old
    &&& fuel > 0 && !old.aborted() && old.pending is None && old.pc != 0 && old.wants_trace() ==> r
        == Status::Waiting && new.pending == Some(HostOp::Step { pc: old.pc, depth: old.call_depth })
        && new.kernel == old.kernel
    &&& fuel == 1 && !old.aborted() && old.pending is None && (old.pc != 0 || old.evaluating) ==> one_step(
        old,
        new,
    )
}

/// `new` is `old` after `execute` ran a builtin of the table on the stack
/// below the code field address: an arithmetic or stack word has its depth
/// effect.
pub open spec fn builtin_executed(old: ForthRuntime, new: ForthRuntime) -> bool {
    let st = old.stack();
    let xt = st.last() as int;
    let tag = old.kernel.heap@[xt];
    let idx = (tag as u64 & ADDRESS_MASK) as int;
    let room = old.kernel.stack_ptr + 1 > 0 && old.here_val() < old.kernel.stack_ptr + 1 && old.here_ptr + 1
        < old.kernel.stack_ptr + 1;
    old.kernel.depth() >= 1 && 0 <= xt < DATA_SIZE - 1 && is_builtin_ref(tag) && idx < old.kernel.builtins@.len() ==> {
        let p = old.kernel.builtins@[idx].code;
        &&& is_arith(p) ==> arith_result(st.drop_last(), room, new, p)
        &&& exists|mid: ForthRuntime| #![trigger prim_effect(mid, new, p)]
            mid.stack() == st.drop_last() && mid.kernel.stack_ptr == old.kernel.stack_ptr + 1 && mid.kernel.heap@
                == old.kernel.heap@ && mid.pc == old.pc && mid.kernel.return_ptr == old.kernel.return_ptr
                && prim_effect(mid, new, p) && (!moves_frames(p) ==> frame_kept(mid, new))
    }
}

/// How deep `execute` may nest through builtins that themselves execute.
pub const EXECUTE_DEPTH: u64 = 8;

impl ForthRuntime {
    /// execute ( xt -- ) runs the word whose code field address is `xt`.
    pub fn f_execute(&mut self)
        requires
            old(self).wf(),
        ensures
            final(self).kept(old(self)),
            old(self).kernel.depth() < 1 ==> crate::general::underflowed(*old(self), *final(self)),
            executed(*old(self), *final(self)),
            builtin_executed(*old(self), *final(self)),
    {
        self.execute_top(EXECUTE_DEPTH);
    }

    fn execute_top(&mut self, depth: u64)
        requires
            old(self).wf(),
        ensures
            final(self).kept(old(self)),
            old(self).kernel.depth() < 1 ==> crate::general::underflowed(*old(self), *final(self)),
            executed(*old(self), *final(self)),
            depth > 0 ==> builtin_executed(*old(self), *final(self)),
        decreases depth, 0u64,
    {
        if !self.need(1) {
            return;
        }
        let xt = self.pop();
        if !(0 <= xt && xt < DATA_SIZE as i64 - 1) {
            self.f_abort_with(MsgKind::AddressOutOfRange, xt);
            return;
        }
        let x = xt as usize;
        let tag = self.kernel.get(x);
        proof {
            if 0 <= tag < 0x2000000000000000 {
                lemma_small_not_builtin(tag);
            }
        }
        if tag == VARIABLE {
            self.kernel.push(xt + 1);
        } else if tag == CONSTANT {
            let v = self.kernel.get(x + 1);
            self.kernel.push(v);
            assert(self.stack() =~= old(self).stack().drop_last().push(v));
        } else if tag == DEFINITION {
            self.call(x + 1);
        } else if tag == ABORT {
            self.f_abort();
        } else if builtin_ref(tag) {
            let idx = tag as u64 & ADDRESS_MASK;
            if idx < self.kernel.builtins.len() as u64 {
                if depth == 0 {
                    self.f_abort_with(MsgKind::NotExecutable, tag);
                } else {
                    let ghost mid = *self;
                    self.run_builtin(idx as usize, depth - 1);
                    assert(prim_effect(mid, *self, mid.kernel.builtins@[idx as int].code));
                }
            } else {
                self.corrupt(tag);
            }
        } else {
            self.f_abort_with(MsgKind::NotExecutable, tag);
        }
    }

    /// An out-of-range builtin index: the arena is corrupt, so the session ends.
    fn corrupt(&mut self, code: i64)
        requires
            old(self).wf(),
        ensures
            final(self).kept(old(self)),
            final(self).is_reset(),
            final(self).exit_flag,
    {
        self.f_abort_with(MsgKind::CorruptCode, code);
        self.exit_flag = true;
    }

    /// Runs the cell at the program counter and moves the program counter on.
    pub fn step(&mut self)
        requires
            old(self).wf(),
        ensures
            final(self).kept(old(self)),
            stepped(*old(self), *final(self)),
    {
        let pc = self.pc;
        if pc == 0 || pc + 2 >= DATA_SIZE {
            self.f_abort_with(MsgKind::AddressOutOfRange, pc as i64);
            return;
        }
        let code = self.kernel.get(pc);
        proof {
            if 0 <= code < 0x2000000000000000 {
                lemma_small_not_builtin(code);
            }
        }
        if code == LITERAL || code == STRLIT {
            let v = self.kernel.get(pc + 1);
            let room = self.room();
            self.push(v);
            if room {
                self.pc = pc + 2;
            }
        } else if code == VARIABLE {
            self.push(pc as i64 + 1);
            self.ret();
        } else if code == CONSTANT {
            let v = self.kernel.get(pc + 1);
            self.push(v);
            self.ret();
        } else if code == DEFINITION {
            self.pc = pc + 1;
        } else if code == BRANCH {
            let offset = self.kernel.get(pc + 1);
            self.jump(pc, offset);
        } else if code == BRANCH0 {
            if self.need(1) {
                let f = self.pop();
                if f == 0 {
                    let offset = self.kernel.get(pc + 1);
                    self.jump(pc, offset);
                } else {
                    self.pc = pc + 2;
                }
            }
        } else if code == ABORT {
            self.f_abort();
        } else if code == EXIT {
            self.ret();
            if self.call_depth > 0 {
                self.call_depth = self.call_depth - 1;
            }
        } else if code == BREAK {
            self.ret();
        } else if code == EXEC {
            self.pc = pc + 1;
            self.execute_top(EXECUTE_DEPTH);
        } else if code == BUILTIN {
            self.f_abort_with(MsgKind::NotExecutable, code);
        } else if builtin_ref(code) {
            let idx = code as u64 & ADDRESS_MASK;
            if idx < self.kernel.builtins.len() as u64 {
                self.pc = pc + 1;
                self.run_builtin(idx as usize, EXECUTE_DEPTH);
            } else {
                self.corrupt(code);
            }
        } else if 0 < code && code < DATA_SIZE as i64 {
            self.pc = pc + 1;
            self.call(code as usize);
        } else {
            self.f_abort_with(MsgKind::AddressOutOfRange, code);
        }
    }

    /// Jumps `offset` cells from the branch cell at `pc`.
    fn jump(&mut self, pc: usize, offset: i64)
        requires
            old(self).wf(),
            pc < DATA_SIZE,
        ensures
            final(self).stable(old(self)),
            0 < pc + offset < DATA_SIZE ==> final(self).pc == pc + offset && final(self).kernel == old(self).kernel
                && final(self).msg == old(self).msg,
    {
        if offset > -(DATA_SIZE as i64) && offset < DATA_SIZE as i64 {
            let target = pc as i64 + offset;
            if 0 < target && target < DATA_SIZE as i64 {
                self.pc = target as usize;
                return;
            }
        }
        self.f_abort_with(MsgKind::AddressOutOfRange, offset);
    }

    /// Returns to the caller: pops the continuation from the return stack.
    fn ret(&mut self)
        requires
            old(self).wf(),
        ensures
            final(self).stable(old(self)),
            ({
                let rs = old(self).kernel.ret_stack();
                rs.len() > 0 && 0 <= rs.last() < DATA_SIZE ==> {
                    &&& final(self).pc == rs.last()
                    &&& final(self).kernel.ret_stack() == rs.drop_last()
                    &&& final(self).stack() == old(self).stack()
                    &&& final(self).kernel.heap@ == old(self).kernel.heap@
                }
            }),
    {
        if self.kernel.return_ptr >= RET_START {
            self.f_abort_with(MsgKind::ReturnStackError, 0);
            return;
        }
        let target = self.pop_r();
        if 0 <= target && target < DATA_SIZE as i64 {
            self.pc = target as usize;
            self.traced = false;
        } else {
            self.f_abort_with(MsgKind::AddressOutOfRange, target);
        }
    }

    /// Whether the tracer wants to see the cell at the program counter.
    fn tracing(&self) -> (r: bool)
        requires
            self.wf(),
        ensures
            r == self.wants_trace(),
    {
        let mode = self.kernel.get(self.stepper_ptr);
        let depth = self.kernel.get(self.step_depth_ptr);
        mode != 0 && !self.traced && (self.call_depth as i64) <= depth && self.call_depth < DATA_SIZE
    }

    /// The stepper is on, for the current call depth, and has not yet shown
    /// the cell at the program counter.
    pub open spec fn wants_trace(&self) -> bool {
        let mode = self.kernel.heap@[self.stepper_ptr as int];
        let depth = self.kernel.heap@[self.step_depth_ptr as int];
        mode != 0 && !self.traced && self.call_depth <= depth && self.call_depth < DATA_SIZE
    }

    /// Runs the machine for at most `fuel` steps: threaded code while a
    /// definition is running, otherwise the next token of the input line.
    /// Stops when the line is done or abandoned, when the host must act,
    /// or when the steps run out.
    pub fn run(&mut self, fuel: u64) -> (r: Status)
        requires
            old(self).wf(),
        ensures
            final(self).kept(old(self)),
            r == Status::Waiting ==> final(self).pending is Some,
            r == Status::Done ==> final(self).pc == 0 && !final(self).evaluating,
            ran(*old(self), *final(self), fuel, r),
            ran_chain(*old(self), *final(self), fuel, r),
    {
        let mut f = fuel;
        while f > 0
            invariant
                self.kept(old(self)),
                f <= fuel,
                f == fuel ==> *self == *old(self),
                f < fuel ==> !old(self).aborted() && old(self).pending is None && (old(self).pc != 0
                    || old(self).evaluating) && !(old(self).pc != 0 && old(self).wants_trace()),
                fuel == 1 && f == 0 ==> one_step(*old(self), *self),
                reach(*old(self), *self, (fuel - f) as nat),
            decreases f,
        {
            let ghost cur = *self;
            let ghost k: nat = (fuel - f) as nat;
            if self.get_abort_flag() {
                self.evaluating = false;
                self.pc = 0;
                assert(stopped(cur, *self, Status::Done));
                return Status::Done;
            }
            if self.pending.is_some() {
                assert(stopped(cur, *self, Status::Waiting));
                return Status::Waiting;
            }
            if self.pc != 0 {
                if self.tracing() {
                    self.traced = true;
                    self.pending = Some(HostOp::Step { pc: self.pc, depth: self.call_depth });
                    assert(stopped(cur, *self, Status::Waiting));
                    return Status::Waiting;
                }
                self.step();
                self.traced = false;
            } else if self.evaluating {
                self.eval_token();
            } else {
                assert(stopped(cur, *self, Status::Done));
                return Status::Done;
            }
            proof {
                assert(running(cur));
                assert(one_step(cur, *self));
                assert(reach(*old(self), cur, k));
                assert(reach(*old(self), *self, (k + 1) as nat));
            }
            f = f - 1;
        }
        proof {
            assert(reach(*old(self), *self, fuel as nat));
        }
        Status::Busy
    }

    /// Runs builtin `code` of the table against the machine.
    pub fn builtin(&mut self, code: usize)
        requires
            old(self).wf(),
            code < old(self).kernel.builtins@.len(),
        ensures
            final(self).kept(old(self)),
            is_arith(old(self).kernel.builtins@[code as int].code) ==> arith_step(
                *old(self),
                *final(self),
                old(self).kernel.builtins@[code as int].code,
            ),
    {
        self.run_builtin(code, EXECUTE_DEPTH);
    }

    /// Dispatches to the native operation of builtin `index`.
    pub fn run_builtin(&mut self, index: usize, depth: u64)
        requires
            old(self).wf(),
            index < old(self).kernel.builtins@.len(),
        ensures
            final(self).kept(old(self)),
            is_arith(old(self).kernel.builtins@[index as int].code) ==> arith_step(
                *old(self),
                *final(self),
                old(self).kernel.builtins@[index as int].code,
            ),
            !moves_frames(old(self).kernel.builtins@[index as int].code) ==> frame_kept(*old(self), *final(self)),
            prim_effect(*old(self), *final(self), old(self).kernel.builtins@[index as int].code),
        decreases depth, 1u64,
    {
        let code = self.kernel.get_builtin(index).code;
        match code {
            Prim::Plus => self.f_plus(),
            Prim::Minus => self.f_minus(),
            Prim::Times => self.f_times(),
            Prim::Divide => self.f_divide(),
            Prim::Mod => self.f_mod(),
            Prim::Less => self.f_less(),
            Prim::True => self.f_true(),
            Prim::False => self.f_false(),
            Prim::Equal => self.f_equal(),
            Prim::ZeroEqual => self.f_0equal(),
            Prim::ZeroLess => self.f_0less(),
            Prim::Dot => self.f_dot(),
            Prim::DotS => self.f_dot_s(),
            Prim::ShowStack => self.f_show_stack(),
            Prim::HideStack => self.f_hide_stack(),
            Prim::EmitP => self.f_emit_p(),
            Prim::Flush => self.f_flush(),
            Prim::Clear => self.f_clear(),
            Prim::Colon => self.f_colon(),
            Prim::Bye => self.f_bye(),
            Prim::Dup => self.f_dup(),
            Prim::Drop => self.f_drop(),
            Prim::Swap => self.f_swap(),
            Prim::Over => self.f_over(),
            Prim::Rot => self.f_rot(),
            Prim::Pick => self.f_pick(),
            Prim::Roll => self.f_roll(),
            Prim::And => self.f_and(),
            Prim::Or => self.f_or(),
            Prim::Get => self.f_get(),
            Prim::Store => self.f_store(),
            Prim::I => self.f_i(),
            Prim::J => self.f_j(),
            Prim::Abort => self.f_abort(),
            Prim::Depth => self.f_stack_depth(),
            Prim::Key => self.f_key(),
            Prim::IncludeFile => self.f_include_file(),
            Prim::Dbg => self.f_dbg(),
            Prim::DebugLevel => self.f_debuglevel(),
            Prim::ToR => self.f_to_r(),
            Prim::RFrom => self.f_r_from(),
            Prim::RGet => self.f_r_get(),
            Prim::Immediate => self.f_immediate(),
            Prim::Quit => self.f_quit(),
            Prim::Execute => self.execute_top(depth),
            Prim::Eval => self.f_eval(),
            Prim::NumberQ => self.f_number_q(),
            Prim::QUnique => self.f_q_unique(),
            Prim::Find => self.f_find(),
            Prim::TickP => self.f_tick_p(),
            Prim::Query => self.f_query(),
            Prim::Accept => self.f_accept(),
            Prim::ParseTo => self.f_parse_to(),
            Prim::ParseP => self.f_parse_p(),
            Prim::Create => self.f_create(),
            Prim::SMove => self.f_smove(),
            Prim::Comma => self.f_comma(),
            Prim::Semicolon => self.f_semicolon(),
            Prim::ImmediateQ => self.f_immediate_q(),
            Prim::See => self.f_see(),
            Prim::SCreate => self.f_s_create(),
            Prim::SCopy => self.f_s_copy(),
            Prim::CGet => self.f_c_get(),
            Prim::CStore => self.f_c_store(),
            Prim::Now => self.f_now(),
            Prim::Micros => self.f_micros(),
            Prim::Millis => self.f_millis(),
            Prim::OpenFile => self.f_open_file(),
            Prim::CloseFile => self.f_close_file(),
            Prim::ReadLine => self.f_read_line(),
            Prim::WriteLine => self.f_write_line(),
            Prim::FilePosition => self.f_file_position(),
            Prim::FileSize => self.f_file_size(),
            Prim::SystemP => self.f_system_p(),
            Prim::Ms => self.f_ms(),
            Prim::RawModeOn => self.f_raw_mode_on(),
            Prim::RawModeOff => self.f_raw_mode_off(),
            Prim::RawModeQ => self.f_raw_mode_q(),
            Prim::ToC => self.f_to_c(),
            Prim::FromC => self.f_from_c(),
            Prim::BuiltinName => self.f_builtin_name(),
        }
    }
}

} // verus!
