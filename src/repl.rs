//! The read-evaluate cycle, driven by the host: each cycle clears the abort
//! flag, reads a line from the current source, evaluates it, and prompts.
use crate::console::{items_text, queried, write_bytes};
use crate::builtin::Prim;
use crate::inner::{builtin_executed, frame_kept, is_builtin_ref, moves_frames, prim_effect, ran, ran_chain, Status};
use crate::kernel::ADDRESS_MASK;
use crate::kernel::{counted, BUF_SIZE, STRING_SIZE};
use crate::messages::MsgKind;
use crate::runtime::{ForthRuntime, HostOp, CONSTANT, TRUE, VARIABLE};
use vstd::prelude::*;
use vstd::string::{is_ascii_spec_bytes, StringSliceAdditionalSpecFns};

verus! {

/// The steps `run_forth_word` allows a word before it gives up.
pub const WORD_FUEL: u64 = 1000000;

/// The console prompt, `ok> `.
pub open spec fn prompt() -> Seq<u8> {
    seq![111u8, 107u8, 62u8, 32u8]
}

/// What the host must do next in a cycle.
#[derive(Clone, Copy, Debug, PartialEq, Eq, Structural)]
pub enum Cycle {
    /// The session is over.
    Exit,
    /// Read a console line and hand it over with `accept_console_line`.
    NeedLine,
    /// A line is in the input buffer: call `run` until it is done.
    Ready,
}

/// `new` is `old` at the start of a cycle: the abort flag is cleared and
/// both stacks are as they were.
pub open spec fn cycle_begun(old: ForthRuntime, new: ForthRuntime) -> bool {
    &&& new.wf()
    &&& !new.aborted()
    &&& new.kernel.stack_ptr == old.kernel.stack_ptr
    &&& new.kernel.return_ptr == old.kernel.return_ptr
    &&& new.stack().len() == old.stack().len()
    &&& new.kernel.ret_stack().len() == old.kernel.ret_stack().len()
}

/// `mid` is `old` with the line `b` loaded into TIB (at most BUF_SIZE - 1
/// bytes), `#tib` its length, `>in` 1, the abort flag clear and evaluation
/// about to start; the stacks are as they were.
pub open spec fn line_loaded(old: ForthRuntime, mid: ForthRuntime, b: Seq<u8>) -> bool {
    let tib = old.kernel.heap@[old.tib_ptr as int];
    let n = if b.len() < BUF_SIZE - 1 { b.len() as int } else { BUF_SIZE - 1 };
    &&& mid.wf()
    &&& mid.evaluating
    &&& mid.pc == 0
    &&& old.vars_clear() && 0 <= tib < STRING_SIZE - BUF_SIZE ==> {
        &&& counted(mid.kernel.strings@, tib as int) == b.subrange(0, n)
        &&& mid.kernel.heap@[old.tib_size_ptr as int] == n
        &&& mid.kernel.heap@[old.tib_in_ptr as int] == 1
        &&& !mid.aborted()
        &&& mid.stack() == old.stack()
        &&& mid.pending == old.pending
        &&& mid.kernel.return_ptr == old.kernel.return_ptr
        &&& mid.same_pointers(&old)
        &&& mid.reader@ == old.reader@
    }
}

/// `new` is `mid` after the word named by the counted string on top of
/// `mid`'s stack was looked up and run: an unknown name aborts; a variable
/// or constant leaves its address or value.
pub open spec fn word_outcome(mid: ForthRuntime, new: ForthRuntime) -> bool {
    let st = mid.stack();
    let s = st.last();
    let found = if mid.valid_string(s) { mid.lookup(counted(mid.kernel.strings@, s as int)) } else { 0 };
    mid.kernel.depth() >= 1 && mid.has_room() && !mid.aborted() && mid.abort_ptr < mid.kernel.stack_ptr - 1 ==> {
        &&& found == 0 ==> new.is_reset()
        &&& 0 < found && found + 1 < mid.kernel.stack_ptr - 1 ==> {
            let tag = mid.kernel.heap@[found];
            &&& tag == VARIABLE ==> new.stack() == st.drop_last().push((found + 1) as i64)
            &&& tag == CONSTANT ==> new.stack() == st.drop_last().push(mid.kernel.heap@[found + 1])
            &&& is_builtin_ref(tag) && ((tag as u64 & ADDRESS_MASK) as int) < mid.kernel.builtins@.len()
                && mid.pc == 0 && !moves_frames(mid.kernel.builtins@[(tag as u64 & ADDRESS_MASK) as int].code)
                ==> builtin_ran_on(st.drop_last(), new, mid.kernel.builtins@[(tag as u64 & ADDRESS_MASK) as int].code)
        }
    }
}

/// `new` is the result of builtin `p` run on a state whose data stack is `st`.
pub open spec fn builtin_ran_on(st: Seq<i64>, new: ForthRuntime, p: Prim) -> bool {
    exists|m: ForthRuntime| #![trigger prim_effect(m, new, p)] m.stack() == st && prim_effect(m, new, p)
}

impl ForthRuntime {
    /// Starts a cycle: false when the session is over; otherwise clears the abort flag.
    pub fn begin_cycle(&mut self) -> (r: bool)
        requires
            old(self).wf(),
        ensures
            final(self).stable(old(self)),
            r == !old(self).exit_flag,
            r ==> cycle_begun(*old(self), *final(self)),
    {
        if self.exit_flag {
            return false;
        }
        self.set_abort_flag(false);
        true
    }

    /// Reads the cycle's line: from a file source at once, or, for the
    /// console, by asking the host.
    pub fn query_line(&mut self) -> (r: Cycle)
        requires
            old(self).wf(),
        ensures
            final(self).kept(old(self)),
            final(self).exit_flag == old(self).exit_flag,
            (r == Cycle::Exit) == old(self).exit_flag,
            r == Cycle::Ready ==> final(self).evaluating && final(self).pc == 0,
            !old(self).exit_flag ==> queried(*old(self), *final(self)),
            !old(self).exit_flag && (final(self).pending matches Some(HostOp::ReadLine { .. })) ==> r
                == Cycle::NeedLine,
            !old(self).exit_flag && !(final(self).pending matches Some(HostOp::ReadLine { .. })) ==> r
                == Cycle::Ready,
    {
        if self.exit_flag {
            return Cycle::Exit;
        }
        self.f_query();
        match self.pending {
            Some(HostOp::ReadLine { .. }) => Cycle::NeedLine,
            _ => {
                self.start_eval();
                Cycle::Ready
            },
        }
    }

    /// Starts evaluating the line in the input buffer.
    pub fn start_eval(&mut self)
        requires
            old(self).wf(),
        ensures
            final(self).stable(old(self)),
            final(self).kernel == old(self).kernel,
            final(self).reader@ == old(self).reader@,
            final(self).pending == old(self).pending,
            final(self).msg == old(self).msg,
            final(self).out == old(self).out,
            final(self).evaluating,
            final(self).pc == 0,
    {
        self.evaluating = true;
        self.pc = 0;
    }

    /// Ends a cycle: at the console, shows the stack (when asked to) and the prompt.
    pub fn end_cycle(&mut self)
        requires
            old(self).wf(),
        ensures
            final(self).stable(old(self)),
            final(self).kernel == old(self).kernel,
            old(self).reader@.len() == 1 && old(self).show_stack ==> final(self).out@ == old(self).out@ + seq![
                91u8,
                32u8,
            ] + items_text(old(self).stack()) + seq![93u8, 32u8] + prompt(),
            old(self).reader@.len() == 1 && !old(self).show_stack ==> final(self).out@ == old(self).out@ + prompt(),
            old(self).reader@.len() != 1 ==> final(self).out@ == old(self).out@,
    {
        if self.reader.len() == 1 {
            if self.show_stack {
                self.f_dot_s();
            }
            proof {
                reveal_strlit("ok> ");
                is_ascii_spec_bytes("ok> ");
            }
            write_bytes(&mut self.out, "ok> ".as_bytes());
        }
    }

    /// Puts `line` (at most BUF_SIZE - 1 bytes of it) in the input buffer and
    /// resets `>in` to its first byte.
    pub fn load_line(&mut self, line: &str)
        requires
            old(self).wf(),
        ensures
            final(self).stable(old(self)),
            ({
                let tib = old(self).kernel.heap@[old(self).tib_ptr as int];
                let b = line.spec_bytes();
                let n = if b.len() < BUF_SIZE - 1 { b.len() as int } else { BUF_SIZE - 1 };
                old(self).vars_clear() && 0 <= tib < STRING_SIZE - BUF_SIZE ==> {
                    &&& counted(final(self).kernel.strings@, tib as int) == b.subrange(0, n)
                    &&& final(self).kernel.heap@[old(self).tib_size_ptr as int] == n
                    &&& final(self).kernel.heap@[old(self).tib_in_ptr as int] == 1
                    &&& final(self).stack() == old(self).stack()
                    &&& final(self).kernel.heap@ == old(self).kernel.heap@.update(old(self).tib_size_ptr as int, n as i64).update(
                        old(self).tib_in_ptr as int,
                        1,
                    )
                    &&& final(self).same_registers(old(self))
                    &&& final(self).kernel.return_ptr == old(self).kernel.return_ptr
                }
            }),
    {
        let tib = self.kernel.get(self.tib_ptr);
        if 0 <= tib && tib < (STRING_SIZE - BUF_SIZE) as i64 {
            let n = self.store_text(tib as usize, line);
            self.kernel.set(self.tib_size_ptr, n as i64);
            self.kernel.set(self.tib_in_ptr, 1);
            proof {
                if old(self).vars_clear() {
                    assert(self.stack() =~= old(self).stack());
                }
            }
        } else {
            self.f_abort_with(MsgKind::AddressOutOfRange, tib);
        }
    }

    fn store_text(&mut self, dest: usize, line: &str) -> (r: usize)
        requires
            old(self).wf(),
            dest + BUF_SIZE < STRING_SIZE,
        ensures
            final(self).stable(old(self)),
            r == (if line.spec_bytes().len() < BUF_SIZE - 1 { line.spec_bytes().len() as int } else { BUF_SIZE - 1 }),
            counted(final(self).kernel.strings@, dest as int) == line.spec_bytes().subrange(0, r as int),
            final(self).kernel.heap@ == old(self).kernel.heap@,
            final(self).kernel.stack_ptr == old(self).kernel.stack_ptr,
            final(self).kernel.return_ptr == old(self).kernel.return_ptr,
            final(self).same_registers(old(self)),
    {
        let bytes = line.as_bytes();
        let n = if bytes.len() < BUF_SIZE - 1 { bytes.len() } else { BUF_SIZE - 1 };
        let part = crate::console::slice_prefix(bytes, n);
        self.kernel.write_counted(part.as_slice(), dest);
        n
    }

    /// Evaluates `line` as one console cycle would, for at most `fuel` steps:
    /// clears the abort flag, loads the line and runs it.
    pub fn evaluate(&mut self, line: &str, fuel: u64) -> (r: Status)
        requires
            old(self).wf(),
        ensures
            final(self).kept(old(self)),
            exists|mid: ForthRuntime| #![trigger line_loaded(*old(self), mid, line.spec_bytes())]
                line_loaded(*old(self), mid, line.spec_bytes()) && ran(mid, *final(self), fuel, r) && ran_chain(
                    mid,
                    *final(self),
                    fuel,
                    r,
                ),
    {
        self.set_abort_flag(false);
        proof {
            if old(self).vars_clear() {
                assert(self.stack() =~= old(self).stack());
            }
        }
        self.load_line(line);
        self.start_eval();
        let ghost mid = *self;
        let r = self.run(fuel);
        assert(line_loaded(*old(self), mid, line.spec_bytes()));
        r
    }

    /// Runs the word named `name` to completion, as `execute` would; a name
    /// that is not defined aborts.
    pub fn run_forth_word(&mut self, name: &str)
        requires
            old(self).wf(),
        ensures
            final(self).kept(old(self)),
            ({
                let tmp = old(self).kernel.heap@[old(self).tmp_ptr as int];
                let b = name.spec_bytes();
                0 <= tmp && b.len() < 256 && tmp + 1 + b.len() < STRING_SIZE && old(self).vars_clear()
                    && old(self).room_for(2) && !old(self).aborted() && old(self).pc == 0 ==> exists|mid: ForthRuntime|
                    #![trigger word_outcome(mid, *final(self))]
                    mid.stack() == old(self).stack().push(tmp) && counted(mid.kernel.strings@, tmp as int) == b
                        && mid.kernel.stack_ptr == old(self).kernel.stack_ptr - 1 && word_outcome(mid, *final(self))
            }),
    {
        let tmp = self.kernel.get(self.tmp_ptr);
        let len = name.as_bytes().len();
        if !(0 <= tmp && len < 256 && tmp < STRING_SIZE as i64 - 1 - len as i64) {
            self.f_abort_with(MsgKind::AddressOutOfRange, tmp);
            return;
        }
        self.kernel.string_save(name, tmp as usize);
        let ghost s0 = *self;
        self.push(tmp);
        let ghost mid = *self;
        let ghost premise = old(self).vars_clear() && old(self).room_for(2) && !old(self).aborted() && old(self).pc == 0;
        proof {
            if premise {
                assert(s0.stack() =~= old(self).stack());
                assert(s0.has_room());
                assert(!mid.aborted());
                assert(mid.has_room());
            }
        }
        if self.get_abort_flag() {
            return;
        }
        let ghost token = tmp;
        let ghost valid = mid.valid_string(token);
        let ghost found = if valid { mid.lookup(counted(mid.kernel.strings@, token as int)) } else { 0 };
        self.f_find();
        let ghost s1 = *self;
        proof {
            if premise {
                assert(s1.kernel.heap@[s1.abort_ptr as int] == mid.kernel.heap@[mid.abort_ptr as int]);
            }
        }
        if self.get_abort_flag() || self.kernel.stack_len() < 2 {
            return;
        }
        if self.pop() == TRUE {
            let ghost s2 = *self;
            proof {
                if premise {
                    assert(s2.stack() =~= s1.stack().drop_last());
                    assert(s2.stack() == mid.stack().drop_last().push(found as i64));
                    assert(0 < found && found + 1 < mid.kernel.stack_ptr - 1 ==> s2.kernel.heap@[found]
                        == mid.kernel.heap@[found] && s2.kernel.heap@[found + 1] == mid.kernel.heap@[found + 1]);
                    assert(s2.stack().drop_last() =~= mid.stack().drop_last());
                }
            }
            self.f_execute();
            let ghost s3 = *self;
            if self.pc != 0 {
                self.run(WORD_FUEL);
            }
            proof {
                if premise && 0 < found && found + 1 < mid.kernel.stack_ptr - 1 {
                    let tag = mid.kernel.heap@[found];
                    let idx = (tag as u64 & ADDRESS_MASK) as int;
                    if is_builtin_ref(tag) && idx < mid.kernel.builtins@.len() && mid.pc == 0 && !moves_frames(
                        mid.kernel.builtins@[idx].code,
                    ) {
                        assert(s2.pc == 0);
                        assert(s2.kernel.heap@[found] == tag);
                        assert(s2.stack().last() == found);
                        assert(s3.pc == 0);
                        assert(*self == s3);
                        let pr = mid.kernel.builtins@[idx].code;
                        assert(builtin_executed(s2, s3));
                        let m = choose|m: ForthRuntime|
                            #![trigger prim_effect(m, s3, pr)]
                            m.stack() == s2.stack().drop_last() && m.kernel.stack_ptr == s2.kernel.stack_ptr + 1
                                && m.kernel.heap@ == s2.kernel.heap@ && m.pc == s2.pc && m.kernel.return_ptr
                                == s2.kernel.return_ptr && prim_effect(m, s3, pr) && (!moves_frames(pr)
                                ==> frame_kept(m, s3));
                        assert(m.stack() == mid.stack().drop_last());
                        assert(prim_effect(m, *self, pr));
                        assert(builtin_ran_on(mid.stack().drop_last(), *self, pr));
                    }
                }
            }
        } else {
            self.pop();
            self.f_abort();
        }
        proof {
            if premise {
                assert(word_outcome(mid, *self));
            }
        }
    }
}

} // verus!
