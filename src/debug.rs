//! The decompiler: `see` writes a readable form of a word to the output.
use crate::compiler::tick_ok;
use crate::console::{write_bytes, write_number};
use crate::inner::{builtin_ref, frame_kept};
use crate::kernel::{ADDRESS_MASK, DATA_SIZE, STRING_SIZE};
use crate::messages::MsgKind;
use crate::runtime::{
    mask_address, ForthRuntime, ABORT, BRANCH, BRANCH0, BREAK, CONSTANT, DEFINITION, EXEC, EXIT,
    IMMEDIATE_FLAG, LITERAL, STRLIT, VARIABLE,
};
use vstd::prelude::*;

verus! {

impl ForthRuntime {
    /// Writes the counted string whose address a cell holds (flags cleared).
    fn write_string_at(&mut self, cell: i64)
        requires
            old(self).wf(),
        ensures
            final(self).kernel == old(self).kernel,
            final(self).stable(old(self)),
            final(self).msg == old(self).msg,
            final(self).pc == old(self).pc,
    {
        if let Some(a) = mask_address(cell) {
            if a < STRING_SIZE as u64 && self.string_ok(a as i64) {
                let s = self.kernel.counted_bytes(a as usize);
                write_bytes(&mut self.out, s.as_slice());
            }
        }
    }

    /// Writes the name of the word whose code field is at `cfa`.
    fn write_word_name(&mut self, cfa: i64)
        requires
            old(self).wf(),
        ensures
            final(self).kernel == old(self).kernel,
            final(self).stable(old(self)),
            final(self).msg == old(self).msg,
            final(self).pc == old(self).pc,
    {
        if 1 <= cfa && cfa < DATA_SIZE as i64 {
            let nfa = self.kernel.get(cfa as usize - 1);
            self.write_string_at(nfa);
        }
    }

    /// Writes the name of builtin `index`.
    fn write_builtin_name(&mut self, index: u64, doc: bool)
        requires
            old(self).wf(),
        ensures
            final(self).kernel == old(self).kernel,
            final(self).stable(old(self)),
            final(self).msg == old(self).msg,
            final(self).pc == old(self).pc,
    {
        if index < self.kernel.builtins.len() as u64 {
            let b = self.kernel.get_builtin(index as usize);
            let text = if doc { b.doc.as_str().as_bytes() } else { b.name.as_str().as_bytes() };
            write_bytes(&mut self.out, text);
        }
    }

    /// see <name> ( -- ) writes the definition of a word: the documentation of
    /// a builtin, the compiled cells of a colon definition, or the value of a
    /// variable or constant.
    pub fn f_see(&mut self)
        requires
            old(self).wf(),
        ensures
            frame_kept(*old(self), *final(self)),
            final(self).stable(old(self)),
            tick_ok(*old(self)) ==> final(self).stack() == old(self).stack() && final(self).kernel.stack_ptr
                == old(self).kernel.stack_ptr && (forall|a: int|
                0 <= a < old(self).kernel.stack_ptr - 1 && a != old(self).tib_in_ptr ==> #[trigger] final(self).kernel.heap@[a]
                    == old(self).kernel.heap@[a]),
    {
        self.f_tick_p();
        if self.get_abort_flag() || self.kernel.stack_len() < 1 {
            return;
        }
        let cfa = self.pop();
        let ghost k = self.kernel;
        proof {
            if tick_ok(*old(self)) {
                assert(self.stack() =~= old(self).stack());
                assert(forall|a: int|
                    0 <= a < old(self).kernel.stack_ptr - 1 && a != old(self).tib_in_ptr ==> #[trigger] k.heap@[a]
                        == old(self).kernel.heap@[a]);
            }
        }
        if cfa <= 0 || cfa >= DATA_SIZE as i64 - 1 {
            self.msg.warning(MsgKind::WordNotFound, Vec::new());
            return;
        }
        let c = cfa as usize;
        let nfa = self.kernel.get(c - 1);
        let xt = self.kernel.get(c);
        if builtin_ref(xt) {
            write_bytes(&mut self.out, "Builtin: ".as_bytes());
            self.write_builtin_name(xt as u64 & ADDRESS_MASK, true);
            self.out.push(10u8);
        } else if xt == DEFINITION {
            write_bytes(&mut self.out, ": ".as_bytes());
            self.write_string_at(nfa);
            self.out.push(32u8);
            let mut index: usize = c + 1;
            while index + 1 < DATA_SIZE
                invariant
                    self.stable(old(self)),
                    index <= DATA_SIZE,
                    self.kernel == k,
                    self.pc == old(self).pc,
                    self.kernel.return_ptr == old(self).kernel.return_ptr,
                    tick_ok(*old(self)) ==> self.stack() == old(self).stack() && self.kernel.stack_ptr
                        == old(self).kernel.stack_ptr,
                    tick_ok(*old(self)) ==> forall|a: int|
                        0 <= a < old(self).kernel.stack_ptr - 1 && a != old(self).tib_in_ptr ==> #[trigger] k.heap@[a]
                            == old(self).kernel.heap@[a],
                decreases DATA_SIZE - index,
            {
                let cell = self.kernel.get(index);
                let next = self.kernel.get(index + 1);
                if cell == LITERAL {
                    write_number(&mut self.out, next);
                    self.out.push(32u8);
                    index = index + 1;
                } else if cell == STRLIT {
                    write_bytes(&mut self.out, "\" ".as_bytes());
                    self.write_string_at(next);
                    write_bytes(&mut self.out, "\" ".as_bytes());
                    index = index + 1;
                } else if cell == BRANCH {
                    write_bytes(&mut self.out, "branch:".as_bytes());
                    write_number(&mut self.out, next);
                    self.out.push(32u8);
                    index = index + 1;
                } else if cell == BRANCH0 {
                    write_bytes(&mut self.out, "branch0:".as_bytes());
                    write_number(&mut self.out, next);
                    self.out.push(32u8);
                    index = index + 1;
                } else if cell == ABORT {
                    write_bytes(&mut self.out, "abort ".as_bytes());
                } else if cell == BREAK {
                    write_bytes(&mut self.out, "exit ".as_bytes());
                } else if cell == EXEC {
                    write_bytes(&mut self.out, "exec ".as_bytes());
                } else if cell == EXIT {
                    write_bytes(&mut self.out, "; ".as_bytes());
                    if nfa >= 0 && (nfa as u64 & IMMEDIATE_FLAG) != 0 {
                        write_bytes(&mut self.out, "immediate".as_bytes());
                    }
                    self.out.push(10u8);
                    return;
                } else if builtin_ref(cell) {
                    self.write_builtin_name(cell as u64 & ADDRESS_MASK, false);
                    self.out.push(32u8);
                } else {
                    self.write_word_name(cell);
                    self.out.push(32u8);
                }
                index = index + 1;
            }
            self.out.push(10u8);
        } else if xt == CONSTANT {
            write_bytes(&mut self.out, "Constant: ".as_bytes());
            self.write_string_at(nfa);
            write_bytes(&mut self.out, " = ".as_bytes());
            write_number(&mut self.out, self.kernel.get(c + 1));
            self.out.push(10u8);
        } else if xt == VARIABLE {
            write_bytes(&mut self.out, "Variable: ".as_bytes());
            self.write_string_at(nfa);
            write_bytes(&mut self.out, " = ".as_bytes());
            write_number(&mut self.out, self.kernel.get(c + 1));
            self.out.push(10u8);
        } else {
            self.msg.error(MsgKind::NotExecutable, xt);
        }
    }
}

} // verus!
