//! The outer interpreter: parsing tokens from the input line, compiling them
//! into definitions, or running them at once.
use crate::kernel::{counted, counted_fits, with_counted, ADDRESS_MASK, DATA_SIZE, STRING_SIZE};
use crate::messages::MsgKind;
use crate::general::{top, second, underflowed};
use crate::console::clone_bytes as clone_name;
use crate::parser::{decimal, parse_decimal, scan_token, skipped, token_end};
use crate::kernel::ALLOC_START;
use crate::general::{arith_result, is_arith};
use crate::inner::{builtin_executed, executed, is_builtin_ref};
use crate::runtime::{masked, IMMEDIATE_FLAG, ForthRuntime, CONSTANT, DEFINITION, EXIT, FALSE, LITERAL, TRUE, BUILTIN_FLAG, VARIABLE};
use crate::inner::frame_kept;
use vstd::prelude::*;

verus! {

impl ForthRuntime {
    /// The basic invariants hold and the machine's layout is as in `old`.
    pub open spec fn stable(&self, old: &ForthRuntime) -> bool {
        &&& self.kept(old)
        &&& self.exit_flag == old.exit_flag
    }

    /// The basic invariants hold and the machine's layout is as in `old`,
    /// though the session may have been ended.
    pub open spec fn kept(&self, old: &ForthRuntime) -> bool {
        &&& self.wf()
        &&& self.same_pointers(old)
        &&& self.kernel.builtins@ == old.kernel.builtins@
        &&& self.kernel.string_ptr == old.kernel.string_ptr
    }

    /// The cells from HERE to HERE + k - 1 can take compiled code: they lie
    /// below the data stack's lowest cell once the top item is popped, and do
    /// not hold HERE itself.
    pub open spec fn code_room(&self, k: int) -> bool {
        let h = self.here_val();
        &&& 0 <= h
        &&& h + k - 1 < self.kernel.stack_ptr
        &&& (self.here_ptr < h || self.here_ptr >= h + k)
        &&& self.here_ptr < self.kernel.stack_ptr
    }

    /// , ( n -- ) compiles `n` into the dictionary at HERE and advances HERE.
    pub fn f_comma(&mut self)
        requires
            old(self).wf(),
        ensures
            frame_kept(*old(self), *final(self)),
            final(self).stable(old(self)),
            old(self).kernel.depth() < 1 ==> final(self).is_reset(),
            old(self).kernel.depth() >= 1 && old(self).code_room(1) ==> {
                let h = old(self).here_val();
                &&& final(self).kernel.heap@ == old(self).kernel.heap@.update(h, old(self).stack().last()).update(
                    old(self).here_ptr as int,
                    (h + 1) as i64,
                )
                &&& final(self).stack() == old(self).stack().drop_last()
                &&& final(self).kernel.strings@ == old(self).kernel.strings@
                &&& final(self).msg == old(self).msg
                &&& final(self).same_registers(old(self))
            },
    {
        if self.need(1) {
            let val = self.pop();
            let ghost popped = *self;
            self.emit_cell(val);
            proof {
                if old(self).code_room(1) {
                    assert(self.stack() =~= popped.stack());
                }
            }
        }
    }

    /// literal ( n -- ) compiles `n` as a two-cell literal: the LITERAL tag, then `n`.
    pub fn f_literal(&mut self)
        requires
            old(self).wf(),
        ensures
            final(self).stable(old(self)),
            old(self).kernel.depth() < 1 ==> final(self).is_reset(),
            old(self).kernel.depth() >= 1 && old(self).code_room(2) ==> literal_compiled(
                *old(self),
                *final(self),
                old(self).stack().last(),
            ),
    {
        if self.need(1) {
            let val = self.pop();
            let ghost popped = *self;
            self.emit_cell(LITERAL);
            self.emit_cell(val);
            proof {
                if old(self).code_room(2) {
                    let h = old(self).here_val();
                    assert(self.stack() =~= popped.stack());
                    assert(self.kernel.heap@ =~= old(self).kernel.heap@.update(h, LITERAL).update(h + 1, val).update(
                        old(self).here_ptr as int,
                        (h + 2) as i64,
                    ));
                }
            }
        }
    }
}

impl ForthRuntime {
    /// The counted string at `s` lies in the string arena.
    pub open spec fn valid_string(&self, s: i64) -> bool {
        0 <= s < STRING_SIZE && counted_fits(self.kernel.strings@, s as int)
    }

    /// Whether the cell `s` addresses a counted string that lies in the string arena.
    pub fn string_ok(&self, s: i64) -> (r: bool)
        requires
            self.wf(),
        ensures
            r == self.valid_string(s),
    {
        0 <= s && s < STRING_SIZE as i64 && (s as usize) + 1 + (self.kernel.strings[s as usize] as usize) <= STRING_SIZE
    }

    /// number? ( s -- n T | s F ) converts the counted string at `s` to a number,
    /// in base 10 whatever BASE holds.
    pub fn f_number_q(&mut self)
        requires
            old(self).wf(),
        ensures
            frame_kept(*old(self), *final(self)),
            final(self).stable(old(self)),
            old(self).kernel.depth() < 1 ==> final(self).is_reset(),
            old(self).kernel.depth() >= 1 && old(self).has_room() ==> {
                let s = old(self).stack().last();
                let v = if old(self).valid_string(s) {
                    decimal(counted(old(self).kernel.strings@, s as int))
                } else {
                    None
                };
                &&& v is Some ==> final(self).stack() == old(self).stack().drop_last().push(v->0).push(TRUE)
                &&& v is None ==> final(self).stack() == old(self).stack().push(FALSE)
                &&& final(self).msg == old(self).msg
                &&& final(self).kernel.strings@ == old(self).kernel.strings@
                &&& final(self).framed(old(self))
            },
    {
        if self.need(1) {
            let s = self.pop();
            let mut v: Option<i64> = None;
            if self.string_ok(s) {
                let bytes = self.kernel.counted_bytes(s as usize);
                v = parse_decimal(bytes.as_slice());
            }
            match v {
                Some(n) => {
                    self.kernel.push(n);
                    self.push(TRUE);
                },
                None => {
                    self.kernel.push(s);
                    self.push(FALSE);
                },
            }
            proof {
                if old(self).has_room() {
                    assert(self.kernel.ret_stack() =~= old(self).kernel.ret_stack());
                }
            }
        }
    }

    /// (parse) ( b u c -- b u delta ) finds the `c`-delimited token in the `u`
    /// bytes of string space from `b`: its length `u` and the number of
    /// delimiters skipped before it, `delta`. An empty window gives 0 0.
    pub fn f_parse_p(&mut self)
        requires
            old(self).wf(),
        ensures
            frame_kept(*old(self), *final(self)),
            final(self).stable(old(self)),
            final(self).kernel.strings@ == old(self).kernel.strings@,
            old(self).kernel.depth() < 3 ==> final(self).is_reset(),
            old(self).kernel.depth() >= 3 ==> {
                let st = old(self).stack();
                let b = st[st.len() - 3];
                let u = st[st.len() - 2];
                let c = st.last();
                let base = st.drop_last().drop_last().drop_last();
                let window = old(self).kernel.strings@.subrange(b as int, b + u);
                &&& u <= 0 ==> final(self).stack() == base.push(b).push(0).push(0)
                &&& u > 0 && 0 <= b && b + u <= STRING_SIZE ==> exists|i: int, n: int|
                    #![trigger skipped(window, c as u8, i, u as int), token_end(window, c as u8, i, i + n, u as int)]
                    skipped(window, c as u8, i, u as int) && token_end(window, c as u8, i, i + n, u as int)
                        && final(self).stack() == base.push(b).push(n as i64).push(i as i64)
                &&& u > 0 && !(0 <= b && b + u <= STRING_SIZE) ==> final(self).is_reset()
                &&& !(u > 0 && !(0 <= b && b + u <= STRING_SIZE)) ==> final(self).msg == old(self).msg
            },
    {
        if self.need(3) {
            let delim = self.pop();
            let buf_len = self.pop();
            let in_p = self.pop();
            if buf_len > 0 {
                if 0 <= in_p && in_p < STRING_SIZE as i64 && buf_len <= STRING_SIZE as i64 - in_p {
                    let buffer = self.kernel.string_slice(in_p as usize, buf_len as usize);
                    let (i, n) = scan_token(buffer.as_slice(), buf_len as usize, delim as u8);
                    self.kernel.push(in_p);
                    self.kernel.push(n as i64);
                    self.kernel.push(i as i64);
                } else {
                    self.f_abort_with(MsgKind::AddressOutOfRange, in_p);
                }
            } else {
                self.kernel.push(in_p);
                self.kernel.push(0);
                self.kernel.push(0);
            }
        }
    }
}

/// The unread part of the input line: TIB holds a counted string, `>in`
/// indexes its next byte (1 for the first), `#tib` is its length.
pub open spec fn input_window(rt: ForthRuntime) -> Seq<u8> {
    let tib = rt.kernel.heap@[rt.tib_ptr as int] as int;
    let inp = rt.kernel.heap@[rt.tib_in_ptr as int] as int;
    let size = rt.kernel.heap@[rt.tib_size_ptr as int] as int;
    if size - inp + 1 > 0 {
        rt.kernel.strings@.subrange(tib + inp, tib + size + 1)
    } else {
        Seq::empty()
    }
}

/// The input-line variables describe a window inside the string arena.
pub open spec fn input_ok(rt: ForthRuntime) -> bool {
    let tib = rt.kernel.heap@[rt.tib_ptr as int] as int;
    let inp = rt.kernel.heap@[rt.tib_in_ptr as int] as int;
    let size = rt.kernel.heap@[rt.tib_size_ptr as int] as int;
    &&& 0 <= tib < STRING_SIZE
    &&& 0 <= inp <= STRING_SIZE
    &&& 0 <= size <= STRING_SIZE
    &&& (size - inp + 1 > 0 ==> tib + size + 1 <= STRING_SIZE)
}

impl ForthRuntime {
    /// parse-to ( b d -- b u ) takes the next `d`-delimited token of the input
    /// line, copies it as a counted string to `b`, and moves `>in` past it and
    /// its delimiter; `u` is its length, 0 at the end of the line. The
    /// delimiter value 1 is reserved: it discards the rest of the line.
    pub fn f_parse_to(&mut self)
        requires
            old(self).wf(),
        ensures
            frame_kept(*old(self), *final(self)),
            final(self).stable(old(self)),
            old(self).kernel.depth() < 2 ==> underflowed(*old(self), *final(self)),
            old(self).kernel.depth() >= 2 && top(old(self).stack()) == 1 && old(self).vars_clear() ==> {
                &&& final(self).stack() == old(self).stack().drop_last().drop_last().push(
                    old(self).kernel.heap@[old(self).tib_ptr as int],
                ).push(0)
                &&& final(self).kernel.heap@[old(self).tib_size_ptr as int] == 0
                &&& final(self).kernel.heap@[old(self).tib_in_ptr as int] == 1
                &&& final(self).kernel.strings@ == old(self).kernel.strings@
            },
            old(self).kernel.depth() >= 2 && top(old(self).stack()) != 1 && input_ok(*old(self))
                && !old(self).aborted_after_parse() && old(self).vars_clear() ==> {
                let w = input_window(*old(self));
                let d = top(old(self).stack()) as u8;
                let dest = second(old(self).stack());
                exists|i: int, n: int|
                    #![trigger skipped(w, d, i, w.len() as int), token_end(w, d, i, i + n, w.len() as int)]
                    skipped(w, d, i, w.len() as int) && token_end(w, d, i, i + n, w.len() as int)
                        && final(self).stack() == old(self).stack().drop_last().drop_last().push(dest).push(n as i64)
                        && (n > 0 ==> counted(final(self).kernel.strings@, dest as int) == w.subrange(i, i + n))
                        && (n == 0 ==> final(self).kernel.strings@ == old(self).kernel.strings@)
                        && final(self).kernel.heap@[old(self).tib_in_ptr as int] == old(self).kernel.heap@[old(
                        self,
                    ).tib_in_ptr as int] + i + n + 1
            },
    {
        if !self.need(2) {
            return;
        }
        let delim = self.pop();
        let dest = self.pop();
        if delim == 1 {
            self.kernel.set(self.tib_in_ptr, 1);
            self.kernel.set(self.tib_size_ptr, 0);
            let tib = self.kernel.get(self.tib_ptr);
            self.kernel.push(tib);
            self.kernel.push(0);
            proof {
                if old(self).vars_clear() {
                    assert(self.stack() =~= old(self).stack().drop_last().drop_last().push(tib).push(0));
                }
            }
            return;
        }
        let tib = self.kernel.get(self.tib_ptr);
        let inp = self.kernel.get(self.tib_in_ptr);
        let size = self.kernel.get(self.tib_size_ptr);
        if !(0 <= tib && tib < STRING_SIZE as i64 && 0 <= inp && inp <= STRING_SIZE as i64 && 0 <= size && size
            <= STRING_SIZE as i64) {
            self.f_abort_with(MsgKind::AddressOutOfRange, tib);
            return;
        }
        let avail = size - inp + 1;
        let mut skip: usize = 0;
        let mut n: usize = 0;
        let ghost w = input_window(*old(self));
        if avail > 0 {
            if tib + size + 1 > STRING_SIZE as i64 {
                self.f_abort_with(MsgKind::AddressOutOfRange, tib);
                return;
            }
            let start = (tib + inp) as usize;
            let window = self.kernel.string_slice(start, avail as usize);
            assert(window@ == w);
            let (i, len) = scan_token(window.as_slice(), avail as usize, delim as u8);
            skip = i;
            n = len;
            if n > 0 {
                if !(0 <= dest && dest < STRING_SIZE as i64 && n < 256 && (dest as usize) + 1 + n <= STRING_SIZE) {
                    self.f_abort_with(MsgKind::AddressOutOfRange, dest);
                    return;
                }
                self.kernel.string_copy(start + skip, dest as usize, n, false);
                assert(counted(self.kernel.strings@, dest as int) =~= w.subrange(skip as int, skip + n));
            }
        } else {
            assert(w.len() == 0);
        }
        let ghost strings_now = self.kernel.strings@;
        let next = inp + skip as i64 + n as i64 + 1;
        self.kernel.set(self.tib_in_ptr, next);
        self.kernel.push(dest);
        self.kernel.push(n as i64);
        proof {
            if old(self).vars_clear() {
                assert(self.stack() =~= old(self).stack().drop_last().drop_last().push(dest).push(n as i64));
            }
        }
        assert(skipped(w, delim as u8, skip as int, w.len() as int) && token_end(
            w,
            delim as u8,
            skip as int,
            skip + n,
            w.len() as int,
        ));
    }

    /// Whether `parse-to` would have to report a bad destination: a token was
    /// found but does not fit at the destination.
    pub open spec fn aborted_after_parse(&self) -> bool {
        let w = input_window(*self);
        let d = top(self.stack()) as u8;
        let dest = second(self.stack());
        exists|i: int, n: int|
            #![trigger skipped(w, d, i, w.len() as int), token_end(w, d, i, i + n, w.len() as int)]
            skipped(w, d, i, w.len() as int) && token_end(w, d, i, i + n, w.len() as int) && n > 0 && !(0 <= dest
                && dest < STRING_SIZE && n < 256 && dest + 1 + n <= STRING_SIZE)
    }
}

impl ForthRuntime {
    /// s-move ( src n dest -- dest ) copies `n` bytes of the counted string at
    /// `src` to a counted string at `dest`.
    pub fn f_smove(&mut self)
        requires
            old(self).wf(),
        ensures
            frame_kept(*old(self), *final(self)),
            final(self).stable(old(self)),
            old(self).kernel.depth() < 3 ==> underflowed(*old(self), *final(self)),
            ({
                let st = old(self).stack();
                let dest = top(st);
                let n = second(st);
                let src = st[st.len() - 3];
                old(self).kernel.depth() >= 3 && 0 <= dest && 0 <= n < 256 && 0 <= src && dest + 1 + n <= STRING_SIZE
                    && src + 1 + n <= STRING_SIZE ==> {
                    &&& final(self).stack() == st.subrange(0, st.len() - 3).push(dest)
                    &&& final(self).kernel.strings@ == with_counted(
                        old(self).kernel.strings@,
                        dest as int,
                        old(self).kernel.strings@.subrange(src + 1, src + 1 + n),
                    )
                }
            }),
    {
        if !self.need(3) {
            return;
        }
        let dest = self.pop();
        let length = self.pop();
        let source = self.pop();
        if 0 <= dest && 0 <= length && length < 256 && 0 <= source && dest < STRING_SIZE as i64 && source
            < STRING_SIZE as i64 && (dest as usize) + 1 + (length as usize) <= STRING_SIZE && (source as usize) + 1
            + (length as usize) <= STRING_SIZE {
            self.kernel.string_copy(source as usize, dest as usize, length as usize, true);
            self.kernel.push(dest);
            assert(self.stack() =~= old(self).stack().subrange(0, old(self).stack().len() - 3).push(dest));
        } else {
            self.f_abort_with(MsgKind::AddressOutOfRange, dest);
        }
    }

    /// ?unique ( s -- s ) warns when the name at `s` is already defined.
    pub fn f_q_unique(&mut self)
        requires
            old(self).wf(),
        ensures
            frame_kept(*old(self), *final(self)),
            final(self).stable(old(self)),
            old(self).kernel.depth() < 1 ==> underflowed(*old(self), *final(self)),
            ({
                let s = top(old(self).stack());
                let defined = old(self).valid_string(s) && old(self).lookup(
                    counted(old(self).kernel.strings@, s as int),
                ) != 0;
                old(self).kernel.depth() >= 1 ==> {
                    &&& final(self).kernel == old(self).kernel
                    &&& defined ==> final(self).msg.log@.len() == old(self).msg.log@.len() + 1
                        && final(self).msg.log@.last().kind == MsgKind::Redefinition
                    &&& !defined ==> final(self).msg == old(self).msg
                }
            }),
    {
        if !self.need(1) {
            return;
        }
        let s = self.kernel.top();
        if self.string_ok(s) && self.find_word(s as usize) != 0 {
            let name = self.kernel.counted_bytes(s as usize);
            self.msg.warning(MsgKind::Redefinition, name);
        }
    }

    /// Takes the next `delim`-delimited token of the input line and moves
    /// `>in` past it and its delimiter; `None` at the end of the line.
    pub fn take_token(&mut self, delim: u8) -> (r: Option<Vec<u8>>)
        requires
            old(self).wf(),
        ensures
            r is Some ==> final(self).pc == old(self).pc && final(self).kernel.return_ptr == old(self).kernel.return_ptr,
            frame_kept(*old(self), *final(self)),
            final(self).stable(old(self)),
            !input_ok(*old(self)) ==> final(self).is_reset(),
            input_ok(*old(self)) && old(self).vars_clear() ==> token_taken(*old(self), *final(self), delim, r),
    {
        let tib = self.kernel.get(self.tib_ptr);
        let inp = self.kernel.get(self.tib_in_ptr);
        let size = self.kernel.get(self.tib_size_ptr);
        if !(0 <= tib && tib < STRING_SIZE as i64 && 0 <= inp && inp <= STRING_SIZE as i64 && 0 <= size && size
            <= STRING_SIZE as i64) {
            self.f_abort_with(MsgKind::AddressOutOfRange, tib);
            return None;
        }
        let avail = size - inp + 1;
        let ghost w = input_window(*old(self));
        if avail <= 0 {
            assert(w.len() == 0);
            self.kernel.set(self.tib_in_ptr, inp + 1);
            proof {
                let i0: int = 0;
                let n0: int = 0;
                assert(skipped(w, delim, i0, w.len() as int) && token_end(w, delim, i0, i0 + n0, w.len() as int));
                assert(self.kernel.heap@ == old(self).kernel.heap@.update(
                    old(self).tib_in_ptr as int,
                    (inp + i0 + n0 + 1) as i64,
                ));
            }
            proof {
                if old(self).vars_clear() {
                    assert(self.stack() =~= old(self).stack());
                }
            }
            return None;
        }
        if tib + size + 1 > STRING_SIZE as i64 {
            self.f_abort_with(MsgKind::AddressOutOfRange, tib);
            return None;
        }
        let start = (tib + inp) as usize;
        let window = self.kernel.string_slice(start, avail as usize);
        assert(window@ == w);
        let (i, n) = scan_token(window.as_slice(), avail as usize, delim);
        let token = crate::console::slice_prefix(&window.as_slice()[i..i + n], n);
        self.kernel.set(self.tib_in_ptr, inp + i as i64 + n as i64 + 1);
        proof {
            if old(self).vars_clear() {
                assert(self.stack() =~= old(self).stack());
            }
        }
        assert(token@ =~= w.subrange(i as int, i + n));
        assert(skipped(w, delim, i as int, w.len() as int) && token_end(w, delim, i as int, i + n, w.len() as int));
        if n > 0 {
            Some(token)
        } else {
            None
        }
    }

    /// Reads the next space-delimited token of the input line into PAD;
    /// returns its length (0 at the end of the line).
    pub fn next_token(&mut self) -> (r: usize)
        requires
            old(self).wf(),
        ensures
            frame_kept(*old(self), *final(self)),
            final(self).stable(old(self)),
            input_ok(*old(self)) && old(self).vars_clear() && next_name(*old(self)) is None ==> {
                &&& r == 0
                &&& final(self).stack() == old(self).stack()
                &&& final(self).aborted() == old(self).aborted()
            },
            ({
                let pad = old(self).kernel.heap@[old(self).pad_ptr as int];
                input_ok(*old(self)) && old(self).vars_clear() && next_name(*old(self)) is Some && next_name(
                    *old(self),
                )->0.len() < 256 && 0 <= pad < STRING_SIZE - 256 ==> {
                    &&& r == next_name(*old(self))->0.len()
                    &&& counted(final(self).kernel.strings@, pad as int) == next_name(*old(self))->0
                    &&& final(self).stack() == old(self).stack()
                    &&& final(self).aborted() == old(self).aborted()
                    &&& final(self).kernel.stack_ptr == old(self).kernel.stack_ptr
                    &&& forall|a: int|
                        0 <= a < DATA_SIZE && a != old(self).tib_in_ptr ==> #[trigger] final(self).kernel.heap@[a]
                            == old(self).kernel.heap@[a]
                    &&& final(self).same_registers(old(self))
                    &&& final(self).kernel.return_ptr == old(self).kernel.return_ptr
                }
            }),
    {
        let tok = self.take_token(32);
        proof {
            if input_ok(*old(self)) && old(self).vars_clear() {
                lemma_next_name(*old(self), *self, tok);
            }
        }
        match tok {
            Some(t) => {
                let pad = self.kernel.get(self.pad_ptr);
                if 0 <= pad && pad < (STRING_SIZE - 256) as i64 && t.len() < 256 {
                    self.kernel.write_counted(t.as_slice(), pad as usize);
                    t.len()
                } else {
                    self.f_abort_with(MsgKind::AddressOutOfRange, pad);
                    0
                }
            },
            None => 0,
        }
    }

    /// create <name> ( -- ) parses a name, copies it to free string space and
    /// starts a header for it at HERE (its name field; LAST points to it),
    /// warning when the name already exists. The word becomes findable when
    /// its definition is closed by `;`.
    pub fn f_create(&mut self)
        requires
            old(self).wf(),
        ensures
            frame_kept(*old(self), *final(self)),
            final(self).stable(old(self)),
            create_ok(*old(self)) ==> header_made(*old(self), *final(self)),
            create_ok(*old(self)) ==> create_warned(*old(self), *final(self)),
    {
        let tok = self.take_token(32);
        proof {
            if create_ok(*old(self)) {
                lemma_next_name(*old(self), *self, tok);
            }
        }
        let name = match tok {
            Some(t) => t,
            None => {
                self.f_abort_with(MsgKind::TokenNotRecognized, 0);
                return;
            },
        };
        let n = name.len();
        let pad = self.kernel.get(self.pad_ptr);
        let sp = self.kernel.string_ptr;
        let free = self.kernel.get(sp);
        let h = self.here();
        proof {
            if create_ok(*old(self)) {
                assert(name@ == next_name(*old(self))->0);
                assert(n < 256);
                assert(pad == old(self).kernel.heap@[old(self).pad_ptr as int]);
                assert(free == old(self).kernel.heap@[old(self).kernel.string_ptr as int]);
                assert(h == old(self).here_val());
                assert(self.kernel.stack_ptr == old(self).kernel.stack_ptr);
            }
        }
        if !(n < 256 && 0 <= pad && pad < (STRING_SIZE - 256) as i64 && 0 <= free && free < STRING_SIZE as i64
            && (free as usize) + 1 + n <= STRING_SIZE && 0 <= h && h < self.kernel.stack_ptr as i64 - 1 && h as usize
            != self.here_ptr && h as usize != sp && h as usize != self.last_ptr && sp != self.here_ptr && sp
            != self.last_ptr && self.last_ptr != self.here_ptr) {
            self.f_abort_with(MsgKind::OutOfSpace, h);
            return;
        }
        self.kernel.write_counted(name.as_slice(), pad as usize);
        let ghost named = *self;
        if self.find_word(pad as usize) != 0 {
            self.msg.warning(MsgKind::Redefinition, clone_name(&name));
        }
        let ghost warned = *self;
        self.kernel.write_counted(name.as_slice(), free as usize);
        self.kernel.set(h as usize, free);
        self.kernel.set(sp, free + 1 + n as i64);
        self.kernel.set(self.last_ptr, h);
        self.kernel.set(self.here_ptr, h + 1);
        proof {
            if create_ok(*old(self)) {
                assert(self.stack() =~= old(self).stack());
                assert(self.msg == warned.msg);
                assert(lookup_warned(*old(self), named, *self));
            }
        }
    }

    /// : <name> ( -- ) starts a definition: enters compiling mode, creates the
    /// header, and compiles the DEFINITION tag.
    pub fn f_colon(&mut self)
        requires
            old(self).wf(),
        ensures
            frame_kept(*old(self), *final(self)),
            final(self).stable(old(self)),
            colon_done(*old(self), *final(self)),
    {
        self.set_compile_mode(true);
        let ghost s1 = *self;
        proof {
            if create_ok(*old(self)) {
                assert(s1.stack() =~= old(self).stack());
                assert(input_window(s1) =~= input_window(*old(self)));
                assert(create_ok(s1));
            }
        }
        self.f_create();
        let ghost s2 = *self;
        proof {
            if create_ok(*old(self)) && !old(self).aborted() && old(self).here_val() + 2 < old(self).kernel.stack_ptr {
                assert(header_made(s1, s2));
                assert(!s2.aborted());
                assert(s2.here_val() == old(self).here_val() + 1);
            }
        }
        if self.get_abort_flag() {
            return;
        }
        self.emit_cell(DEFINITION);
        proof {
            if create_ok(*old(self)) && !old(self).aborted() && old(self).here_val() + 2 < old(self).kernel.stack_ptr {
                assert(self.stack() =~= old(self).stack());
            }
        }
    }

    /// ; ( -- ) closes a definition: compiles EXIT and the back link to the
    /// previous record, makes the word the most recent one (CONTEXT takes
    /// LAST), and leaves compiling mode.
    pub fn f_semicolon(&mut self)
        requires
            old(self).wf(),
        ensures
            frame_kept(*old(self), *final(self)),
            final(self).stable(old(self)),
            semicolon_done(*old(self), *final(self)),
    {
        let h = self.here();
        let back = self.kernel.get(self.last_ptr);
        if 0 <= h && h < self.kernel.stack_ptr as i64 - 2 && h as usize != self.here_ptr && h as usize + 1
            != self.here_ptr && back > i64::MIN {
            let hu = h as usize;
            self.kernel.set(hu, EXIT);
            self.kernel.set(hu + 1, back - 1);
            self.kernel.set(self.here_ptr, h + 2);
            self.kernel.set(self.context_ptr, back);
            self.set_compile_mode(false);
            proof {
                if old(self).vars_clear() && 64 < h {
                    assert(self.stack() =~= old(self).stack());
                }
            }
        } else {
            self.f_abort_with(MsgKind::OutOfSpace, h);
        }
    }

    /// (') <name> ( -- cfa | 0 ) parses a name and looks it up: its code field
    /// address, or 0 (with a warning) when there is no such word.
    pub fn f_tick_p(&mut self)
        requires
            old(self).wf(),
        ensures
            frame_kept(*old(self), *final(self)),
            final(self).stable(old(self)),
            ticked(*old(self), *final(self)),
    {
        let len = self.next_token();
        let ghost mid = *self;
        if self.get_abort_flag() {
            return;
        }
        let pad = self.kernel.get(self.pad_ptr);
        let mut found: usize = 0;
        if len > 0 && self.string_ok(pad) {
            found = self.find_word(pad as usize);
            if found == 0 {
                let name = self.kernel.counted_bytes(pad as usize);
                self.msg.warning(MsgKind::WordNotFound, name);
            }
        }
        self.push(found as i64);
        proof {
            let p = old(self).kernel.heap@[old(self).pad_ptr as int];
            if tick_ok(*old(self)) {
                assert(name_read(*old(self), mid));
                assert(self.stack() == old(self).stack().push(
                    mid.lookup(counted(mid.kernel.strings@, p as int)) as i64,
                ));
            }
        }
    }

    /// $interpret ( s -- ) runs the token at `s`: a word is executed, a number
    /// is left on the stack, anything else is reported and dropped.
    pub fn f_d_interpret(&mut self)
        requires
            old(self).wf(),
        ensures
            final(self).kept(old(self)),
            old(self).kernel.depth() < 1 ==> underflowed(*old(self), *final(self)),
            token_outcome(*old(self), *final(self)),
    {
        if !self.need(1) {
            return;
        }
        let token = self.kernel.top();
        let ghost valid = old(self).valid_string(token);
        let ghost name = counted(old(self).kernel.strings@, token as int);
        let ghost found = if valid { old(self).lookup(name) } else { 0 };
        self.f_find();
        let ghost s1 = *self;
        proof {
            if old(self).has_room() && !old(self).aborted() && old(self).abort_ptr < old(self).kernel.stack_ptr - 1 {
                assert(s1.kernel.heap@[s1.abort_ptr as int] == old(self).kernel.heap@[old(self).abort_ptr as int]);
                assert(found != 0 ==> s1.stack() == old(self).stack().drop_last().push(found as i64).push(TRUE));
                assert(found == 0 ==> s1.stack() == old(self).stack().push(FALSE));
            }
        }
        if self.get_abort_flag() || self.kernel.stack_len() < 2 {
            return;
        }
        if self.pop() == TRUE {
            let ghost s2 = *self;
            proof {
                if old(self).has_room() && !old(self).aborted() && old(self).abort_ptr < old(self).kernel.stack_ptr - 1 {
                    assert(s2.stack() =~= s1.stack().drop_last());
                    assert(s2.kernel.heap@ == s1.kernel.heap@);
                    assert(found != 0);
                    assert(s2.stack() == old(self).stack().drop_last().push(found as i64));
                    assert(0 < found && found + 1 < old(self).kernel.stack_ptr - 1 ==> s2.kernel.heap@[found] == old(self).kernel.heap@[found] && s2.kernel.heap@[found + 1] == old(self).kernel.heap@[found + 1]);
                    assert(s2.stack().drop_last() =~= old(self).stack().drop_last());
                }
            }
            self.f_execute();
        } else {
            let ghost s2 = *self;
            proof {
                if old(self).has_room() && !old(self).aborted() && old(self).abort_ptr < old(self).kernel.stack_ptr - 1 {
                    assert(s2.stack() =~= old(self).stack());
                    assert(s2.here_val() == old(self).here_val());
                    assert(s2.has_room());
                }
            }
            self.f_number_q();
            if self.get_abort_flag() || self.kernel.stack_len() < 2 {
                return;
            }
            let ghost s3 = *self;
            if self.pop() != TRUE {
                self.pop();
                let mut name: Vec<u8> = Vec::new();
                if self.string_ok(token) {
                    name = self.kernel.counted_bytes(token as usize);
                }
                self.msg.warning(MsgKind::TokenNotRecognized, name);
            } else {
                proof {
                    let num = if valid { decimal(name) } else { None };
                    if old(self).has_room() && !old(self).aborted() && old(self).abort_ptr < old(self).kernel.stack_ptr - 1 && num is Some {
                        assert(s3.stack() == s2.stack().drop_last().push(num->0).push(TRUE));
                        assert(self.stack() =~= old(self).stack().drop_last().push(num->0));
                    }
                }
            }
        }
    }

    /// $compile ( s -- ) compiles the token at `s`: an immediate word runs now,
    /// another word has its code field reference compiled, a number becomes a
    /// literal. Anything else is reported and aborts the definition.
    pub fn f_d_compile(&mut self)
        requires
            old(self).wf(),
        ensures
            final(self).kept(old(self)),
            old(self).kernel.depth() < 1 ==> underflowed(*old(self), *final(self)),
            compile_outcome(*old(self), *final(self)),
    {
        if !self.need(1) {
            return;
        }
        let token = self.kernel.top();
        let ghost valid = old(self).valid_string(token);
        let ghost name = counted(old(self).kernel.strings@, token as int);
        let ghost found = if valid { old(self).lookup(name) } else { 0 };
        let ghost premise = old(self).has_room() && !old(self).aborted() && old(self).abort_ptr < old(self).kernel.stack_ptr - 1;
        self.f_find();
        let ghost s1 = *self;
        proof {
            if premise {
                assert(s1.kernel.heap@[s1.abort_ptr as int] == old(self).kernel.heap@[old(self).abort_ptr as int]);
                assert(found == 0 ==> s1.stack() == old(self).stack().push(FALSE));
            }
        }
        if self.get_abort_flag() || self.kernel.stack_len() < 2 {
            return;
        }
        if self.pop() == TRUE {
            let cfa = self.kernel.top();
            let ghost s2 = *self;
            proof {
                if premise && 0 < found < old(self).kernel.stack_ptr - 1 && old(self).room_for(1) {
                    assert(s2.stack() =~= old(self).stack().drop_last().push(found as i64));
                    assert(s2.has_room());
                    lemma_masked_cell(found as i64);
                }
            }
            self.push(cfa);
            let ghost s3 = *self;
            self.f_immediate_q();
            let ghost s4 = *self;
            proof {
                if premise && 0 < found < old(self).kernel.stack_ptr - 1 && old(self).room_for(1) {
                    assert(s3.stack() == s2.stack().push(found as i64));
                    assert(s3.kernel.heap@[found - 1] == old(self).kernel.heap@[found - 1]);
                    assert(s3.kernel.heap@[found] == old(self).kernel.heap@[found]);
                    assert(s3.stack().last() == found);
                    assert(masked(found as i64) == found);
                    assert(s4.stack() == s3.stack().drop_last().push(if is_immediate_cell(old(self).kernel.heap@[found - 1]) { TRUE } else { FALSE }));
                }
            }
            if self.get_abort_flag() || self.kernel.stack_len() < 2 {
                return;
            }
            if self.pop() == TRUE {
                let ghost s6 = *self;
                proof {
                    if premise && 0 < found < old(self).kernel.stack_ptr - 1 && old(self).room_for(1) {
                        assert(s6.stack() =~= old(self).stack().drop_last().push(found as i64));
                        assert(s6.kernel.stack_ptr == old(self).kernel.stack_ptr);
                    }
                }
                self.f_execute();
                proof {
                    if premise && 0 < found < old(self).kernel.stack_ptr - 1 && old(self).room_for(1) {
                        assert(executed(s6, *self));
                        assert(ran_immediately(*old(self), *self, found));
                    }
                }
            } else {
                self.pop();
                let ghost s5 = *self;
                proof {
                    if premise && 0 < found < old(self).kernel.stack_ptr - 1 && old(self).room_for(1) {
                        assert(s5.stack() =~= old(self).stack().drop_last());
                        assert(s5.kernel.stack_ptr == old(self).kernel.stack_ptr + 1);
                        assert(s5.here_val() == old(self).here_val());
                        assert(s5.kernel.heap@[found] == old(self).kernel.heap@[found]);
                    }
                }
                if 0 <= cfa && cfa < DATA_SIZE as i64 {
                    let indirect = self.kernel.get(cfa as usize);
                    if indirect >= 0 && (indirect as u64 & BUILTIN_FLAG) != 0 {
                        self.emit_cell(indirect);
                    } else {
                        self.emit_cell(cfa);
                    }
                    proof {
                        if premise && 0 < found < old(self).kernel.stack_ptr - 1 && old(self).room_for(1)
                            && old(self).code_room(1) {
                            assert(self.stack() =~= old(self).stack().drop_last());
                        }
                    }
                } else {
                    self.f_abort_with(MsgKind::AddressOutOfRange, cfa);
                }
            }
        } else {
            let ghost s2 = *self;
            proof {
                if premise {
                    assert(s2.stack() =~= old(self).stack());
                    assert(s2.here_val() == old(self).here_val());
                    assert(s2.has_room());
                }
            }
            self.f_number_q();
            if self.get_abort_flag() || self.kernel.stack_len() < 2 {
                return;
            }
            let ghost s3 = *self;
            if self.pop() == TRUE {
                let ghost s4 = *self;
                proof {
                    let num = if valid { decimal(name) } else { None };
                    if premise && num is Some {
                        assert(s3.stack() == s2.stack().drop_last().push(num->0).push(TRUE));
                        assert(s4.stack() =~= old(self).stack().drop_last().push(num->0));
                        assert(s4.here_val() == old(self).here_val());
                    }
                }
                self.f_literal();
                proof {
                    let num = if valid { decimal(name) } else { None };
                    if premise && num is Some && old(self).code_room(2) {
                        assert(self.stack() =~= old(self).stack().drop_last());
                    }
                }
            } else {
                self.pop();
                let mut name: Vec<u8> = Vec::new();
                if self.string_ok(token) {
                    name = self.kernel.counted_bytes(token as usize);
                }
                self.msg.warning(MsgKind::TokenNotRecognized, name);
                self.f_abort();
            }
        }
    }

    /// Takes the next token of the input line and compiles or runs it,
    /// according to STATE. At the end of the line, evaluation ends.
    pub fn eval_token(&mut self)
        requires
            old(self).wf(),
        ensures
            final(self).kept(old(self)),
            token_evaluated(*old(self), *final(self)),
    {
        let len = self.next_token();
        if self.get_abort_flag() {
            return;
        }
        if len == 0 {
            self.evaluating = false;
            return;
        }
        let pad = self.kernel.get(self.pad_ptr);
        let ghost s1 = *self;
        self.push(pad);
        let ghost mid = *self;
        proof {
            let p = old(self).kernel.heap@[old(self).pad_ptr as int];
            if input_ok(*old(self)) && old(self).vars_clear() && next_name(*old(self)) is Some && next_name(
                *old(self),
            )->0.len() < 256 && 0 <= p < STRING_SIZE - 256 && !old(self).aborted() && old(self).room_for(1) {
                assert(s1.has_room());
                assert(token_pushed(*old(self), mid));
                assert(mid.compiling() == old(self).compiling());
                assert(!mid.aborted());
            }
        }
        if self.get_abort_flag() {
            return;
        }
        if self.get_compile_mode() {
            self.f_d_compile();
        } else {
            self.f_d_interpret();
        }
    }

    /// eval ( -- ) interprets the rest of the input line.
    pub fn f_eval(&mut self)
        requires
            old(self).wf(),
        ensures
            frame_kept(*old(self), *final(self)),
            final(self).stable(old(self)),
            final(self).evaluating,
            final(self).kernel == old(self).kernel,
    {
        self.evaluating = true;
    }
}

/// `new` is `old` after the token whose counted string address is on top of
/// the stack was interpreted: a word found by FIND is executed, a number is
/// pushed, anything else is reported and dropped.
pub open spec fn token_outcome(old: ForthRuntime, new: ForthRuntime) -> bool {
    let st = old.stack();
    let s = st.last();
    let valid = old.valid_string(s);
    let name = counted(old.kernel.strings@, s as int);
    let found = if valid { old.lookup(name) } else { 0 };
    let num = if valid { decimal(name) } else { None };
    old.kernel.depth() >= 1 && old.has_room() && !old.aborted() && old.abort_ptr < old.kernel.stack_ptr - 1 ==> {
        &&& found == 0 && num is Some ==> new.stack() == st.drop_last().push(num->0)
        &&& found == 0 && num is None ==> new.stack() == st.drop_last() && new.msg.log@.last().kind
            == MsgKind::TokenNotRecognized && !new.aborted()
        &&& found == 0 ==> new.kernel.strings@ == old.kernel.strings@ && (forall|a: int|
            0 <= a < old.kernel.stack_ptr - 1 ==> #[trigger] new.kernel.heap@[a] == old.kernel.heap@[a])
        &&& 0 < found && found + 1 < old.kernel.stack_ptr - 1 ==> {
            let tag = old.kernel.heap@[found];
            &&& tag == VARIABLE ==> new.stack() == st.drop_last().push((found + 1) as i64)
            &&& tag == CONSTANT ==> new.stack() == st.drop_last().push(old.kernel.heap@[found + 1])
            &&& tag == DEFINITION && old.kernel.return_ptr > ALLOC_START ==> new.pc == found + 1
                && new.kernel.ret_stack() == old.kernel.ret_stack().push(old.pc as i64) && new.stack()
                == st.drop_last()
            &&& is_builtin_ref(tag) && ((tag as u64 & ADDRESS_MASK) as int) < old.kernel.builtins@.len() && is_arith(
                old.kernel.builtins@[(tag as u64 & ADDRESS_MASK) as int].code,
            ) ==> arith_result(
                st.drop_last(),
                true,
                new,
                old.kernel.builtins@[(tag as u64 & ADDRESS_MASK) as int].code,
            )
        }
    }
}

/// `new` is `old` after the token whose counted string address is on top of
/// the stack was compiled, for a token that FIND does not know: a number is
/// compiled as a literal at HERE; anything else is reported and aborts, so
/// that no half-built definition is left.
pub open spec fn compile_outcome(old: ForthRuntime, new: ForthRuntime) -> bool {
    let st = old.stack();
    let s = st.last();
    let valid = old.valid_string(s);
    let name = counted(old.kernel.strings@, s as int);
    let found = if valid { old.lookup(name) } else { 0 };
    let num = if valid { decimal(name) } else { None };
    let h = old.here_val();
    old.kernel.depth() >= 1 && old.has_room() && !old.aborted() && old.abort_ptr < old.kernel.stack_ptr - 1 ==> {
        &&& found == 0 && num is Some && old.code_room(2) ==> {
            &&& new.kernel.heap@[h] == LITERAL
            &&& new.kernel.heap@[h + 1] == num->0
            &&& new.here_val() == h + 2
            &&& new.stack() == st.drop_last()
            &&& old.vars_clear() && 64 < h ==> !new.aborted() && new.kernel.heap@[old.context_ptr as int]
                == old.kernel.heap@[old.context_ptr as int]
        }
        &&& found == 0 && num is None ==> {
            &&& new.is_reset()
            &&& new.msg.log@.len() >= 2
            &&& new.msg.log@[new.msg.log@.len() - 2].kind == MsgKind::TokenNotRecognized
            &&& old.vars_clear() ==> new.here_val() == h && new.kernel.heap@[old.context_ptr as int]
                == old.kernel.heap@[old.context_ptr as int]
        }
        &&& 0 < found < old.kernel.stack_ptr - 1 && old.room_for(1) && is_immediate_cell(old.kernel.heap@[found - 1])
            ==> ran_immediately(old, new, found)
        &&& 0 < found < old.kernel.stack_ptr - 1 && old.room_for(1) && old.code_room(1) && !is_immediate_cell(
            old.kernel.heap@[found - 1],
        ) ==> {
            &&& new.kernel.heap@[h] == (if is_builtin_ref(old.kernel.heap@[found]) {
                old.kernel.heap@[found]
            } else {
                found as i64
            })
            &&& new.here_val() == h + 1
            &&& new.stack() == st.drop_last()
        }
    }
}

proof fn lemma_masked_cell(v: i64)
    requires
        0 <= v < DATA_SIZE,
    ensures
        masked(v) == v,
{
    let u = v as u64;
    assert(u & 0x00FFFFFFFFFFFFFFu64 == u) by (bit_vector)
        requires
            u < 10000u64,
    ;
}

/// `new` is `old` after the immediate word at `found` ran at once, as
/// `execute` runs it, on the stack with the token replaced by `found`.
pub open spec fn ran_immediately(old: ForthRuntime, new: ForthRuntime, found: int) -> bool {
    exists|mid: ForthRuntime|
        #![trigger executed(mid, new)]
        mid.stack() == old.stack().drop_last().push(found as i64) && mid.kernel.stack_ptr == old.kernel.stack_ptr
            && (forall|a: int| 0 <= a < old.kernel.stack_ptr - 1 ==> #[trigger] mid.kernel.heap@[a] == old.kernel.heap@[a])
            && mid.kernel.builtins@ == old.kernel.builtins@ && mid.pc == old.pc && mid.kernel.return_ptr
            == old.kernel.return_ptr && executed(mid, new) && builtin_executed(mid, new)
}

/// A name field with the immediate flag set.
pub open spec fn is_immediate_cell(v: i64) -> bool {
    v >= 0 && (v as u64 & IMMEDIATE_FLAG) != 0
}

/// The skip and the length of the first token of a buffer are unique.
proof fn lemma_token_unique(w: Seq<u8>, d: u8, i: int, n: int, i2: int, n2: int)
    requires
        skipped(w, d, i, w.len() as int),
        token_end(w, d, i, i + n, w.len() as int),
        skipped(w, d, i2, w.len() as int),
        token_end(w, d, i2, i2 + n2, w.len() as int),
    ensures
        i == i2,
        n == n2,
{
    if i < i2 {
        assert(w[i] == d);
    } else if i2 < i {
        assert(w[i2] == d);
    }
    if n < n2 {
        assert(w[i + n] != d);
    } else if n2 < n {
        assert(w[i2 + n2] != d);
    }
}

/// The token that `take_token` gives is the next name of the input.
proof fn lemma_next_name(old: ForthRuntime, new: ForthRuntime, r: Option<Vec<u8>>)
    requires
        token_taken(old, new, 32u8, r),
    ensures
        next_name(old) is Some ==> r is Some && r->0@ == next_name(old)->0,
        next_name(old) is None ==> r is None,
{
    let w = input_window(old);
    let (i2, n2) = choose|i2: int, n2: int|
        #![trigger skipped(w, 32u8, i2, w.len() as int), token_end(w, 32u8, i2, i2 + n2, w.len() as int)]
        skipped(w, 32u8, i2, w.len() as int) && token_end(w, 32u8, i2, i2 + n2, w.len() as int) && (n2 > 0 ==> r is Some
            && r->0@ == w.subrange(i2, i2 + n2)) && (n2 == 0 ==> r is None) && new.kernel.heap@ == old.kernel.heap@.update(
            old.tib_in_ptr as int,
            (old.kernel.heap@[old.tib_in_ptr as int] + i2 + n2 + 1) as i64,
        ) && new.kernel.strings@ == old.kernel.strings@ && new.stack() == old.stack() && new.msg == old.msg
            && new.kernel.stack_ptr == old.kernel.stack_ptr && new.same_registers(&old) && new.kernel.return_ptr
            == old.kernel.return_ptr;
    if next_name(old) is Some {
        let (i, n) = choose|i: int, n: int|
            #![trigger skipped(w, 32u8, i, w.len() as int), token_end(w, 32u8, i, i + n, w.len() as int)]
            skipped(w, 32u8, i, w.len() as int) && token_end(w, 32u8, i, i + n, w.len() as int) && n > 0;
        lemma_token_unique(w, 32u8, i, n, i2, n2);
    } else {
        if n2 > 0 {
            assert(skipped(w, 32u8, i2, w.len() as int) && token_end(w, 32u8, i2, i2 + n2, w.len() as int) && n2 > 0);
        }
    }
}

/// `take_token` on `old` gave `r` and led to `new`: the token is the first
/// `delim`-delimited run of the unread input, and `>in` moved past it and one
/// delimiter.
pub open spec fn token_taken(old: ForthRuntime, new: ForthRuntime, delim: u8, r: Option<Vec<u8>>) -> bool {
    let w = input_window(old);
    let inp = old.kernel.heap@[old.tib_in_ptr as int];
    exists|i: int, n: int|
        #![trigger skipped(w, delim, i, w.len() as int), token_end(w, delim, i, i + n, w.len() as int)]
        skipped(w, delim, i, w.len() as int) && token_end(w, delim, i, i + n, w.len() as int) && (n > 0 ==> r is Some
            && r->0@ == w.subrange(i, i + n)) && (n == 0 ==> r is None) && new.kernel.heap@ == old.kernel.heap@.update(
            old.tib_in_ptr as int,
            (inp + i + n + 1) as i64,
        ) && new.kernel.strings@ == old.kernel.strings@ && new.stack() == old.stack() && new.msg == old.msg
            && new.kernel.stack_ptr == old.kernel.stack_ptr && new.same_registers(&old) && new.kernel.return_ptr
            == old.kernel.return_ptr
}

/// The next token of `old`'s input line, if there is one.
pub open spec fn next_name(old: ForthRuntime) -> Option<Seq<u8>> {
    let w = input_window(old);
    if exists|i: int, n: int|
        #![trigger skipped(w, 32u8, i, w.len() as int), token_end(w, 32u8, i, i + n, w.len() as int)]
        skipped(w, 32u8, i, w.len() as int) && token_end(w, 32u8, i, i + n, w.len() as int) && n > 0 {
        let (i, n) = choose|i: int, n: int|
            #![trigger skipped(w, 32u8, i, w.len() as int), token_end(w, 32u8, i, i + n, w.len() as int)]
            skipped(w, 32u8, i, w.len() as int) && token_end(w, 32u8, i, i + n, w.len() as int) && n > 0;
        Some(w.subrange(i, i + n))
    } else {
        None
    }
}

/// `create` can build a header on `old`: the system variables are in place,
/// the input holds a name, and PAD, free string space and HERE have room.
pub open spec fn create_ok(old: ForthRuntime) -> bool {
    let pad = old.kernel.heap@[old.pad_ptr as int];
    let free = old.kernel.heap@[old.kernel.string_ptr as int];
    let h = old.here_val();
    &&& old.vars_clear()
    &&& input_ok(old)
    &&& next_name(old) is Some
    &&& next_name(old)->0.len() < 256
    &&& 0 <= pad < STRING_SIZE - 256
    &&& 0 <= free && free + 1 + next_name(old)->0.len() <= STRING_SIZE
    &&& 64 < h && h + 1 < old.kernel.stack_ptr
}

/// The warning of `create` for the state `named`, with the name read into
/// PAD: a name FIND already knows gets exactly one redefinition warning,
/// another name none.
pub open spec fn lookup_warned(old: ForthRuntime, named: ForthRuntime, new: ForthRuntime) -> bool {
    let pad = old.kernel.heap@[old.pad_ptr as int];
    let name = next_name(old)->0;
    &&& counted(named.kernel.strings@, pad as int) == name
    &&& named.kernel.heap@ == old.kernel.heap@.update(old.tib_in_ptr as int, named.kernel.heap@[old.tib_in_ptr as int])
    &&& named.lookup(name) != 0 ==> new.msg.log@.len() == old.msg.log@.len() + 1 && new.msg.log@.last().kind
        == MsgKind::Redefinition
    &&& named.lookup(name) == 0 ==> new.msg == old.msg
}

/// `create` on `old` warned as `lookup_warned` says, for the state with the
/// name in PAD.
pub open spec fn create_warned(old: ForthRuntime, new: ForthRuntime) -> bool {
    exists|named: ForthRuntime| #![trigger lookup_warned(old, named, new)] lookup_warned(old, named, new)
}

/// `new` is `old` after `create` built the header for the next name of the
/// input: the name is copied to free string space, the name field at HERE
/// holds its address, LAST holds HERE, and HERE moved one cell on.
pub open spec fn header_made(old: ForthRuntime, new: ForthRuntime) -> bool {
    let name = next_name(old)->0;
    let free = old.kernel.heap@[old.kernel.string_ptr as int];
    let h = old.here_val();
    &&& counted(new.kernel.strings@, free as int) == name
    &&& new.kernel.heap@[h] == free
    &&& new.kernel.heap@[old.kernel.string_ptr as int] == free + 1 + name.len()
    &&& new.kernel.heap@[old.last_ptr as int] == h
    &&& new.here_val() == h + 1
    &&& new.kernel.heap@[old.state_ptr as int] == old.kernel.heap@[old.state_ptr as int]
    &&& new.kernel.heap@[old.abort_ptr as int] == old.kernel.heap@[old.abort_ptr as int]
    &&& new.kernel.heap@[old.context_ptr as int] == old.kernel.heap@[old.context_ptr as int]
    &&& new.stack() == old.stack()
    &&& new.kernel.stack_ptr == old.kernel.stack_ptr
}

/// `mid` is `old` after the next name of the input was read into PAD and
/// PAD's address pushed: the state in which that token is compiled or run.
pub open spec fn token_pushed(old: ForthRuntime, mid: ForthRuntime) -> bool {
    let pad = old.kernel.heap@[old.pad_ptr as int];
    &&& mid.wf()
    &&& mid.stack() == old.stack().push(pad)
    &&& counted(mid.kernel.strings@, pad as int) == next_name(old)->0
    &&& mid.kernel.stack_ptr == old.kernel.stack_ptr - 1
    &&& forall|a: int|
        0 <= a < old.kernel.stack_ptr - 1 && a != old.tib_in_ptr ==> #[trigger] mid.kernel.heap@[a]
            == old.kernel.heap@[a]
    &&& mid.same_registers(&old)
    &&& mid.kernel.return_ptr == old.kernel.return_ptr
    &&& mid.kernel.builtins@ == old.kernel.builtins@
}

/// What `eval_token` does with the next token of `old`'s input line: at the
/// end of the line evaluation stops; otherwise the token is compiled or run,
/// according to STATE.
pub open spec fn token_evaluated(old: ForthRuntime, new: ForthRuntime) -> bool {
    let pad = old.kernel.heap@[old.pad_ptr as int];
    &&& input_ok(old) && old.vars_clear() && next_name(old) is None && !old.aborted() ==> !new.evaluating
        && new.stack() == old.stack()
    &&& input_ok(old) && old.vars_clear() && next_name(old) is Some && next_name(old)->0.len() < 256 && 0 <= pad
        < STRING_SIZE - 256 && !old.aborted() && old.room_for(1) ==> exists|mid: ForthRuntime|
        #![trigger token_pushed(old, mid)]
        token_pushed(old, mid) && (old.compiling() ==> compile_outcome(mid, new)) && (!old.compiling()
            ==> token_outcome(mid, new))
}

/// `tick` can read a name on `old`: the system variables are in place, the
/// input holds a name that fits PAD, and the stack has room.
pub open spec fn tick_ok(old: ForthRuntime) -> bool {
    let pad = old.kernel.heap@[old.pad_ptr as int];
    &&& input_ok(old)
    &&& old.vars_clear()
    &&& next_name(old) is Some
    &&& next_name(old)->0.len() < 256
    &&& 0 <= pad < STRING_SIZE - 256
    &&& old.room_for(1)
    &&& !old.aborted()
}

/// `mid` is `old` after the next name of the input was read into PAD.
pub open spec fn name_read(old: ForthRuntime, mid: ForthRuntime) -> bool {
    let pad = old.kernel.heap@[old.pad_ptr as int];
    &&& counted(mid.kernel.strings@, pad as int) == next_name(old)->0
    &&& mid.stack() == old.stack()
    &&& mid.kernel.stack_ptr == old.kernel.stack_ptr
    &&& forall|a: int| 0 <= a < DATA_SIZE && a != old.tib_in_ptr ==> #[trigger] mid.kernel.heap@[a] == old.kernel.heap@[a]
}

/// `new` is `old` after `(')`: the code field address of the word named by
/// the next name of the input (looked up once the name is in PAD), or 0 with
/// a warning when there is none.
pub open spec fn ticked(old: ForthRuntime, new: ForthRuntime) -> bool {
    let pad = old.kernel.heap@[old.pad_ptr as int];
    tick_ok(old) ==> exists|mid: ForthRuntime|
        #![trigger name_read(old, mid)]
        name_read(old, mid) && ({
            let v = mid.lookup(counted(mid.kernel.strings@, pad as int));
            &&& new.stack() == old.stack().push(v as i64)
            &&& new.kernel.stack_ptr == old.kernel.stack_ptr - 1
            &&& !new.aborted()
            &&& v == 0 ==> new.msg.log@.last().kind == MsgKind::WordNotFound
            &&& forall|a: int|
                0 <= a < old.kernel.stack_ptr - 1 && a != old.tib_in_ptr ==> #[trigger] new.kernel.heap@[a]
                    == old.kernel.heap@[a]
        })
}

/// `new` is `old` after `:` started a definition for the next name of the input.
pub open spec fn colon_done(old: ForthRuntime, new: ForthRuntime) -> bool {
    let h = old.here_val();
    create_ok(old) && !old.aborted() && h + 2 < old.kernel.stack_ptr ==> {
        &&& new.compiling()
        &&& new.kernel.heap@[h + 1] == DEFINITION
        &&& new.here_val() == h + 2
        &&& new.kernel.heap@[old.last_ptr as int] == h
        &&& new.kernel.heap@[h] == old.kernel.heap@[old.kernel.string_ptr as int]
        &&& counted(new.kernel.strings@, new.kernel.heap@[h] as int) == next_name(
            old,
        )->0
        &&& new.kernel.heap@[old.context_ptr as int] == old.kernel.heap@[old.context_ptr as int]
        &&& new.stack() == old.stack()
    }
}

/// `new` is `old` after `;` closed the definition being compiled.
pub open spec fn semicolon_done(old: ForthRuntime, new: ForthRuntime) -> bool {
    let h = old.here_val();
    let last = old.kernel.heap@[old.last_ptr as int];
    old.vars_clear() && 64 < h && h + 2 < old.kernel.stack_ptr && last > i64::MIN ==> {
        &&& new.kernel.heap@ == old.kernel.heap@.update(h, EXIT).update(h + 1, (last - 1) as i64).update(
            old.here_ptr as int,
            (h + 2) as i64,
        ).update(old.context_ptr as int, last).update(old.state_ptr as int, FALSE)
        &&& !new.compiling()
        &&& new.stack() == old.stack()
        &&& new.kernel.strings@ == old.kernel.strings@
    }
}

/// `new` is `old` after the literal `n` was compiled at HERE.
pub open spec fn literal_compiled(old: ForthRuntime, new: ForthRuntime, n: i64) -> bool {
    let h = old.here_val();
    &&& old.code_room(2)
    &&& old.kernel.depth() >= 1
    &&& n == old.stack().last()
    &&& new.kernel.heap@ == old.kernel.heap@.update(h, LITERAL).update(h + 1, n).update(
        old.here_ptr as int,
        (h + 2) as i64,
    )
    &&& new.stack() == old.stack().drop_last()
    &&& new.kernel.strings@ == old.kernel.strings@
    &&& new.msg == old.msg
    &&& new.same_registers(&old)
    &&& new.kernel.return_ptr == old.kernel.return_ptr
}

} // verus!
