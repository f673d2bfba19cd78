//! Input sources, output, and the builtins whose work the host carries out.
use crate::builtin::Prim;
use crate::general::{second, top, underflowed};
use crate::kernel::{counted, BUF_SIZE, DATA_SIZE, STACK_START, STRING_SIZE};
use crate::messages::{DebugLevel, MsgKind};
use crate::runtime::{
    ControlMarker, ForthRuntime, HostOp, Source, FALSE, MARK_BEGIN, MARK_CASE, MARK_FOR, MARK_OF,
    MARK_WHILE, TRUE,
};
use crate::inner::frame_kept;
use vstd::prelude::*;
use vstd::string::StringSliceAdditionalSpecFns;

verus! {

/// The decimal digits of `n`.
pub open spec fn digits_of(n: nat) -> Seq<u8>
    decreases n,
{
    if n < 10 {
        seq![(48 + n) as u8]
    } else {
        digits_of(n / 10).push((48 + n % 10) as u8)
    }
}

/// `n` written in base 10, with a leading `-` when negative.
pub open spec fn decimal_text(n: int) -> Seq<u8> {
    if n < 0 {
        seq![45u8] + digits_of((-n) as nat)
    } else {
        digits_of(n as nat)
    }
}

/// The items of a stack, bottom first, each in base 10 followed by a space.
pub open spec fn items_text(st: Seq<i64>) -> Seq<u8>
    decreases st.len(),
{
    if st.len() == 0 {
        Seq::empty()
    } else {
        items_text(st.drop_last()) + decimal_text(st.last() as int) + seq![32u8]
    }
}

/// Appends the decimal digits of `m` to `out`.
fn push_digits(out: &mut Vec<u8>, m: u64)
    ensures
        final(out)@ == old(out)@ + digits_of(m as nat),
    decreases m,
{
    if m >= 10 {
        push_digits(out, m / 10);
    }
    out.push((48 + m % 10) as u8);
    proof {
        if m < 10 {
            assert(m % 10 == m);
        }
    }
    assert(final(out)@ =~= old(out)@ + digits_of(m as nat)) by {
        if m >= 10 {
            assert(digits_of(m as nat) == digits_of((m / 10) as nat).push((48 + m % 10) as u8));
        }
    }
}

/// Appends `n` in base 10 to `out`.
pub fn write_number(out: &mut Vec<u8>, n: i64)
    ensures
        final(out)@ == old(out)@ + decimal_text(n as int),
{
    if n < 0 {
        out.push(45u8);
        let m: u64 = if n == i64::MIN { 0x8000000000000000u64 } else { (-n) as u64 };
        push_digits(out, m);
        assert(final(out)@ =~= old(out)@ + decimal_text(n as int));
    } else {
        push_digits(out, n as u64);
    }
}

/// Appends the bytes of `s` to `out`.
pub fn write_bytes(out: &mut Vec<u8>, s: &[u8])
    ensures
        final(out)@ == old(out)@ + s@,
{
    let mut i: usize = 0;
    while i < s.len()
        invariant
            i <= s@.len(),
            out@ == old(out)@ + s@.subrange(0, i as int),
        decreases s@.len() - i,
    {
        out.push(s[i]);
        i = i + 1;
        assert(out@ =~= old(out)@ + s@.subrange(0, i as int));
    }
    assert(s@.subrange(0, s@.len() as int) =~= s@);
}

/// What the next read from the input sources gives.
pub enum ReadOutcome {
    /// A line from the file on top.
    Line(Seq<u8>),
    /// The file on top is exhausted: it is dropped and the read gives nothing.
    Exhausted,
    /// The console is on top: the host must supply the line.
    Console,
}

/// The outcome of reading from the source stack `reader`.
pub open spec fn read_outcome(reader: Seq<Source>) -> ReadOutcome {
    match reader.last() {
        Source::Console => ReadOutcome::Console,
        Source::File { lines, next } => if next < lines@.len() {
            ReadOutcome::Line(lines@[next as int]@)
        } else {
            ReadOutcome::Exhausted
        },
    }
}

/// The source stack after reading from `reader`: the file on top advances
/// one line, or is dropped when exhausted; the console root is never dropped.
pub open spec fn after_read(reader: Seq<Source>) -> Seq<Source> {
    match reader.last() {
        Source::Console => reader,
        Source::File { lines, next } => if next < lines@.len() {
            reader.drop_last().push(Source::File { lines, next: (next + 1) as usize })
        } else if reader.len() > 1 {
            reader.drop_last()
        } else {
            reader
        },
    }
}

/// The address a control marker holds.
pub open spec fn marker_address(m: ControlMarker) -> usize {
    match m {
        ControlMarker::Begin(a) => a,
        ControlMarker::While(a) => a,
        ControlMarker::For(a) => a,
        ControlMarker::Case(a) => a,
        ControlMarker::Of(a) => a,
    }
}

/// `new` is `old` after `accept` with a valid buffer: a file on top gives its
/// next line (or is dropped when exhausted), the console leaves the read to
/// the host.
pub open spec fn accepted(old: ForthRuntime, new: ForthRuntime, query: bool) -> bool {
    let st = old.stack();
    let m = clamp_len(st.last());
    let dest = st[st.len() - 2];
    old.kernel.depth() >= 2 && old.has_room() && 0 <= dest < STRING_SIZE && dest + m < STRING_SIZE ==> {
        &&& old.sources().last() is Console ==> new.sources() == old.sources() && new.pending == Some(
            HostOp::ReadLine { dest: dest as usize, max: m as usize, query },
        ) && new.stack() == st.drop_last()
        &&& !(old.sources().last() is Console) ==> new.sources() == after_read(old.sources())
        &&& read_outcome(old.sources()) matches ReadOutcome::Line(l) ==> {
            let n: int = if l.len() < m { l.len() as int } else { m };
            &&& counted(new.kernel.strings@, dest as int) == l.subrange(0, n)
            &&& line_done(st.drop_last(), old, new, n, query)
        }
        &&& read_outcome(old.sources()) is Exhausted ==> new.kernel.strings@ == old.kernel.strings@ && line_done(
            st.drop_last(),
            old,
            new,
            0,
            query,
        )
    }
}

/// The console line `b` completed the `ReadLine` request of `old`: at most
/// `max` bytes of it are at `dest`, and the read ends as `accept` or `query`.
pub open spec fn console_line_done(old: ForthRuntime, new: ForthRuntime, b: Seq<u8>) -> bool {
    match old.pending {
        Some(HostOp::ReadLine { dest, max, query }) => {
            let n: int = if b.len() < max { b.len() as int } else { max as int };
            max < 256 && dest + max < STRING_SIZE && old.kernel.depth() >= 1 && old.has_room() ==> {
                &&& counted(new.kernel.strings@, dest as int) == b.subrange(0, n)
                &&& line_done(old.stack(), old, new, n, query)
            }
        },
        _ => true,
    }
}

/// `new` is `old` after `query`: the next line of the current source is in
/// TIB with `#tib` its length and `>in` 1, or the host was asked for it.
pub open spec fn queried(old: ForthRuntime, new: ForthRuntime) -> bool {
                let tib = old.kernel.heap@[old.tib_ptr as int];
                let m = BUF_SIZE - 1;
                old.vars_clear() && old.room_for(2) && 0 <= tib && tib + m < STRING_SIZE
                    && !old.aborted() ==> {
                    &&& old.sources().last() is Console ==> new.sources() == old.sources()
                        && new.pending == Some(
                        HostOp::ReadLine { dest: tib as usize, max: m as usize, query: true },
                    ) && new.stack() == old.stack().push(tib)
                    &&& !(old.sources().last() is Console) ==> new.sources() == after_read(
                        old.sources(),
                    ) && new.stack() == old.stack() && new.kernel.heap@[old.tib_in_ptr as int] == 1
                    &&& read_outcome(old.sources()) matches ReadOutcome::Line(l) ==> {
                        let n: int = if l.len() < m { l.len() as int } else { m as int };
                        &&& counted(new.kernel.strings@, tib as int) == l.subrange(0, n)
                        &&& new.kernel.heap@[old.tib_size_ptr as int] == n
                    }
                    &&& read_outcome(old.sources()) is Exhausted ==> new.kernel.heap@[old.tib_size_ptr as int] == 0 && new.kernel.strings@ == old.kernel.strings@
                }
            }

/// A requested line length, limited to what a count byte can hold.
pub open spec fn clamp_len(u: i64) -> int {
    if u < 0 {
        0
    } else if u > 255 {
        255
    } else {
        u as int
    }
}

/// The end of reading a line of `n` bytes with the buffer address on top of
/// `st`: `accept` leaves the address and `n`; `query` drops the address and
/// sets `#tib` to `n` and `>in` to 1.
pub open spec fn line_done(st: Seq<i64>, old: ForthRuntime, new: ForthRuntime, n: int, query: bool) -> bool {
    &&& !query ==> new.stack() == st.push(n as i64)
    &&& query && old.vars_clear() ==> {
        &&& new.stack() == st.drop_last()
        &&& new.kernel.heap@[old.tib_size_ptr as int] == n
        &&& new.kernel.heap@[old.tib_in_ptr as int] == 1
    }
}

/// Reading from a source stack whose file on top is exhausted drops that
/// file, and the next read continues with the line of the including file at
/// the cursor it had saved; when that file is exhausted in turn, the stack
/// goes back to what was below it, the console root included.
pub proof fn lemma_include_resumes(base: Seq<Source>, a_lines: Vec<Vec<u8>>, a_next: usize, b_lines: Vec<Vec<u8>>)
    requires
        base.len() >= 1,
        base[0] is Console,
    ensures
        ({
            let a = Source::File { lines: a_lines, next: a_next };
            let b = Source::File { lines: b_lines, next: b_lines@.len() as usize };
            let r0 = base.push(a).push(b);
            let r1 = after_read(r0);
            &&& b_lines@.len() <= usize::MAX ==> read_outcome(r0) is Exhausted
            &&& b_lines@.len() <= usize::MAX ==> r1 == base.push(a)
            &&& a_next < a_lines@.len() ==> read_outcome(base.push(a)) == ReadOutcome::Line(a_lines@[a_next as int]@)
            &&& a_next >= a_lines@.len() ==> after_read(base.push(a)) == base && after_read(base.push(a))[0] is Console
        }),
{
    let a = Source::File { lines: a_lines, next: a_next };
    let b = Source::File { lines: b_lines, next: b_lines@.len() as usize };
    let r0 = base.push(a).push(b);
    assert(r0.last() == b);
    assert(r0.drop_last() =~= base.push(a));
    assert(base.push(a).last() == a);
    assert(base.push(a).drop_last() =~= base);
}

impl ForthRuntime {
    /// The source stack of the machine.
    pub open spec fn sources(&self) -> Seq<Source> {
        self.reader@
    }

    /// Reads the next line from the source on top: from a file directly, or,
    /// for the console, by asking the host. An exhausted file is dropped and
    /// gives an empty line. Returns the line when one was read here.
    pub fn read_source(&mut self) -> (r: Option<Vec<u8>>)
        requires
            old(self).wf(),
        ensures
            final(self).kept(old(self)),
            final(self).same_registers_but_sources(old(self)),
            final(self).sources() == after_read(old(self).sources()),
            final(self).kernel == old(self).kernel,
            match read_outcome(old(self).sources()) {
                ReadOutcome::Line(l) => r is Some && r->0@ == l,
                _ => r is None,
            },
    {
        let n = self.reader.len();
        let last = self.reader.pop();
        match last {
            Some(Source::File { lines, next }) => {
                if next < lines.len() {
                    let line = clone_bytes(&lines[next]);
                    self.reader.push(Source::File { lines, next: next + 1 });
                    assert(self.reader@ =~= after_read(old(self).reader@));
                    Some(line)
                } else {
                    if n <= 1 {
                        self.reader.push(Source::File { lines, next });
                        assert(self.reader@ =~= old(self).reader@);
                    }
                    None
                }
            },
            Some(Source::Console) => {
                self.reader.push(Source::Console);
                assert(self.reader@ =~= old(self).reader@);
                None
            },
            None => None,
        }
    }

    /// accept ( b u -- b u ) reads a line of at most `u` bytes from the
    /// current source into the counted string at `b`, leaving `b` and the
    /// length read; an exhausted file is dropped and gives 0. From the
    /// console the host supplies the line (`accept_console_line`).
    pub fn f_accept(&mut self)
        requires
            old(self).wf(),
        ensures
            frame_kept(*old(self), *final(self)),
            final(self).kept(old(self)),
            old(self).kernel.depth() < 2 ==> underflowed(*old(self), *final(self)),
            accepted(*old(self), *final(self), false),
    {
        self.accept(false);
    }

    fn accept(&mut self, query: bool)
        requires
            old(self).wf(),
        ensures
            frame_kept(*old(self), *final(self)),
            final(self).exit_flag == old(self).exit_flag,
            final(self).kept(old(self)),
            old(self).kernel.depth() < 2 ==> underflowed(*old(self), *final(self)),
            accepted(*old(self), *final(self), query),
    {
        if !self.need(2) {
            return;
        }
        let u = self.pop();
        let max: i64 = if u < 0 {
            0
        } else if u > 255 {
            255
        } else {
            u
        };
        let dest = self.kernel.top();
        if !(0 <= dest && dest < STRING_SIZE as i64 && dest + max < STRING_SIZE as i64) {
            self.f_abort_with(MsgKind::AddressOutOfRange, dest);
            return;
        }
        let is_console = match &self.reader[self.reader.len() - 1] {
            Source::Console => true,
            _ => false,
        };
        if is_console {
            self.pending = Some(HostOp::ReadLine { dest: dest as usize, max: max as usize, query });
            return;
        }
        let line = self.read_source();
        let mut n: usize = 0;
        match line {
            Some(l) => {
                n = self.store_line(dest as usize, max as usize, l.as_slice());
            },
            None => {},
        }
        self.finish_line(n, query);
    }

    /// Ends a line read into the buffer whose address is on top of the stack:
    /// pushes its length, or, for `query`, drops the address and points the
    /// input variables at the line.
    fn finish_line(&mut self, n: usize, query: bool)
        requires
            old(self).wf(),
            n < 256,
        ensures
            frame_kept(*old(self), *final(self)),
            final(self).exit_flag == old(self).exit_flag,
            final(self).kept(old(self)),
            final(self).reader@ == old(self).reader@,
            final(self).kernel.strings@ == old(self).kernel.strings@,
            old(self).kernel.depth() >= 1 && old(self).has_room() ==> line_done(
                old(self).stack(),
                *old(self),
                *final(self),
                n as int,
                query,
            ),
    {
        if query {
            if self.need(1) {
                self.pop();
                self.kernel.set(self.tib_size_ptr, n as i64);
                self.kernel.set(self.tib_in_ptr, 1);
                proof {
                    if old(self).vars_clear() {
                        assert(self.stack() =~= old(self).stack().drop_last());
                    }
                }
            }
        } else {
            self.push(n as i64);
        }
    }

    /// Writes at most `max` bytes of `line` as a counted string at `dest`;
    /// returns the number written.
    fn store_line(&mut self, dest: usize, max: usize, line: &[u8]) -> (r: usize)
        requires
            old(self).wf(),
            max < 256,
            dest + max < STRING_SIZE,
        ensures
            final(self).kept(old(self)),
            r <= max,
            r == (if line@.len() < max { line@.len() as usize } else { max }),
            counted(final(self).kernel.strings@, dest as int) == line@.subrange(0, r as int),
            final(self).kernel.heap@ == old(self).kernel.heap@,
            final(self).kernel.stack_ptr == old(self).kernel.stack_ptr,
            final(self).kernel.return_ptr == old(self).kernel.return_ptr,
            final(self).same_registers(old(self)),
            final(self).kernel.builtins@ == old(self).kernel.builtins@,
            final(self).kernel.string_ptr == old(self).kernel.string_ptr,
            final(self).msg == old(self).msg,
            final(self).reader@ == old(self).reader@,
    {
        let n = if line.len() < max { line.len() } else { max };
        let part = slice_prefix(line, n);
        self.kernel.write_counted(part.as_slice(), dest);
        n
    }

    /// The host hands over the console line asked for by `ReadLine` (`None`
    /// at the end of console input, which ends the session).
    pub fn accept_console_line(&mut self, line: Option<&str>)
        requires
            old(self).wf(),
        ensures
            final(self).kept(old(self)),
            final(self).pending is None,
            final(self).reader@ == old(self).reader@,
            line is None ==> final(self).exit_flag,
            line is Some ==> console_line_done(*old(self), *final(self), line->0.spec_bytes()),
    {
        let op = self.pending.take();
        match op {
            Some(HostOp::ReadLine { dest, max, query }) => {
                match line {
                    Some(text) => {
                        if max < 256 && dest < STRING_SIZE - max {
                            let n = self.store_line(dest, max, text.as_bytes());
                            self.finish_line(n, query);
                        } else {
                            self.f_abort_with(MsgKind::AddressOutOfRange, dest as i64);
                        }
                    },
                    None => {
                        self.msg.error(MsgKind::EndOfInput, 0);
                        self.exit_flag = true;
                        self.evaluating = false;
                    },
                }
            },
            _ => {},
        }
        if line.is_none() {
            self.exit_flag = true;
        }
        self.pending = None;
    }

    /// query ( -- ) reads the next line of the current source into TIB (at
    /// most BUF_SIZE - 1 bytes), sets `#tib` to its length and `>in` to 1.
    /// An exhausted file is dropped and gives an empty line; at the console
    /// the host is asked for the line.
    pub fn f_query(&mut self)
        requires
            old(self).wf(),
        ensures
            frame_kept(*old(self), *final(self)),
            final(self).kept(old(self)),
            queried(*old(self), *final(self)),
            final(self).exit_flag == old(self).exit_flag,
    {
        let tib = self.kernel.get(self.tib_ptr);
        self.push(tib);
        if self.get_abort_flag() {
            return;
        }
        self.push(BUF_SIZE as i64 - 1);
        if self.get_abort_flag() {
            return;
        }
        let ghost mid = *self;
        proof {
            if old(self).vars_clear() && old(self).room_for(2) && 0 <= tib && tib + BUF_SIZE - 1 < STRING_SIZE
                && !old(self).aborted() {
                assert(mid.stack() == old(self).stack().push(tib).push(131i64));
                assert(mid.stack().drop_last() =~= old(self).stack().push(tib));
                assert(mid.stack().drop_last().drop_last() =~= old(self).stack());
                assert(mid.vars_clear());
            }
        }
        self.accept(true);
    }

    /// include-file ( s -- ) asks the host to open the file named at `s` and
    /// hand over its lines (`include_lines`); reading continues from it.
    pub fn f_include_file(&mut self)
        requires
            old(self).wf(),
        ensures
            frame_kept(*old(self), *final(self)),
            final(self).kept(old(self)),
            old(self).kernel.depth() >= 1 && old(self).valid_string(top(old(self).stack())) ==> {
                &&& final(self).pending matches Some(HostOp::Include { name }) && name@ == counted(
                    old(self).kernel.strings@,
                    top(old(self).stack()) as int,
                )
                &&& final(self).stack() == old(self).stack().drop_last()
                &&& final(self).kernel.heap@ == old(self).kernel.heap@
                &&& final(self).kernel.strings@ == old(self).kernel.strings@
                &&& final(self).kernel.stack_ptr == old(self).kernel.stack_ptr + 1
                &&& final(self).reader@ == old(self).reader@
            },
    {
        if let Some(name) = self.pop_string() {
            self.pending = Some(HostOp::Include { name });
        }
    }

    /// The host hands over the lines of the file asked for by `Include`
    /// (`None` when it could not be opened): the file becomes the current
    /// source and TRUE is pushed, or FALSE when there is no file.
    pub fn include_lines(&mut self, lines: Option<Vec<Vec<u8>>>)
        requires
            old(self).wf(),
        ensures
            final(self).kept(old(self)),
            final(self).pending is None,
            lines is Some && old(self).has_room() ==> {
                &&& final(self).sources() == old(self).sources().push(Source::File { lines: lines->0, next: 0 })
                &&& final(self).stack() == old(self).stack().push(TRUE)
            },
            lines is None && old(self).has_room() ==> {
                &&& final(self).sources() == old(self).sources()
                &&& final(self).stack() == old(self).stack().push(FALSE)
            },
    {
        self.pending = None;
        match lines {
            Some(l) => {
                self.push(TRUE);
                self.reader.push(Source::File { lines: l, next: 0 });
            },
            None => {
                self.push(FALSE);
            },
        }
    }

    /// Pops a string address and returns the counted string there, or
    /// reports an error and aborts.
    fn pop_string(&mut self) -> (r: Option<Vec<u8>>)
        requires
            old(self).wf(),
        ensures
            r is Some ==> final(self).pc == old(self).pc && final(self).kernel.return_ptr == old(self).kernel.return_ptr,
            frame_kept(*old(self), *final(self)),
            final(self).kept(old(self)),
            final(self).reader@ == old(self).reader@,
            r is None ==> final(self).is_reset(),
            old(self).kernel.depth() >= 1 && old(self).valid_string(top(old(self).stack())) ==> r is Some && r->0@
                == counted(old(self).kernel.strings@, top(old(self).stack()) as int) && final(self).stack()
                == old(self).stack().drop_last() && final(self).pending == old(self).pending
                && final(self).kernel.heap@ == old(self).kernel.heap@ && final(self).kernel.strings@
                == old(self).kernel.strings@ && final(self).kernel.stack_ptr == old(self).kernel.stack_ptr + 1,
    {
        if !self.need(1) {
            return None;
        }
        let s = self.pop();
        if self.string_ok(s) {
            Some(self.kernel.counted_bytes(s as usize))
        } else {
            self.f_abort_with(MsgKind::AddressOutOfRange, s);
            None
        }
    }

    /// Pops one item and asks the host for work on it.
    fn pop_request(&mut self, which: Prim)
        requires
            old(self).wf(),
        ensures
            frame_kept(*old(self), *final(self)),
            final(self).kept(old(self)),
            final(self).reader@ == old(self).reader@,
            old(self).kernel.depth() < 1 ==> underflowed(*old(self), *final(self)),
            old(self).kernel.depth() >= 1 ==> {
                let v = top(old(self).stack());
                &&& final(self).stack() == old(self).stack().drop_last()
                &&& final(self).pending == Some(
                    match which {
                        Prim::CloseFile => HostOp::CloseFile { id: v },
                        Prim::FilePosition => HostOp::FilePosition { id: v },
                        Prim::FileSize => HostOp::FileSize { id: v },
                        _ => HostOp::Sleep { millis: v },
                    },
                )
            },
    {
        if !self.need(1) {
            return;
        }
        let v = self.pop();
        self.pending = match which {
            Prim::CloseFile => Some(HostOp::CloseFile { id: v }),
            Prim::FilePosition => Some(HostOp::FilePosition { id: v }),
            Prim::FileSize => Some(HostOp::FileSize { id: v }),
            _ => Some(HostOp::Sleep { millis: v }),
        };
    }

    /// The host hands over the results of the operation it carried out; they
    /// are pushed in order and evaluation can go on.
    pub fn host_results(&mut self, results: &[i64])
        requires
            old(self).wf(),
        ensures
            final(self).kept(old(self)),
            final(self).pending is None,
            final(self).reader@ == old(self).reader@,
            ({
                let k = results@.len() as int;
                let sp = old(self).kernel.stack_ptr as int;
                k <= sp && old(self).here_val() < sp - k + 1 && old(self).here_ptr + k < sp ==> final(self).stack()
                    == old(self).stack() + results@
            }),
    {
        self.pending = None;
        let ghost k = results@.len() as int;
        let ghost sp = old(self).kernel.stack_ptr as int;
        let ghost fits = k <= sp && old(self).here_val() < sp - k + 1 && old(self).here_ptr + k < sp;
        let mut i: usize = 0;
        while i < results.len()
            invariant
                self.kept(old(self)),
                self.reader@ == old(self).reader@,
                self.pending is None,
                i <= results@.len(),
                k == results@.len(),
                sp == old(self).kernel.stack_ptr,
                fits == (k <= sp && old(self).here_val() < sp - k + 1 && old(self).here_ptr + k < sp),
                fits ==> self.stack() == old(self).stack() + results@.subrange(0, i as int),
                fits ==> self.kernel.stack_ptr == sp - i,
                fits ==> self.here_val() == old(self).here_val(),
            decreases results@.len() - i,
        {
            let ghost before = *self;
            proof {
                if fits {
                    assert(self.has_room());
                }
            }
            self.push(results[i]);
            proof {
                if fits {
                    assert(self.stack() == before.stack().push(results@[i as int]));
                    assert(results@.subrange(0, i + 1) =~= results@.subrange(0, i as int).push(results@[i as int]));
                }
            }
            i = i + 1;
            proof {
                if fits {
                    assert(self.stack() =~= old(self).stack() + results@.subrange(0, i as int));
                }
            }
        }
        proof {
            if fits {
                assert(results@.subrange(0, results@.len() as int) =~= results@);
            }
        }
    }

    /// key ( -- c ) asks the host for one character.
    pub fn f_key(&mut self)
        requires
            old(self).wf(),
        ensures
            frame_kept(*old(self), *final(self)),
            final(self).stable(old(self)),
            final(self).pending == Some(HostOp::Key),
            final(self).kernel == old(self).kernel,
    {
        self.pending = Some(HostOp::Key);
    }

    /// open-file ( s fam -- file-id ior ) asks the host to open the named file.
    pub fn f_open_file(&mut self)
        requires
            old(self).wf(),
        ensures
            frame_kept(*old(self), *final(self)),
            final(self).kept(old(self)),
            ({
                let st = old(self).stack();
                old(self).kernel.depth() >= 2 && old(self).valid_string(second(st)) ==> {
                    &&& final(self).pending matches Some(HostOp::OpenFile { name, mode }) && name@ == counted(
                        old(self).kernel.strings@,
                        second(st) as int,
                    ) && mode == top(st)
                    &&& final(self).stack() == st.drop_last().drop_last()
                }
            }),
    {
        if !self.need(2) {
            return;
        }
        let mode = self.pop();
        if let Some(name) = self.pop_string() {
            self.pending = Some(HostOp::OpenFile { name, mode });
            proof {
                if old(self).kernel.depth() >= 2 && old(self).valid_string(second(old(self).stack())) {
                    assert(self.stack() =~= old(self).stack().drop_last().drop_last());
                }
            }
        }
    }

    /// close-file ( file-id -- ior )
    pub fn f_close_file(&mut self)
        requires
            old(self).wf(),
        ensures
            frame_kept(*old(self), *final(self)),
            final(self).kept(old(self)),
            old(self).kernel.depth() < 1 ==> underflowed(*old(self), *final(self)),
            old(self).kernel.depth() >= 1 ==> final(self).pending == Some(HostOp::CloseFile { id: top(old(self).stack()) })
                && final(self).stack() == old(self).stack().drop_last(),
    {
        self.pop_request(Prim::CloseFile);
    }

    /// read-line ( u file-id -- u flag ior ) asks the host for a line of a file, read into TMP.
    pub fn f_read_line(&mut self)
        requires
            old(self).wf(),
        ensures
            frame_kept(*old(self), *final(self)),
            final(self).kept(old(self)),
            old(self).kernel.depth() < 2 ==> underflowed(*old(self), *final(self)),
            old(self).kernel.depth() >= 2 ==> final(self).pending == Some(
                HostOp::ReadFileLine { id: top(old(self).stack()), limit: second(old(self).stack()) },
            ) && final(self).stack() == old(self).stack().drop_last().drop_last(),
    {
        if self.need(2) {
            let id = self.pop();
            let limit = self.pop();
            self.pending = Some(HostOp::ReadFileLine { id, limit });
            assert(self.stack() =~= old(self).stack().drop_last().drop_last());
        }
    }

    /// The host hands over a line read by `ReadFileLine`: it is stored in TMP and
    /// `u TRUE 0` is pushed, or `0 FALSE -1` at the end of the file.
    pub fn file_line(&mut self, line: Option<&[u8]>)
        requires
            old(self).wf(),
        ensures
            final(self).kept(old(self)),
            final(self).pending is None,
            ({
                let tmp = old(self).kernel.heap@[old(self).tmp_ptr as int];
                old(self).room_for(3) && old(self).vars_clear() ==> {
                    &&& line is None ==> final(self).stack() == old(self).stack().push(0i64).push(FALSE).push(-1i64)
                    &&& line is Some && 0 <= tmp < STRING_SIZE - 256 ==> {
                        let l = line->0@;
                        let n: int = if l.len() < 255 { l.len() as int } else { 255 };
                        &&& counted(final(self).kernel.strings@, tmp as int) == l.subrange(0, n)
                        &&& final(self).stack() == old(self).stack().push(n as i64).push(TRUE).push(0i64)
                    }
                }
            }),
    {
        self.pending = None;
        match line {
            Some(l) => {
                let tmp = self.kernel.get(self.tmp_ptr);
                if 0 <= tmp && tmp < STRING_SIZE as i64 - 256 {
                    let n = self.store_line(tmp as usize, 255, l);
                    self.push3(n as i64, TRUE, 0);
                } else {
                    self.f_abort_with(MsgKind::AddressOutOfRange, tmp);
                }
            },
            None => {
                self.push3(0, FALSE, -1);
            },
        }
    }

    /// Pushes three values, in order.
    fn push3(&mut self, a: i64, b: i64, c: i64)
        requires
            old(self).wf(),
        ensures
            frame_kept(*old(self), *final(self)),
            final(self).kept(old(self)),
            final(self).reader@ == old(self).reader@,
            final(self).kernel.strings@ == old(self).kernel.strings@,
            old(self).pending is None ==> final(self).pending is None,
            old(self).room_for(3) ==> final(self).stack() == old(self).stack().push(a).push(b).push(c)
                && final(self).pending == old(self).pending,
    {
        if self.kernel.stack_ptr > 2 && self.here() < self.kernel.stack_ptr as i64 - 2 && self.here_ptr + 3
            < self.kernel.stack_ptr {
            self.push(a);
            self.push(b);
            self.push(c);
        } else {
            self.f_abort_with(MsgKind::StackOverflow, a);
        }
    }

    /// write-line ( s u file-id -- ior ) asks the host to write `u` bytes from `s` to a file.
    pub fn f_write_line(&mut self)
        requires
            old(self).wf(),
        ensures
            frame_kept(*old(self), *final(self)),
            final(self).kept(old(self)),
            old(self).kernel.depth() < 3 ==> underflowed(*old(self), *final(self)),
            ({
                let st = old(self).stack();
                let id = top(st);
                let u = second(st);
                let sa = st[st.len() - 3];
                let text = counted(old(self).kernel.strings@, sa as int);
                let n: int = if 0 <= u < text.len() { u as int } else { text.len() as int };
                old(self).kernel.depth() >= 3 && old(self).valid_string(sa) ==> {
                    &&& final(self).pending matches Some(HostOp::WriteFileLine { id: fid, text: t }) && fid == id
                        && t@ == text.subrange(0, n)
                    &&& final(self).stack() == st.subrange(0, st.len() - 3)
                }
            }),
    {
        if !self.need(3) {
            return;
        }
        let id = self.pop();
        let chars = self.pop();
        if let Some(text) = self.pop_string() {
            let n = if 0 <= chars && chars < text.len() as i64 { chars as usize } else { text.len() };
            let part = slice_prefix(text.as_slice(), n);
            self.pending = Some(HostOp::WriteFileLine { id, text: part });
            proof {
                if old(self).kernel.depth() >= 3 && old(self).valid_string(old(self).stack()[old(self).stack().len() - 3]) {
                    assert(self.stack() =~= old(self).stack().subrange(0, old(self).stack().len() - 3));
                }
            }
        }
    }

    /// file-size ( file-id -- u )
    pub fn f_file_size(&mut self)
        requires
            old(self).wf(),
        ensures
            frame_kept(*old(self), *final(self)),
            final(self).kept(old(self)),
            old(self).kernel.depth() < 1 ==> underflowed(*old(self), *final(self)),
            old(self).kernel.depth() >= 1 ==> final(self).pending == Some(HostOp::FileSize { id: top(old(self).stack()) })
                && final(self).stack() == old(self).stack().drop_last(),
    {
        self.pop_request(Prim::FileSize);
    }

    /// file-position ( file-id -- u )
    pub fn f_file_position(&mut self)
        requires
            old(self).wf(),
        ensures
            frame_kept(*old(self), *final(self)),
            final(self).kept(old(self)),
            old(self).kernel.depth() < 1 ==> underflowed(*old(self), *final(self)),
            old(self).kernel.depth() >= 1 ==> final(self).pending == Some(HostOp::FilePosition { id: top(old(self).stack()) })
                && final(self).stack() == old(self).stack().drop_last(),
    {
        self.pop_request(Prim::FilePosition);
    }

    /// (system) ( s -- ) asks the host to run the command line at `s`.
    pub fn f_system_p(&mut self)
        requires
            old(self).wf(),
        ensures
            frame_kept(*old(self), *final(self)),
            final(self).kept(old(self)),
            old(self).kernel.depth() >= 1 && old(self).valid_string(top(old(self).stack())) ==> {
                &&& final(self).pending matches Some(HostOp::System { command }) && command@ == counted(
                    old(self).kernel.strings@,
                    top(old(self).stack()) as int,
                )
                &&& final(self).stack() == old(self).stack().drop_last()
            },
    {
        if let Some(command) = self.pop_string() {
            self.pending = Some(HostOp::System { command });
        }
    }

    /// ms ( n -- ) asks the host to sleep `n` milliseconds.
    pub fn f_ms(&mut self)
        requires
            old(self).wf(),
        ensures
            frame_kept(*old(self), *final(self)),
            final(self).kept(old(self)),
            old(self).kernel.depth() < 1 ==> underflowed(*old(self), *final(self)),
            old(self).kernel.depth() >= 1 ==> final(self).pending == Some(HostOp::Sleep { millis: top(old(self).stack()) })
                && final(self).stack() == old(self).stack().drop_last(),
    {
        self.pop_request(Prim::Ms);
    }

    /// now ( -- ) restarts the host's timer.
    pub fn f_now(&mut self)
        requires
            old(self).wf(),
        ensures
            frame_kept(*old(self), *final(self)),
            final(self).stable(old(self)),
            final(self).pending == Some(HostOp::TimerStart),
            final(self).kernel == old(self).kernel,
    {
        self.pending = Some(HostOp::TimerStart);
    }

    /// micros ( -- n )
    pub fn f_micros(&mut self)
        requires
            old(self).wf(),
        ensures
            frame_kept(*old(self), *final(self)),
            final(self).stable(old(self)),
            final(self).pending == Some(HostOp::Micros),
            final(self).kernel == old(self).kernel,
    {
        self.pending = Some(HostOp::Micros);
    }

    /// millis ( -- n )
    pub fn f_millis(&mut self)
        requires
            old(self).wf(),
        ensures
            frame_kept(*old(self), *final(self)),
            final(self).stable(old(self)),
            final(self).pending == Some(HostOp::Millis),
            final(self).kernel == old(self).kernel,
    {
        self.pending = Some(HostOp::Millis);
    }

    pub fn f_raw_mode_on(&mut self)
        requires
            old(self).wf(),
        ensures
            frame_kept(*old(self), *final(self)),
            final(self).stable(old(self)),
            final(self).pending == Some(HostOp::RawModeOn),
            final(self).kernel == old(self).kernel,
    {
        self.pending = Some(HostOp::RawModeOn);
    }

    pub fn f_raw_mode_off(&mut self)
        requires
            old(self).wf(),
        ensures
            frame_kept(*old(self), *final(self)),
            final(self).stable(old(self)),
            final(self).pending == Some(HostOp::RawModeOff),
            final(self).kernel == old(self).kernel,
    {
        self.pending = Some(HostOp::RawModeOff);
    }

    /// raw-mode? ( -- f )
    pub fn f_raw_mode_q(&mut self)
        requires
            old(self).wf(),
        ensures
            frame_kept(*old(self), *final(self)),
            final(self).stable(old(self)),
            final(self).pending == Some(HostOp::RawModeQuery),
            final(self).kernel == old(self).kernel,
    {
        self.pending = Some(HostOp::RawModeQuery);
    }

    /// flush ( -- ) asks the host to write out pending output.
    pub fn f_flush(&mut self)
        requires
            old(self).wf(),
        ensures
            frame_kept(*old(self), *final(self)),
            final(self).stable(old(self)),
            final(self).pending == Some(HostOp::Flush),
            final(self).kernel == old(self).kernel,
    {
        self.pending = Some(HostOp::Flush);
    }

    /// (emit) ( c -- ) writes the character `c` (mod 128).
    pub fn f_emit_p(&mut self)
        requires
            old(self).wf(),
        ensures
            frame_kept(*old(self), *final(self)),
            final(self).stable(old(self)),
            old(self).kernel.depth() < 1 ==> underflowed(*old(self), *final(self)),
            old(self).kernel.depth() >= 1 ==> {
                &&& final(self).out@ == old(self).out@.push((top(old(self).stack()) & 127) as u8)
                &&& final(self).stack() == old(self).stack().drop_last()
            },
    {
        if self.need(1) {
            let c = self.pop();
            self.out.push((c & 127) as u8);
        }
    }

    /// . ( n -- ) writes `n` in base 10 followed by a space.
    pub fn f_dot(&mut self)
        requires
            old(self).wf(),
        ensures
            frame_kept(*old(self), *final(self)),
            final(self).stable(old(self)),
            old(self).kernel.depth() < 1 ==> underflowed(*old(self), *final(self)),
            old(self).kernel.depth() >= 1 ==> {
                &&& final(self).out@ == old(self).out@ + decimal_text(top(old(self).stack()) as int) + seq![32u8]
                &&& final(self).stack() == old(self).stack().drop_last()
                &&& final(self).msg == old(self).msg
            },
    {
        if self.need(1) {
            let n = self.pop();
            write_number(&mut self.out, n);
            self.out.push(32u8);
        }
    }

    /// .s ( -- ) writes the data stack, bottom first, between brackets.
    pub fn f_dot_s(&mut self)
        requires
            old(self).wf(),
        ensures
            frame_kept(*old(self), *final(self)),
            final(self).kernel == old(self).kernel,
            final(self).stable(old(self)),
            final(self).msg == old(self).msg,
            final(self).out@ == old(self).out@ + seq![91u8, 32u8] + items_text(old(self).stack()) + seq![93u8, 32u8],
    {
        self.out.push(91u8);
        self.out.push(32u8);
        let ghost st = old(self).stack();
        let ghost start = old(self).out@ + seq![91u8, 32u8];
        assert(self.out@ =~= start + items_text(st.subrange(0, 0)));
        let mut i: usize = STACK_START;
        while i > self.kernel.stack_ptr
            invariant
                self.wf(),
                self.kernel == old(self).kernel,
                self.stable(old(self)),
                self.msg == old(self).msg,
                self.kernel.stack_ptr <= i <= STACK_START,
                self.pc == old(self).pc,
                st == old(self).stack(),
                self.out@ == start + items_text(st.subrange(0, STACK_START - i)),
            decreases i,
        {
            i = i - 1;
            let v = self.kernel.get(i);
            write_number(&mut self.out, v);
            self.out.push(32u8);
            let ghost j = STACK_START - i;
            assert(st.subrange(0, j).drop_last() =~= st.subrange(0, j - 1));
            assert(st.subrange(0, j).last() == v);
            assert(self.out@ =~= start + items_text(st.subrange(0, j)));
        }
        assert(st.subrange(0, st.len() as int) =~= st);
        self.out.push(93u8);
        self.out.push(32u8);
        assert(self.out@ =~= old(self).out@ + seq![91u8, 32u8] + items_text(st) + seq![93u8, 32u8]);
    }

    /// Hands the machine's pending output to the host.
    pub fn take_output(&mut self) -> (r: Vec<u8>)
        ensures
            r@ == old(self).out@,
            final(self).out@.len() == 0,
            final(self).kernel == old(self).kernel,
    {
        let mut out = Vec::new();
        std::mem::swap(&mut out, &mut self.out);
        out
    }

    pub fn f_show_stack(&mut self)
        requires
            old(self).wf(),
        ensures
            frame_kept(*old(self), *final(self)),
            final(self).stable(old(self)),
            final(self).show_stack,
            final(self).kernel == old(self).kernel,
    {
        self.show_stack = true;
    }

    pub fn f_hide_stack(&mut self)
        requires
            old(self).wf(),
        ensures
            frame_kept(*old(self), *final(self)),
            final(self).stable(old(self)),
            !final(self).show_stack,
            final(self).kernel == old(self).kernel,
    {
        self.show_stack = false;
    }

    /// dbg ( n -- ) sets the diagnostics level: 0 errors, 1 warnings, 2 info, else debug.
    pub fn f_dbg(&mut self)
        requires
            old(self).wf(),
        ensures
            frame_kept(*old(self), *final(self)),
            final(self).stable(old(self)),
            old(self).kernel.depth() >= 1 ==> {
                let n = top(old(self).stack());
                &&& final(self).msg.level == (if n == 0 {
                    DebugLevel::Error
                } else if n == 1 {
                    DebugLevel::Warning
                } else if n == 2 {
                    DebugLevel::Info
                } else {
                    DebugLevel::Debug
                })
                &&& final(self).stack() == old(self).stack().drop_last()
            },
    {
        if self.need(1) {
            let n = self.pop();
            let level = if n == 0 {
                DebugLevel::Error
            } else if n == 1 {
                DebugLevel::Warning
            } else if n == 2 {
                DebugLevel::Info
            } else {
                DebugLevel::Debug
            };
            self.msg.set_level(level);
        }
    }

    /// debuglevel ( -- ) writes the diagnostics level (0 to 3).
    pub fn f_debuglevel(&mut self)
        requires
            old(self).wf(),
        ensures
            frame_kept(*old(self), *final(self)),
            final(self).stable(old(self)),
            final(self).kernel == old(self).kernel,
            final(self).out@ == old(self).out@ + decimal_text(
                match old(self).msg.level {
                    DebugLevel::Error => 0,
                    DebugLevel::Warning => 1,
                    DebugLevel::Info => 2,
                    DebugLevel::Debug => 3,
                },
            ) + seq![32u8],
    {
        let n: i64 = match self.msg.get_level() {
            DebugLevel::Error => 0,
            DebugLevel::Warning => 1,
            DebugLevel::Info => 2,
            DebugLevel::Debug => 3,
        };
        write_number(&mut self.out, n);
        self.out.push(32u8);
    }

    /// quit ( -- ) abandons the current evaluation and returns to the prompt.
    pub fn f_quit(&mut self)
        requires
            old(self).wf(),
        ensures
            frame_kept(*old(self), *final(self)),
            final(self).is_reset(),
            final(self).stable(old(self)),
    {
        self.f_abort();
    }

    /// >c ( addr tag -- ) pushes a control marker.
    pub fn f_to_c(&mut self)
        requires
            old(self).wf(),
        ensures
            frame_kept(*old(self), *final(self)),
            final(self).stable(old(self)),
            ({
                let st = old(self).stack();
                let tag = top(st);
                let a = second(st);
                old(self).kernel.depth() >= 2 && 0 <= a < DATA_SIZE ==> {
                    &&& tag == MARK_BEGIN ==> final(self).control_stack@ == old(self).control_stack@.push(
                        ControlMarker::Begin(a as usize),
                    )
                    &&& tag == MARK_WHILE ==> final(self).control_stack@ == old(self).control_stack@.push(
                        ControlMarker::While(a as usize),
                    )
                    &&& tag == MARK_FOR ==> final(self).control_stack@ == old(self).control_stack@.push(
                        ControlMarker::For(a as usize),
                    )
                    &&& tag == MARK_CASE ==> final(self).control_stack@ == old(self).control_stack@.push(
                        ControlMarker::Case(a as usize),
                    )
                    &&& tag == MARK_OF ==> final(self).control_stack@ == old(self).control_stack@.push(
                        ControlMarker::Of(a as usize),
                    )
                    &&& tag != MARK_BEGIN && tag != MARK_WHILE && tag != MARK_FOR && tag != MARK_CASE && tag != MARK_OF
                        ==> final(self).is_reset()
                }
            }),
    {
        if !self.need(2) {
            return;
        }
        let tag = self.pop();
        let addr = self.pop();
        if addr < 0 || addr >= DATA_SIZE as i64 {
            self.f_abort_with(MsgKind::AddressOutOfRange, addr);
            return;
        }
        let a = addr as usize;
        if tag == MARK_BEGIN {
            self.control_stack.push(ControlMarker::Begin(a));
        } else if tag == MARK_WHILE {
            self.control_stack.push(ControlMarker::While(a));
        } else if tag == MARK_FOR {
            self.control_stack.push(ControlMarker::For(a));
        } else if tag == MARK_CASE {
            self.control_stack.push(ControlMarker::Case(a));
        } else if tag == MARK_OF {
            self.control_stack.push(ControlMarker::Of(a));
        } else {
            self.f_abort_with(MsgKind::UnknownControlTag, tag);
        }
    }

    /// c> ( -- addr ) pops a control marker and pushes its address.
    pub fn f_from_c(&mut self)
        requires
            old(self).wf(),
        ensures
            frame_kept(*old(self), *final(self)),
            final(self).stable(old(self)),
            old(self).control_stack@.len() > 0 ==> final(self).control_stack@ == old(self).control_stack@.drop_last(),
            old(self).control_stack@.len() > 0 && old(self).has_room() ==> final(self).stack() == old(self).stack().push(
                marker_address(old(self).control_stack@.last()) as i64,
            ),
            old(self).control_stack@.len() == 0 ==> final(self).msg.log@.last().kind == MsgKind::ControlStackUnderflow,
    {
        match self.control_stack.pop() {
            Some(m) => {
                let a = match m {
                    ControlMarker::Begin(a) => a,
                    ControlMarker::While(a) => a,
                    ControlMarker::For(a) => a,
                    ControlMarker::Case(a) => a,
                    ControlMarker::Of(a) => a,
                };
                self.push(a as i64);
            },
            None => self.msg.error(MsgKind::ControlStackUnderflow, 0),
        }
    }

    /// builtin-name ( i -- s ) copies the name of builtin `i` to TMP and pushes its address.
    pub fn f_builtin_name(&mut self)
        requires
            old(self).wf(),
        ensures
            frame_kept(*old(self), *final(self)),
            final(self).stable(old(self)),
    {
        if !self.need(1) {
            return;
        }
        let index = self.pop();
        let tmp = self.kernel.get(self.tmp_ptr);
        if 0 <= index && (index as u64) < self.kernel.builtins.len() as u64 && 0 <= tmp && tmp < STRING_SIZE as i64
            - 256 {
            let name = self.kernel.get_builtin(index as usize).name.as_str().as_bytes();
            let n = if name.len() < 255 { name.len() } else { 255 };
            let part = slice_prefix(name, n);
            self.kernel.write_counted(part.as_slice(), tmp as usize);
            self.kernel.push(tmp);
        } else {
            self.f_abort_with(MsgKind::AddressOutOfRange, index);
        }
    }
}

/// A copy of the first `n` bytes of `s`.
pub fn slice_prefix(s: &[u8], n: usize) -> (r: Vec<u8>)
    requires
        n <= s@.len(),
    ensures
        r@ == s@.subrange(0, n as int),
{
    let mut r: Vec<u8> = Vec::new();
    let mut i: usize = 0;
    while i < n
        invariant
            i <= n,
            n <= s@.len(),
            r@ == s@.subrange(0, i as int),
        decreases n - i,
    {
        r.push(s[i]);
        i = i + 1;
        assert(r@ =~= s@.subrange(0, i as int));
    }
    r
}

/// A copy of a byte vector.
pub fn clone_bytes(v: &Vec<u8>) -> (r: Vec<u8>)
    ensures
        r@ == v@,
{
    let r = slice_prefix(v.as_slice(), v.len());
    assert(v@.subrange(0, v@.len() as int) =~= v@);
    r
}

} // verus!
