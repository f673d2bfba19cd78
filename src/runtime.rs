//! The machine's state: registers, stack access with its error paths, and abort.
use crate::kernel::{counted, counted_fits, Kernel, ADDRESS_MASK, BUF_SIZE, DATA_SIZE, STACK_START};
use crate::messages::{Msg, MsgKind};
use crate::inner::frame_kept;
use vstd::prelude::*;

verus! {

// String arena layout
pub const TIB_START: usize = 0;
pub const PAD_START: usize = TIB_START + BUF_SIZE;
pub const TMP_START: usize = PAD_START + BUF_SIZE;
pub const STR_START: usize = TMP_START + BUF_SIZE;

// Structural tags: larger than any arena address
pub const BUILTIN: i64 = 100000;
pub const VARIABLE: i64 = 100001;
pub const CONSTANT: i64 = 100002;
pub const LITERAL: i64 = 100003;
pub const STRLIT: i64 = 100004;
pub const DEFINITION: i64 = 100005;
pub const BRANCH: i64 = 100006;
pub const BRANCH0: i64 = 100007;
pub const ABORT: i64 = 100008;
pub const EXIT: i64 = 100009;
pub const BREAK: i64 = 100010;
pub const EXEC: i64 = 100011;

// Control-structure markers
pub const MARK_BEGIN: i64 = 200000;
pub const MARK_WHILE: i64 = 200001;
pub const MARK_FOR: i64 = 200002;
pub const MARK_CASE: i64 = 200003;
pub const MARK_OF: i64 = 200004;

pub const TRUE: i64 = -1;
pub const FALSE: i64 = 0;
pub const IMMEDIATE_FLAG: u64 = 0x4000000000000000;
pub const BUILTIN_FLAG: u64 = 0x2000000000000000;

/// An unresolved branch target of a control structure being compiled.
#[derive(Clone, Copy, Debug, PartialEq, Eq, Structural)]
pub enum ControlMarker {
    Begin(usize),
    While(usize),
    For(usize),
    Case(usize),
    Of(usize),
}

/// How a file is opened.
#[derive(Clone, Copy, Debug, PartialEq, Eq, Structural)]
pub enum FileMode {
    RW,
    RO,
    WO,
}

/// The file access mode that a Forth access-mode value selects: -1 read-write,
/// 1 write-only, anything else read-only.
pub fn file_mode_of(mode: i64) -> (r: FileMode)
    ensures
        mode == -1 ==> r == FileMode::RW,
        mode == 1 ==> r == FileMode::WO,
        mode != -1 && mode != 1 ==> r == FileMode::RO,
{
    if mode == -1 {
        FileMode::RW
    } else if mode == 1 {
        FileMode::WO
    } else {
        FileMode::RO
    }
}

/// An input source: the interactive console at the root, or the lines of an included file.
pub enum Source {
    Console,
    File { lines: Vec<Vec<u8>>, next: usize },
}

/// Work that only the host can do; evaluation waits until the host has done it.
#[derive(Debug, PartialEq, Eq)]
pub enum HostOp {
    /// Read a console line into the counted string at `dest`, at most `max` bytes,
    /// then hand it over with `accept_console_line`.
    ReadLine { dest: usize, max: usize, query: bool },
    /// Read one character and push it (0 if none).
    Key,
    /// Open the named file and hand its lines over with `include_lines`.
    Include { name: Vec<u8> },
    /// Open a file ( -- file-id ior ).
    OpenFile { name: Vec<u8>, mode: i64 },
    /// Close a file ( -- ior ).
    CloseFile { id: i64 },
    /// Read a line of a file into TMP ( -- u flag ior ).
    ReadFileLine { id: i64, limit: i64 },
    /// Write text to a file ( -- ior ).
    WriteFileLine { id: i64, text: Vec<u8> },
    /// ( -- u ) the size of a file.
    FileSize { id: i64 },
    /// ( -- u ) the position in a file.
    FilePosition { id: i64 },
    /// Run a shell command line.
    System { command: Vec<u8> },
    /// Sleep for a number of milliseconds.
    Sleep { millis: i64 },
    /// Restart the timer.
    TimerStart,
    /// ( -- n ) microseconds since the timer started.
    Micros,
    /// ( -- n ) milliseconds since the timer started.
    Millis,
    RawModeOn,
    RawModeOff,
    /// ( -- f ) whether the terminal is in raw mode.
    RawModeQuery,
    /// Write out pending output.
    Flush,
    /// The tracer wants to show the cell at `pc` before it runs.
    Step { pc: usize, depth: usize },
}

pub struct ForthRuntime {
    pub kernel: Kernel,
    pub control_stack: Vec<ControlMarker>,
    pub here_ptr: usize,
    pub context_ptr: usize,
    pub base_ptr: usize,
    pub pad_ptr: usize,
    pub tmp_ptr: usize,
    pub last_ptr: usize,
    pub hld_ptr: usize,
    pub state_ptr: usize,
    pub abort_ptr: usize,
    pub tib_ptr: usize,
    pub tib_size_ptr: usize,
    pub tib_in_ptr: usize,
    pub exit_flag: bool,
    pub msg: Msg,
    /// The input sources, the console at the bottom.
    pub reader: Vec<Source>,
    pub show_stack: bool,
    pub stepper_ptr: usize,
    pub step_depth_ptr: usize,
    /// Text written by the machine that the host has not yet shown.
    pub out: Vec<u8>,
    /// The host operation that evaluation is waiting for.
    pub pending: Option<HostOp>,
    /// The inner interpreter's program counter; 0 when no definition is running.
    pub pc: usize,
    pub call_depth: usize,
    /// The outer interpreter still has tokens of the current line to take.
    pub evaluating: bool,
    /// The tracer has already shown the cell at `pc`.
    pub traced: bool,
}

/// The word whose name field is at `link + 1` is named `name`.
pub open spec fn name_matches(heap: Seq<i64>, strings: Seq<u8>, link: int, name: Seq<u8>) -> bool {
    let nfa = masked(heap[link + 1]);
    counted_fits(strings, nfa) && counted(strings, nfa) == name
}

/// The address held in a cell, with the flag bits cleared; -1 for a negative cell.
pub open spec fn masked(v: i64) -> int {
    if v >= 0 {
        (v as u64 & ADDRESS_MASK) as int
    } else {
        -1
    }
}

/// The address held in a cell, with the flag bits cleared; `None` for a negative cell.
pub fn mask_address(v: i64) -> (r: Option<u64>)
    ensures
        v >= 0 ==> r == Some((v as u64 & ADDRESS_MASK)),
        v < 0 ==> r is None,
{
    if v >= 0 {
        Some(v as u64 & ADDRESS_MASK)
    } else {
        None
    }
}

/// FIND: walks the back links from `link`, returning the code field address of
/// the first word named `name`, or 0 when there is none.
pub open spec fn dict_find(heap: Seq<i64>, strings: Seq<u8>, link: int, name: Seq<u8>) -> int
    decreases link,
{
    if link <= 0 || link + 2 >= DATA_SIZE || heap.len() != DATA_SIZE {
        0
    } else if name_matches(heap, strings, link, name) {
        link + 2
    } else if 0 <= heap[link] < link {
        dict_find(heap, strings, heap[link] as int, name)
    } else {
        0
    }
}

impl ForthRuntime {
    pub open spec fn wf(&self) -> bool {
        &&& self.kernel.wf()
        &&& self.here_ptr < DATA_SIZE
        &&& self.context_ptr < DATA_SIZE
        &&& self.base_ptr < DATA_SIZE
        &&& self.pad_ptr < DATA_SIZE
        &&& self.tmp_ptr < DATA_SIZE
        &&& self.last_ptr < DATA_SIZE
        &&& self.hld_ptr < DATA_SIZE
        &&& self.state_ptr < DATA_SIZE
        &&& self.abort_ptr < DATA_SIZE
        &&& self.tib_ptr < DATA_SIZE
        &&& self.tib_size_ptr < DATA_SIZE
        &&& self.tib_in_ptr < DATA_SIZE
        &&& self.stepper_ptr < DATA_SIZE
        &&& self.step_depth_ptr < DATA_SIZE
        &&& self.reader@.len() >= 1
        &&& self.reader@[0] is Console
        &&& self.pc < DATA_SIZE
    }

    /// The system variables sit where `insert_variables` puts them.
    pub open spec fn booted(&self) -> bool {
        &&& self.here_ptr == 8
        &&& self.context_ptr == 12
        &&& self.pad_ptr == 16
        &&& self.base_ptr == 20
        &&& self.tmp_ptr == 24
        &&& self.tib_ptr == 28
        &&& self.tib_size_ptr == 32
        &&& self.tib_in_ptr == 36
        &&& self.hld_ptr == 40
        &&& self.last_ptr == 44
        &&& self.abort_ptr == 52
        &&& self.state_ptr == 56
        &&& self.stepper_ptr == 60
        &&& self.step_depth_ptr == 64
        &&& self.kernel.string_ptr == 4
    }

    /// The system variables are in place and lie below the data stack.
    pub open spec fn vars_clear(&self) -> bool {
        self.booted() && 66 < self.kernel.stack_ptr
    }


    pub open spec fn stack(&self) -> Seq<i64> {
        self.kernel.data_stack()
    }

    pub open spec fn here_val(&self) -> int {
        self.kernel.heap@[self.here_ptr as int] as int
    }

    pub open spec fn aborted(&self) -> bool {
        self.kernel.heap@[self.abort_ptr as int] != 0
    }

    pub open spec fn compiling(&self) -> bool {
        self.kernel.heap@[self.state_ptr as int] != 0
    }

    /// The code field address that FIND gives for `name`, or 0.
    pub open spec fn lookup(&self, name: Seq<u8>) -> int {
        dict_find(self.kernel.heap@, self.kernel.strings@, self.kernel.heap@[self.context_ptr as int] - 1, name)
    }

    /// `k` more items fit on the data stack without reaching the dictionary
    /// or the system variables.
    pub open spec fn room_for(&self, k: int) -> bool {
        &&& self.kernel.stack_ptr > k + 66
        &&& self.here_val() < self.kernel.stack_ptr - k
        &&& self.here_ptr + k + 1 < self.kernel.stack_ptr
    }

    /// One more item fits on the data stack without reaching the dictionary.
    pub open spec fn has_room(&self) -> bool {
        &&& self.kernel.stack_ptr > 0
        &&& self.here_val() < self.kernel.stack_ptr
        &&& self.here_ptr + 1 < self.kernel.stack_ptr
    }

    /// The state after an abort: both stacks empty, the abort flag set, interpretation mode.
    pub open spec fn is_reset(&self) -> bool {
        &&& self.wf()
        &&& self.kernel.data_stack().len() == 0
        &&& self.kernel.ret_stack().len() == 0
        &&& self.aborted()
        &&& self.pc == 0
        &&& self.pending is None
        &&& !self.evaluating
    }

    /// The pointers into the arena, the flags and the input sources are unchanged.
    pub open spec fn same_registers(&self, old: &ForthRuntime) -> bool {
        &&& self.here_ptr == old.here_ptr
        &&& self.context_ptr == old.context_ptr
        &&& self.base_ptr == old.base_ptr
        &&& self.pad_ptr == old.pad_ptr
        &&& self.tmp_ptr == old.tmp_ptr
        &&& self.last_ptr == old.last_ptr
        &&& self.hld_ptr == old.hld_ptr
        &&& self.state_ptr == old.state_ptr
        &&& self.abort_ptr == old.abort_ptr
        &&& self.tib_ptr == old.tib_ptr
        &&& self.tib_size_ptr == old.tib_size_ptr
        &&& self.tib_in_ptr == old.tib_in_ptr
        &&& self.stepper_ptr == old.stepper_ptr
        &&& self.step_depth_ptr == old.step_depth_ptr
        &&& self.exit_flag == old.exit_flag
        &&& self.reader@ == old.reader@
        &&& self.pc == old.pc
        &&& self.pending == old.pending
        &&& self.evaluating == old.evaluating
        &&& self.control_stack@ == old.control_stack@
    }

    pub fn new() -> (r: ForthRuntime)
        ensures
            r.wf(),
            r.kernel.data_stack().len() == 0,
            r.kernel.ret_stack().len() == 0,
            r.reader@.len() == 1,
            !r.exit_flag,
            r.pc == 0,
            r.pending is None,
            r.msg.log@.len() == 0,
            r.kernel.builtins@.len() == 0,
            forall|a: int| 0 <= a < DATA_SIZE ==> #[trigger] r.kernel.heap@[a] == 0,
    {
        let mut reader: Vec<Source> = Vec::new();
        reader.push(Source::Console);
        ForthRuntime {
            kernel: Kernel::new(),
            control_stack: Vec::new(),
            here_ptr: 0,
            context_ptr: 0,
            base_ptr: 0,
            pad_ptr: 0,
            tmp_ptr: 0,
            last_ptr: 0,
            hld_ptr: 0,
            state_ptr: 0,
            abort_ptr: 0,
            tib_ptr: 0,
            tib_size_ptr: 0,
            tib_in_ptr: 0,
            exit_flag: false,
            msg: Msg::new(),
            reader,
            show_stack: true,
            stepper_ptr: 0,
            step_depth_ptr: 1,
            out: Vec::new(),
            pending: None,
            pc: 0,
            call_depth: 0,
            evaluating: false,
            traced: false,
        }
    }

    /// The value of HERE, the first free dictionary cell.
    pub fn here(&self) -> (r: i64)
        requires
            self.wf(),
        ensures
            r == self.here_val(),
    {
        self.kernel.get(self.here_ptr)
    }

    /// Whether the data stack has room for one more item.
    pub fn room(&self) -> (r: bool)
        requires
            self.wf(),
        ensures
            r == self.has_room(),
    {
        self.kernel.stack_ptr > 0 && self.here() < self.kernel.stack_ptr as i64 && self.here_ptr + 1
            < self.kernel.stack_ptr
    }

    /// Pushes `val` on the data stack; when the stack would reach the
    /// dictionary, reports an overflow and aborts instead.
    pub fn push(&mut self, val: i64)
        requires
            old(self).wf(),
        ensures
            final(self).wf(),
            old(self).has_room() ==> final(self).stack() == old(self).stack().push(val),
            old(self).has_room() ==> final(self).kernel.heap@ == old(self).kernel.heap@.update(
                old(self).kernel.stack_ptr - 1,
                val,
            ),
            old(self).has_room() ==> final(self).kernel.stack_ptr == old(self).kernel.stack_ptr - 1,
            old(self).has_room() ==> final(self).kernel.ret_stack() == old(self).kernel.ret_stack(),
            old(self).has_room() ==> final(self).kernel.return_ptr == old(self).kernel.return_ptr,
            old(self).has_room() ==> final(self).msg == old(self).msg,
            old(self).has_room() ==> final(self).same_registers(old(self)),
            !old(self).has_room() ==> final(self).is_reset(),
            final(self).kernel.strings@ == old(self).kernel.strings@,
            final(self).kernel.builtins@ == old(self).kernel.builtins@,
            final(self).kernel.string_ptr == old(self).kernel.string_ptr,
            final(self).reader@ == old(self).reader@,
            final(self).exit_flag == old(self).exit_flag,
            final(self).booted() == old(self).booted(),
            final(self).same_pointers(old(self)),
            final(self).control_stack@ == old(self).control_stack@,
    {
        if self.room() {
            self.kernel.push(val);
        } else {
            self.msg.error(MsgKind::StackOverflow, val);
            self.f_abort();
        }
    }

    /// The registers other than the input sources are unchanged.
    pub open spec fn same_registers_but_sources(&self, old: &ForthRuntime) -> bool {
        &&& self.same_pointers(old)
        &&& self.exit_flag == old.exit_flag
        &&& self.pc == old.pc
        &&& self.pending == old.pending
        &&& self.evaluating == old.evaluating
        &&& self.msg == old.msg
    }

    /// At most the top cell of the stack and the cell just above it changed,
    /// apart from the stack pointers; the registers are as they were.
    pub open spec fn framed(&self, old: &ForthRuntime) -> bool {
        &&& forall|a: int| 0 <= a < old.kernel.stack_ptr - 1 ==> #[trigger] self.kernel.heap@[a] == old.kernel.heap@[a]
        &&& self.kernel.ret_stack() == old.kernel.ret_stack()
        &&& self.kernel.return_ptr == old.kernel.return_ptr
        &&& self.kernel.strings@ == old.kernel.strings@
        &&& self.same_registers(old)
    }

    /// The pointers into the arena are unchanged.
    pub open spec fn same_pointers(&self, old: &ForthRuntime) -> bool {
        &&& self.here_ptr == old.here_ptr
        &&& self.context_ptr == old.context_ptr
        &&& self.base_ptr == old.base_ptr
        &&& self.pad_ptr == old.pad_ptr
        &&& self.tmp_ptr == old.tmp_ptr
        &&& self.last_ptr == old.last_ptr
        &&& self.hld_ptr == old.hld_ptr
        &&& self.state_ptr == old.state_ptr
        &&& self.abort_ptr == old.abort_ptr
        &&& self.tib_ptr == old.tib_ptr
        &&& self.tib_size_ptr == old.tib_size_ptr
        &&& self.tib_in_ptr == old.tib_in_ptr
        &&& self.stepper_ptr == old.stepper_ptr
        &&& self.step_depth_ptr == old.step_depth_ptr
    }

    /// Checks that the data stack holds at least `n` items; when it does
    /// not, reports an underflow and aborts without reading the stack.
    pub fn need(&mut self, n: usize) -> (r: bool)
        requires
            old(self).wf(),
        ensures
            final(self).wf(),
            r == (old(self).kernel.depth() >= n),
            r ==> *final(self) == *old(self),
            !r ==> final(self).is_reset(),
            !r ==> final(self).msg.log@.len() > 0,
            !r ==> final(self).msg.log@.last().kind == MsgKind::StackUnderflow,
            !r ==> final(self).kernel.heap@ == old(self).kernel.heap@.update(old(self).abort_ptr as int, TRUE)
                .update(old(self).state_ptr as int, FALSE)
                || final(self).kernel.heap@ == old(self).kernel.heap@.update(old(self).state_ptr as int, FALSE)
                .update(old(self).abort_ptr as int, TRUE),
            final(self).kernel.strings@ == old(self).kernel.strings@,
            final(self).kernel.builtins@ == old(self).kernel.builtins@,
            final(self).kernel.string_ptr == old(self).kernel.string_ptr,
            final(self).reader@ == old(self).reader@,
            final(self).exit_flag == old(self).exit_flag,
            final(self).same_pointers(old(self)),
    {
        if self.kernel.stack_check(n, "") {
            true
        } else {
            self.f_abort_with(MsgKind::StackUnderflow, n as i64);
            false
        }
    }

    /// Pops the top of the data stack.
    pub fn pop(&mut self) -> (r: i64)
        requires
            old(self).wf(),
            old(self).kernel.depth() > 0,
        ensures
            final(self).wf(),
            r == old(self).stack().last(),
            final(self).stack() == old(self).stack().drop_last(),
            final(self).kernel.stack_ptr == old(self).kernel.stack_ptr + 1,
            final(self).kernel.heap@ == old(self).kernel.heap@,
            final(self).kernel.ret_stack() == old(self).kernel.ret_stack(),
            final(self).kernel.return_ptr == old(self).kernel.return_ptr,
            final(self).kernel.strings@ == old(self).kernel.strings@,
            final(self).kernel.builtins@ == old(self).kernel.builtins@,
            final(self).kernel.string_ptr == old(self).kernel.string_ptr,
            final(self).msg == old(self).msg,
            final(self).same_registers(old(self)),
            final(self).booted() == old(self).booted(),
            final(self).out == old(self).out,
    {
        self.kernel.pop()
    }

    /// Emits a value at HERE and advances HERE; when the dictionary would run
    /// into the data stack, reports it and aborts instead.
    pub fn emit_cell(&mut self, value: i64)
        requires
            old(self).wf(),
        ensures
            frame_kept(*old(self), *final(self)),
            final(self).wf(),
            ({
                let h = old(self).here_val();
                0 <= h && h + 1 < old(self).kernel.stack_ptr && h != old(self).here_ptr ==> {
                    &&& final(self).kernel.heap@ == old(self).kernel.heap@.update(h, value).update(
                        old(self).here_ptr as int,
                        (h + 1) as i64,
                    )
                    &&& final(self).kernel.stack_ptr == old(self).kernel.stack_ptr
                    &&& final(self).kernel.return_ptr == old(self).kernel.return_ptr
                    &&& final(self).msg == old(self).msg
                    &&& final(self).same_registers(old(self))
                }
            }),
            final(self).kernel.strings@ == old(self).kernel.strings@,
            final(self).kernel.builtins@ == old(self).kernel.builtins@,
            final(self).kernel.string_ptr == old(self).kernel.string_ptr,
            final(self).reader@ == old(self).reader@,
            final(self).exit_flag == old(self).exit_flag,
            final(self).same_pointers(old(self)),
    {
        let h = self.here();
        if 0 <= h && h < self.kernel.stack_ptr as i64 - 1 && h as usize != self.here_ptr {
            self.kernel.set(h as usize, value);
            self.kernel.set(self.here_ptr, h + 1);
        } else {
            self.f_abort_with(MsgKind::OutOfSpace, h);
        }
    }

    /// Reports an error of the given kind, then aborts.
    pub fn f_abort_with(&mut self, kind: MsgKind, value: i64)
        requires
            old(self).wf(),
        ensures
            final(self).is_reset(),
            final(self).msg.log@.len() > 0,
            final(self).msg.log@.len() >= old(self).msg.log@.len(),
            final(self).msg.log@.last().kind == kind,
            final(self).kernel.heap@ == old(self).kernel.heap@.update(old(self).abort_ptr as int, TRUE)
                .update(old(self).state_ptr as int, FALSE)
                || final(self).kernel.heap@ == old(self).kernel.heap@.update(old(self).state_ptr as int, FALSE)
                .update(old(self).abort_ptr as int, TRUE),
            final(self).kernel.strings@ == old(self).kernel.strings@,
            final(self).kernel.builtins@ == old(self).kernel.builtins@,
            final(self).kernel.string_ptr == old(self).kernel.string_ptr,
            final(self).reader@ == old(self).reader@,
            final(self).exit_flag == old(self).exit_flag,
            final(self).same_pointers(old(self)),
            final(self).booted() == old(self).booted(),
            final(self).control_stack@ == old(self).control_stack@,
    {
        self.reset_machine();
        self.msg.error(kind, value);
    }

    /// ABORT: reports it, empties the data and return stacks (the dictionary is
    /// untouched), leaves compilation mode and sets the abort flag.
    pub fn f_abort(&mut self)
        requires
            old(self).wf(),
        ensures
            frame_kept(*old(self), *final(self)),
            final(self).is_reset(),
            final(self).msg.log@.len() == old(self).msg.log@.len() + 1,
            final(self).msg.log@.last().kind == MsgKind::Aborted,
            forall|i: int| 0 <= i < old(self).msg.log@.len() ==> final(self).msg.log@[i] == old(self).msg.log@[i],
            final(self).kernel.heap@ == old(self).kernel.heap@.update(old(self).abort_ptr as int, TRUE)
                .update(old(self).state_ptr as int, FALSE)
                || final(self).kernel.heap@ == old(self).kernel.heap@.update(old(self).state_ptr as int, FALSE)
                .update(old(self).abort_ptr as int, TRUE),
            final(self).kernel.strings@ == old(self).kernel.strings@,
            final(self).kernel.builtins@ == old(self).kernel.builtins@,
            final(self).kernel.string_ptr == old(self).kernel.string_ptr,
            final(self).reader@ == old(self).reader@,
            final(self).exit_flag == old(self).exit_flag,
            final(self).same_pointers(old(self)),
            final(self).booted() == old(self).booted(),
            final(self).control_stack@ == old(self).control_stack@,
    {
        self.msg.warning(MsgKind::Aborted, Vec::new());
        self.reset_machine();
    }

    fn reset_machine(&mut self)
        requires
            old(self).wf(),
        ensures
            final(self).is_reset(),
            final(self).msg == old(self).msg,
            final(self).kernel.heap@ == old(self).kernel.heap@.update(old(self).abort_ptr as int, TRUE)
                .update(old(self).state_ptr as int, FALSE)
                || final(self).kernel.heap@ == old(self).kernel.heap@.update(old(self).state_ptr as int, FALSE)
                .update(old(self).abort_ptr as int, TRUE),
            final(self).kernel.strings@ == old(self).kernel.strings@,
            final(self).kernel.builtins@ == old(self).kernel.builtins@,
            final(self).kernel.string_ptr == old(self).kernel.string_ptr,
            final(self).reader@ == old(self).reader@,
            final(self).exit_flag == old(self).exit_flag,
            final(self).same_pointers(old(self)),
            final(self).booted() == old(self).booted(),
            final(self).control_stack@ == old(self).control_stack@,
    {
        self.f_clear();
        if self.state_ptr == self.abort_ptr {
            self.kernel.set(self.state_ptr, FALSE);
            self.kernel.set(self.abort_ptr, TRUE);
        } else {
            self.kernel.set(self.abort_ptr, TRUE);
            self.kernel.set(self.state_ptr, FALSE);
        }
        self.pc = 0;
        self.call_depth = 0;
        self.pending = None;
        self.evaluating = false;
    }

    /// Empties the data stack and the return stack.
    pub fn f_clear(&mut self)
        requires
            old(self).wf(),
        ensures
            final(self).wf(),
            final(self).kernel.data_stack().len() == 0,
            final(self).kernel.ret_stack().len() == 0,
            final(self).kernel.heap@ == old(self).kernel.heap@,
            final(self).kernel.strings@ == old(self).kernel.strings@,
            final(self).kernel.builtins@ == old(self).kernel.builtins@,
            final(self).kernel.string_ptr == old(self).kernel.string_ptr,
            final(self).msg == old(self).msg,
            final(self).same_registers(old(self)),
            final(self).booted() == old(self).booted(),
    {
        self.kernel.reset();
    }

    /// Sets or clears the abort flag.
    pub fn set_abort_flag(&mut self, v: bool)
        requires
            old(self).wf(),
        ensures
            final(self).wf(),
            final(self).aborted() == v,
            final(self).kernel.heap@ == old(self).kernel.heap@.update(
                old(self).abort_ptr as int,
                if v { TRUE } else { FALSE },
            ),
            final(self).kernel.stack_ptr == old(self).kernel.stack_ptr,
            final(self).kernel.return_ptr == old(self).kernel.return_ptr,
            final(self).kernel.strings@ == old(self).kernel.strings@,
            final(self).kernel.builtins@ == old(self).kernel.builtins@,
            final(self).kernel.string_ptr == old(self).kernel.string_ptr,
            final(self).msg == old(self).msg,
            final(self).same_registers(old(self)),
            final(self).booted() == old(self).booted(),
    {
        self.kernel.set(self.abort_ptr, if v { TRUE } else { FALSE });
    }

    /// Whether the abort flag is set.
    pub fn get_abort_flag(&self) -> (r: bool)
        requires
            self.wf(),
        ensures
            r == self.aborted(),
    {
        self.kernel.get(self.abort_ptr) != FALSE
    }

    /// Whether the machine is compiling.
    pub fn get_compile_mode(&self) -> (r: bool)
        requires
            self.wf(),
        ensures
            r == self.compiling(),
    {
        self.kernel.get(self.state_ptr) != FALSE
    }

    /// Sets STATE to true (-1) or false (0).
    pub fn set_compile_mode(&mut self, value: bool)
        requires
            old(self).wf(),
        ensures
            final(self).wf(),
            final(self).compiling() == value,
            final(self).kernel.heap@ == old(self).kernel.heap@.update(
                old(self).state_ptr as int,
                if value { TRUE } else { FALSE },
            ),
            final(self).kernel.stack_ptr == old(self).kernel.stack_ptr,
            final(self).kernel.return_ptr == old(self).kernel.return_ptr,
            final(self).kernel.strings@ == old(self).kernel.strings@,
            final(self).kernel.builtins@ == old(self).kernel.builtins@,
            final(self).kernel.string_ptr == old(self).kernel.string_ptr,
            final(self).msg == old(self).msg,
            final(self).same_registers(old(self)),
            final(self).booted() == old(self).booted(),
    {
        self.kernel.set(self.state_ptr, if value { TRUE } else { FALSE });
    }

    /// Whether `bye` has been executed or the console input has ended.
    pub fn should_exit(&self) -> (r: bool)
        ensures
            r == self.exit_flag,
    {
        self.exit_flag
    }

    /// bye ( -- ) asks the host to end the session.
    pub fn f_bye(&mut self)
        requires
            old(self).wf(),
        ensures
            frame_kept(*old(self), *final(self)),
            final(self).wf(),
            final(self).same_pointers(old(self)),
            final(self).exit_flag,
            final(self).kernel == old(self).kernel,
    {
        self.exit_flag = true;
    }
}

} // verus!
