use vstd::prelude::*;

verus! {

/// Severity of a diagnostic.
#[derive(Clone, Copy, Debug, PartialEq, Eq, Structural)]
pub enum DebugLevel {
    Error,
    Warning,
    Info,
    Debug,
}

/// What a diagnostic reports.
#[derive(Clone, Copy, Debug, PartialEq, Eq, Structural)]
pub enum MsgKind {
    /// An operation found fewer items on the data stack than it needs.
    StackUnderflow,
    /// The data stack would run into the dictionary.
    StackOverflow,
    /// The return stack is empty or full.
    ReturnStackError,
    /// An address lies outside the cell arena or the string arena.
    AddressOutOfRange,
    /// A token is neither a known word nor a number.
    TokenNotRecognized,
    /// Evaluation was abandoned and the stacks were emptied.
    Aborted,
    /// A name is being defined again.
    Redefinition,
    /// The dictionary or the string arena has no room left.
    OutOfSpace,
    /// Division or remainder by zero, or a quotient that does not fit a cell.
    DivisionError,
    /// The control-marker stack is empty.
    ControlStackUnderflow,
    /// An unknown control-marker tag.
    UnknownControlTag,
    /// A cell that cannot be executed.
    NotExecutable,
    /// An out-of-range builtin index: the arena is corrupt.
    CorruptCode,
    /// No word of that name exists.
    WordNotFound,
    /// The root input source came to its end.
    EndOfInput,
}

/// One diagnostic: its severity, its kind, a value and a text giving context.
pub struct Message {
    pub level: DebugLevel,
    pub kind: MsgKind,
    pub value: i64,
    pub text: Vec<u8>,
}

/// The diagnostics collaborator: it records messages and never halts the machine.
pub struct Msg {
    pub level: DebugLevel,
    pub log: Vec<Message>,
}

impl Msg {
    pub fn new() -> (r: Msg)
        ensures
            r.level == DebugLevel::Warning,
            r.log@.len() == 0,
    {
        Msg { level: DebugLevel::Warning, log: Vec::new() }
    }

    pub fn set_level(&mut self, level: DebugLevel)
        ensures
            final(self).level == level,
            final(self).log@ == old(self).log@,
    {
        self.level = level;
    }

    pub fn get_level(&self) -> (r: DebugLevel)
        ensures
            r == self.level,
    {
        self.level
    }

    /// Records a message.
    pub fn record(&mut self, level: DebugLevel, kind: MsgKind, value: i64, text: Vec<u8>)
        ensures
            final(self).level == old(self).level,
            final(self).log@.len() == old(self).log@.len() + 1,
            forall|i: int| 0 <= i < old(self).log@.len() ==> final(self).log@[i] == old(self).log@[i],
            final(self).log@.last().level == level,
            final(self).log@.last().kind == kind,
            final(self).log@.last().value == value,
            final(self).log@.last().text@ == text@,
    {
        self.log.push(Message { level, kind, value, text });
    }

    pub fn error(&mut self, kind: MsgKind, value: i64)
        ensures
            final(self).level == old(self).level,
            final(self).log@.len() == old(self).log@.len() + 1,
            forall|i: int| 0 <= i < old(self).log@.len() ==> final(self).log@[i] == old(self).log@[i],
            final(self).log@.last().level == DebugLevel::Error,
            final(self).log@.last().kind == kind,
    {
        self.record(DebugLevel::Error, kind, value, Vec::new());
    }

    pub fn warning(&mut self, kind: MsgKind, text: Vec<u8>)
        ensures
            final(self).level == old(self).level,
            final(self).log@.len() == old(self).log@.len() + 1,
            forall|i: int| 0 <= i < old(self).log@.len() ==> final(self).log@[i] == old(self).log@[i],
            final(self).log@.last().level == DebugLevel::Warning,
            final(self).log@.last().kind == kind,
            final(self).log@.last().text@ == text@,
    {
        self.record(DebugLevel::Warning, kind, 0, text);
    }

    /// Hands the recorded messages to the caller and forgets them.
    pub fn take(&mut self) -> (r: Vec<Message>)
        ensures
            r@ == old(self).log@,
            final(self).log@.len() == 0,
            final(self).level == old(self).level,
    {
        let mut out = Vec::new();
        std::mem::swap(&mut out, &mut self.log);
        out
    }
}

} // verus!
