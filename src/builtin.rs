use vstd::prelude::*;

verus! {

/// The native operations of the machine.
///
/// A builtin word's code field holds the index of its entry in the builtin
/// table, tagged with the builtin flag; the entry names one of these.
#[derive(Clone, Copy, Debug, PartialEq, Eq, Structural)]
pub enum Prim {
    Plus,
    Minus,
    Times,
    Divide,
    Mod,
    Less,
    True,
    False,
    Equal,
    ZeroEqual,
    ZeroLess,
    Dot,
    DotS,
    ShowStack,
    HideStack,
    EmitP,
    Flush,
    Clear,
    Colon,
    Bye,
    Dup,
    Drop,
    Swap,
    Over,
    Rot,
    Pick,
    Roll,
    And,
    Or,
    Get,
    Store,
    I,
    J,
    Abort,
    Depth,
    Key,
    IncludeFile,
    Dbg,
    DebugLevel,
    ToR,
    RFrom,
    RGet,
    Immediate,
    Quit,
    Execute,
    Eval,
    NumberQ,
    QUnique,
    Find,
    TickP,
    Query,
    Accept,
    ParseTo,
    ParseP,
    Create,
    SMove,
    Comma,
    Semicolon,
    ImmediateQ,
    See,
    SCreate,
    SCopy,
    CGet,
    CStore,
    Now,
    Micros,
    Millis,
    OpenFile,
    CloseFile,
    ReadLine,
    WriteLine,
    FilePosition,
    FileSize,
    SystemP,
    Ms,
    RawModeOn,
    RawModeOff,
    RawModeQ,
    ToC,
    FromC,
    BuiltinName,
}

/// An entry of the builtin table: a name, the native operation it runs, and
/// the documentation text shown by the decompiler.
pub struct BuiltInFn {
    pub name: String,
    pub code: Prim,
    pub doc: String,
}

impl BuiltInFn {
    pub fn new(name: String, code: Prim, doc: String) -> (r: BuiltInFn)
        ensures
            r.name@ == name@,
            r.code == code,
            r.doc@ == doc@,
    {
        BuiltInFn { name, code, doc }
    }
}

} // verus!
