//! Word records: building them at HERE and finding them by name.
//!
//! A record is a name field (the address of a counted string, with the
//! immediate flag), one or more payload cells starting with the code field,
//! and a back link to the previous record's last cell.
use crate::builtin::{BuiltInFn, Prim};
use crate::kernel::{counted, counted_fits, with_counted, DATA_SIZE, STACK_START, STRING_SIZE};
use crate::messages::MsgKind;
use crate::compiler::is_immediate_cell;
use crate::runtime::{
    dict_find, mask_address, masked, name_matches, ForthRuntime, BUILTIN_FLAG, FALSE, IMMEDIATE_FLAG, PAD_START,
    STR_START, TIB_START, TMP_START, TRUE, VARIABLE,
};
use crate::inner::frame_kept;
use vstd::prelude::*;
use vstd::string::{is_ascii_spec_bytes, StringSliceAdditionalSpecFns};

verus! {

/// The cells of a record for a word whose name string is at `s`, with
/// payload `args`, laid out at `h`: name field, payload, back link.
pub open spec fn record_cells(heap: Seq<i64>, h: int, s: int, args: Seq<i64>) -> Seq<i64> {
    Seq::new(
        heap.len(),
        |a: int|
            if a == h {
                s as i64
            } else if h < a <= h + args.len() {
                args[a - h - 1]
            } else if a == h + args.len() + 1 {
                (h - 1) as i64
            } else {
                heap[a]
            },
    )
}

/// `new` is `old` after a record named `name` with payload `args` was built at
/// HERE and made the most recent word; `cfa` is its code field address.
pub open spec fn word_made(old: ForthRuntime, new: ForthRuntime, name: Seq<u8>, args: Seq<i64>, cfa: int) -> bool {
    let h = old.here_val();
    let s = old.kernel.heap@[old.kernel.string_ptr as int] as int;
    &&& record_room(old, name.len() as int, args.len() as int)
    &&& cfa == h + 1
    &&& new.wf()
    &&& new.kernel.strings@ == with_counted(old.kernel.strings@, s, name)
    &&& counted(new.kernel.strings@, s) == name
    &&& new.kernel.heap@ == record_cells(old.kernel.heap@, h, s, args).update(
        old.kernel.string_ptr as int,
        (s + 1 + name.len()) as i64,
    ).update(old.here_ptr as int, (h + args.len() + 2) as i64).update(old.context_ptr as int, h as i64)
    &&& new.kernel.stack_ptr == old.kernel.stack_ptr
    &&& new.kernel.return_ptr == old.kernel.return_ptr
    &&& new.kernel.builtins@ == old.kernel.builtins@
    &&& new.kernel.string_ptr == old.kernel.string_ptr
    &&& new.msg == old.msg
    &&& new.same_registers(&old)
    &&& new.booted() == old.booted()
}

/// There is room at HERE for a record with `n` payload cells named by `len`
/// bytes, above the cells of HERE, CONTEXT and the string free pointer.
pub open spec fn record_room(rt: ForthRuntime, len: int, n: int) -> bool {
    let h = rt.here_val();
    let s = rt.kernel.heap@[rt.kernel.string_ptr as int] as int;
    &&& rt.here_ptr < h
    &&& rt.context_ptr < h
    &&& rt.kernel.string_ptr < h
    &&& rt.here_ptr != rt.context_ptr
    &&& rt.here_ptr != rt.kernel.string_ptr
    &&& rt.context_ptr != rt.kernel.string_ptr
    &&& h + n + 2 < rt.kernel.stack_ptr
    &&& rt.kernel.string_room(len)
}

/// `new` is `old` after a variable whose name has `len` bytes was built at
/// HERE; `v` is the address of its value cell.
pub open spec fn variable_made(old: ForthRuntime, new: ForthRuntime, len: int, v: int) -> bool {
    let h = old.here_val();
    let sp = old.kernel.string_ptr as int;
    &&& v == h + 2
    &&& new.here_val() == h + 4
    &&& new.kernel.heap@[sp] == old.kernel.heap@[sp] + 1 + len
    &&& new.kernel.heap@[old.context_ptr as int] == h
    &&& new.kernel.heap@[v] == 0
    &&& new.kernel.stack_ptr == old.kernel.stack_ptr
    &&& forall|a: int|
        0 <= a < h && a != sp && a != old.here_ptr && a != old.context_ptr ==> #[trigger] new.kernel.heap@[a]
            == old.kernel.heap@[a]
}

/// What building one record tells about the cells and strings it touched.
pub proof fn lemma_word_made_facts(old: ForthRuntime, new: ForthRuntime, name: Seq<u8>, args: Seq<i64>, cfa: int)
    requires
        old.wf(),
        word_made(old, new, name, args, cfa),
    ensures
        ({
            let h = old.here_val();
            let s = old.kernel.heap@[old.kernel.string_ptr as int] as int;
            &&& cfa == h + 1
            &&& new.here_ptr == old.here_ptr && new.context_ptr == old.context_ptr
            &&& new.kernel.string_ptr == old.kernel.string_ptr
            &&& old.here_ptr < h && old.context_ptr < h && old.kernel.string_ptr < h
            &&& old.here_ptr != old.context_ptr && old.here_ptr != old.kernel.string_ptr
            &&& old.context_ptr != old.kernel.string_ptr
            &&& new.here_val() == h + args.len() + 2
            &&& new.kernel.heap@[new.context_ptr as int] == h
            &&& new.kernel.heap@[h] == s as i64
            &&& new.kernel.heap@[new.kernel.string_ptr as int] == s + 1 + name.len()
            &&& 0 <= s && s + 1 + name.len() <= STRING_SIZE
            &&& counted(new.kernel.strings@, s) == name
            &&& forall|a: int| 0 <= a < s ==> #[trigger] new.kernel.strings@[a] == old.kernel.strings@[a]
            &&& forall|i: int| 0 <= i < args.len() ==> #[trigger] new.kernel.heap@[h + 1 + i] == args[i]
            &&& new.kernel.stack_ptr == old.kernel.stack_ptr
            &&& forall|a: int|
                0 <= a < h && a != old.here_ptr && a != old.context_ptr && a != old.kernel.string_ptr
                    ==> #[trigger] new.kernel.heap@[a] == old.kernel.heap@[a]
        }),
{
    let h = old.here_val();
    let s = old.kernel.heap@[old.kernel.string_ptr as int] as int;
    assert(new.kernel.heap@[h] == s as i64);
}

/// The native operations registered at boot, in table order.
pub open spec fn boot_prims() -> Seq<Prim> {
    seq![Prim::Plus, Prim::Minus, Prim::Times, Prim::Divide, Prim::Mod, Prim::Less, Prim::True, Prim::False, Prim::Equal, Prim::ZeroEqual, Prim::ZeroLess, Prim::DotS, Prim::ShowStack, Prim::HideStack, Prim::EmitP, Prim::Flush, Prim::Clear, Prim::Colon, Prim::Bye, Prim::Dup, Prim::Drop, Prim::Swap, Prim::Over, Prim::Rot, Prim::Pick, Prim::Roll, Prim::And, Prim::Or, Prim::Get, Prim::Store, Prim::I, Prim::J, Prim::Abort, Prim::Depth, Prim::Key, Prim::IncludeFile, Prim::Dbg, Prim::DebugLevel, Prim::ToR, Prim::RFrom, Prim::RGet, Prim::Immediate, Prim::Quit, Prim::Execute, Prim::Eval, Prim::NumberQ, Prim::QUnique, Prim::Find, Prim::TickP, Prim::Query, Prim::Accept, Prim::ParseTo, Prim::ParseP, Prim::Create, Prim::SMove, Prim::Eval, Prim::Comma, Prim::Semicolon, Prim::ImmediateQ, Prim::See, Prim::SCreate, Prim::SCopy, Prim::CGet, Prim::CStore, Prim::Now, Prim::Micros, Prim::Millis, Prim::OpenFile, Prim::CloseFile, Prim::ReadLine, Prim::WriteLine, Prim::FilePosition, Prim::FileSize, Prim::SystemP, Prim::Ms, Prim::RawModeOn, Prim::RawModeOff, Prim::RawModeQ, Prim::ToC, Prim::FromC, Prim::Dot, Prim::BuiltinName]
}

/// The bytes of the names of the native words registered at boot.
pub open spec fn boot_name_bytes() -> Seq<Seq<u8>> {
    seq![seq![43u8], seq![45u8], seq![42u8], seq![47u8], seq![109u8, 111u8, 100u8], seq![60u8], seq![116u8, 114u8, 117u8, 101u8], seq![102u8, 97u8, 108u8, 115u8, 101u8], seq![61u8], seq![48u8, 61u8], seq![48u8, 60u8], seq![46u8, 115u8], seq![115u8, 104u8, 111u8, 119u8, 45u8, 115u8, 116u8, 97u8, 99u8, 107u8], seq![104u8, 105u8, 100u8, 101u8, 45u8, 115u8, 116u8, 97u8, 99u8, 107u8], seq![40u8, 101u8, 109u8, 105u8, 116u8, 41u8], seq![102u8, 108u8, 117u8, 115u8, 104u8], seq![99u8, 108u8, 101u8, 97u8, 114u8], seq![58u8], seq![98u8, 121u8, 101u8], seq![100u8, 117u8, 112u8], seq![100u8, 114u8, 111u8, 112u8], seq![115u8, 119u8, 97u8, 112u8], seq![111u8, 118u8, 101u8, 114u8], seq![114u8, 111u8, 116u8], seq![112u8, 105u8, 99u8, 107u8], seq![114u8, 111u8, 108u8, 108u8], seq![97u8, 110u8, 100u8], seq![111u8, 114u8], seq![64u8], seq![33u8], seq![105u8], seq![106u8], seq![97u8, 98u8, 111u8, 114u8, 116u8], seq![100u8, 101u8, 112u8, 116u8, 104u8], seq![107u8, 101u8, 121u8], seq![105u8, 110u8, 99u8, 108u8, 117u8, 100u8, 101u8, 45u8, 102u8, 105u8, 108u8, 101u8], seq![100u8, 98u8, 103u8], seq![100u8, 101u8, 98u8, 117u8, 103u8, 108u8, 101u8, 118u8, 101u8, 108u8], seq![62u8, 114u8], seq![114u8, 62u8], seq![114u8, 64u8], seq![105u8, 109u8, 109u8, 101u8, 100u8, 105u8, 97u8, 116u8, 101u8], seq![113u8, 117u8, 105u8, 116u8], seq![101u8, 120u8, 101u8, 99u8, 117u8, 116u8, 101u8], seq![105u8, 110u8, 116u8, 101u8, 114u8, 112u8, 114u8, 101u8, 116u8], seq![110u8, 117u8, 109u8, 98u8, 101u8, 114u8, 63u8], seq![63u8, 117u8, 110u8, 105u8, 113u8, 117u8, 101u8], seq![102u8, 105u8, 110u8, 100u8], seq![40u8, 39u8, 41u8], seq![113u8, 117u8, 101u8, 114u8, 121u8], seq![97u8, 99u8, 99u8, 101u8, 112u8, 116u8], seq![112u8, 97u8, 114u8, 115u8, 101u8, 45u8, 116u8, 111u8], seq![40u8, 112u8, 97u8, 114u8, 115u8, 101u8, 41u8], seq![99u8, 114u8, 101u8, 97u8, 116u8, 101u8], seq![115u8, 45u8, 109u8, 111u8, 118u8, 101u8], seq![101u8, 118u8, 97u8, 108u8], seq![44u8], seq![59u8], seq![105u8, 109u8, 109u8, 101u8, 100u8, 63u8], seq![115u8, 101u8, 101u8], seq![115u8, 45u8, 99u8, 114u8, 101u8, 97u8, 116u8, 101u8], seq![115u8, 45u8, 99u8, 111u8, 112u8, 121u8], seq![99u8, 64u8], seq![99u8, 33u8], seq![110u8, 111u8, 119u8], seq![109u8, 105u8, 99u8, 114u8, 111u8, 115u8], seq![109u8, 105u8, 108u8, 108u8, 105u8, 115u8], seq![111u8, 112u8, 101u8, 110u8, 45u8, 102u8, 105u8, 108u8, 101u8], seq![99u8, 108u8, 111u8, 115u8, 101u8, 45u8, 102u8, 105u8, 108u8, 101u8], seq![114u8, 101u8, 97u8, 100u8, 45u8, 108u8, 105u8, 110u8, 101u8], seq![119u8, 114u8, 105u8, 116u8, 101u8, 45u8, 108u8, 105u8, 110u8, 101u8], seq![102u8, 105u8, 108u8, 101u8, 45u8, 112u8, 111u8, 115u8, 105u8, 116u8, 105u8, 111u8, 110u8], seq![102u8, 105u8, 108u8, 101u8, 45u8, 115u8, 105u8, 122u8, 101u8], seq![40u8, 115u8, 121u8, 115u8, 116u8, 101u8, 109u8, 41u8], seq![109u8, 115u8], seq![114u8, 97u8, 119u8, 45u8, 109u8, 111u8, 100u8, 101u8, 45u8, 111u8, 110u8], seq![114u8, 97u8, 119u8, 45u8, 109u8, 111u8, 100u8, 101u8, 45u8, 111u8, 102u8, 102u8], seq![114u8, 97u8, 119u8, 45u8, 109u8, 111u8, 100u8, 101u8, 63u8], seq![62u8, 99u8], seq![99u8, 62u8], seq![46u8], seq![98u8, 117u8, 105u8, 108u8, 116u8, 105u8, 110u8, 45u8, 110u8, 97u8, 109u8, 101u8]]
}

/// The names of the native words registered at boot, in table order.
pub open spec fn boot_names() -> Seq<Seq<char>> {
    seq!["+"@, "-"@, "*"@, "/"@, "mod"@, "<"@, "true"@, "false"@, "="@, "0="@, "0<"@, ".s"@, "show-stack"@, "hide-stack"@, "(emit)"@, "flush"@, "clear"@, ":"@, "bye"@, "dup"@, "drop"@, "swap"@, "over"@, "rot"@, "pick"@, "roll"@, "and"@, "or"@, "@"@, "!"@, "i"@, "j"@, "abort"@, "depth"@, "key"@, "include-file"@, "dbg"@, "debuglevel"@, ">r"@, "r>"@, "r@"@, "immediate"@, "quit"@, "execute"@, "interpret"@, "number?"@, "?unique"@, "find"@, "(')"@, "query"@, "accept"@, "parse-to"@, "(parse)"@, "create"@, "s-move"@, "eval"@, ","@, ";"@, "immed?"@, "see"@, "s-create"@, "s-copy"@, "c@"@, "c!"@, "now"@, "micros"@, "millis"@, "open-file"@, "close-file"@, "read-line"@, "write-line"@, "file-position"@, "file-size"@, "(system)"@, "ms"@, "raw-mode-on"@, "raw-mode-off"@, "raw-mode?"@, ">c"@, "c>"@, "."@, "builtin-name"@]
}

/// The name, operation and documentation of boot-table entry `i`.
fn boot_entry(i: usize) -> (r: (&'static str, Prim, &'static str))
    requires
        i < 82,
    ensures
        r.1 == boot_prims()[i as int],
        r.0@ == boot_names()[i as int],
        r.0.spec_bytes() == boot_name_bytes()[i as int],
        r.0.spec_bytes().len() <= 13,
{
    match i {
        0 => {
            proof {
                reveal_strlit("+");
                is_ascii_spec_bytes("+");
            }
            ("+", Prim::Plus, "+ ( j k -- j+k ) Push j+k on the stack")
        },
        1 => {
            proof {
                reveal_strlit("-");
                is_ascii_spec_bytes("-");
            }
            ("-", Prim::Minus, "- ( j k -- j-k ) Push j-k on the stack")
        },
        2 => {
            proof {
                reveal_strlit("*");
                is_ascii_spec_bytes("*");
            }
            ("*", Prim::Times, "* ( j k -- j*k ) Push j*k on the stack")
        },
        3 => {
            proof {
                reveal_strlit("/");
                is_ascii_spec_bytes("/");
            }
            ("/", Prim::Divide, "/ ( j k -- j/k ) Push j/k on the stack")
        },
        4 => {
            proof {
                reveal_strlit("mod");
                is_ascii_spec_bytes("mod");
            }
            ("mod", Prim::Mod, "mod ( j k -- j%k ) Push j%k on the stack")
        },
        5 => {
            proof {
                reveal_strlit("<");
                is_ascii_spec_bytes("<");
            }
            ("<", Prim::Less, "< ( j k -- b ) If j < k push true else false")
        },
        6 => {
            proof {
                reveal_strlit("true");
                is_ascii_spec_bytes("true");
            }
            ("true", Prim::True, "true ( -- -1 ) Push the canonical true value on the stack.")
        },
        7 => {
            proof {
                reveal_strlit("false");
                is_ascii_spec_bytes("false");
            }
            ("false", Prim::False, "false ( -- 0 ) Push the canonical false value on the stack")
        },
        8 => {
            proof {
                reveal_strlit("=");
                is_ascii_spec_bytes("=");
            }
            ("=", Prim::Equal, "= ( j k -- b ) If j == k push true else false")
        },
        9 => {
            proof {
                reveal_strlit("0=");
                is_ascii_spec_bytes("0=");
            }
            ("0=", Prim::ZeroEqual, "0= ( j -- b ) If j == 0 push true else false")
        },
        10 => {
            proof {
                reveal_strlit("0<");
                is_ascii_spec_bytes("0<");
            }
            ("0<", Prim::ZeroLess, "0< ( j -- b ) If j < 0 push true else false")
        },
        11 => {
            proof {
                reveal_strlit(".s");
                is_ascii_spec_bytes(".s");
            }
            (".s", Prim::DotS, ".s ( -- ) Print the contents of the calculation stack")
        },
        12 => {
            proof {
                reveal_strlit("show-stack");
                is_ascii_spec_bytes("show-stack");
            }
            ("show-stack", Prim::ShowStack, "show-stack ( -- ) Display the stack at the end of each line of console input")
        },
        13 => {
            proof {
                reveal_strlit("hide-stack");
                is_ascii_spec_bytes("hide-stack");
            }
            ("hide-stack", Prim::HideStack, "hide-stack ( -- ) Turn off automatic stack display")
        },
        14 => {
            proof {
                reveal_strlit("(emit)");
                is_ascii_spec_bytes("(emit)");
            }
            ("(emit)", Prim::EmitP, "(emit): ( c -- ) sends character c to the terminal")
        },
        15 => {
            proof {
                reveal_strlit("flush");
                is_ascii_spec_bytes("flush");
            }
            ("flush", Prim::Flush, "flush: forces pending output to appear on the terminal")
        },
        16 => {
            proof {
                reveal_strlit("clear");
                is_ascii_spec_bytes("clear");
            }
            ("clear", Prim::Clear, "clear: resets the stack to empty")
        },
        17 => {
            proof {
                reveal_strlit(":");
                is_ascii_spec_bytes(":");
            }
            (":", Prim::Colon, ": starts a new definition")
        },
        18 => {
            proof {
                reveal_strlit("bye");
                is_ascii_spec_bytes("bye");
            }
            ("bye", Prim::Bye, "bye: exits to the operating system")
        },
        19 => {
            proof {
                reveal_strlit("dup");
                is_ascii_spec_bytes("dup");
            }
            ("dup", Prim::Dup, "dup ( n -- n n ) Push a second copy of the top of stack")
        },
        20 => {
            proof {
                reveal_strlit("drop");
                is_ascii_spec_bytes("drop");
            }
            ("drop", Prim::Drop, "drop ( n --  ) Pop the top element off the stack")
        },
        21 => {
            proof {
                reveal_strlit("swap");
                is_ascii_spec_bytes("swap");
            }
            ("swap", Prim::Swap, "swap ( m n -- n m ) Reverse the order of the top two stack elements")
        },
        22 => {
            proof {
                reveal_strlit("over");
                is_ascii_spec_bytes("over");
            }
            ("over", Prim::Over, "over ( m n -- m n m ) Push a copy of the second item on the stack on to")
        },
        23 => {
            proof {
                reveal_strlit("rot");
                is_ascii_spec_bytes("rot");
            }
            ("rot", Prim::Rot, "rot ( i j k -- j k i ) Move the third stack item to the top")
        },
        24 => {
            proof {
                reveal_strlit("pick");
                is_ascii_spec_bytes("pick");
            }
            ("pick", Prim::Pick, "pick ( .. n -- .. v ) Push a copy of the nth item on the stack (after removing n) on top")
        },
        25 => {
            proof {
                reveal_strlit("roll");
                is_ascii_spec_bytes("roll");
            }
            ("roll", Prim::Roll, "roll ( .. n -- .. v ) Rotate the nth item on the stack (after removing n) to the top")
        },
        26 => {
            proof {
                reveal_strlit("and");
                is_ascii_spec_bytes("and");
            }
            ("and", Prim::And, "and ( a b -- a & b ) Pop a and b, returning the logical and")
        },
        27 => {
            proof {
                reveal_strlit("or");
                is_ascii_spec_bytes("or");
            }
            ("or", Prim::Or, "or ( a b -- a | b ) Pop a and b, returning the logical or")
        },
        28 => {
            proof {
                reveal_strlit("@");
                is_ascii_spec_bytes("@");
            }
            ("@", Prim::Get, "@: ( a -- v ) Pushes variable a's value")
        },
        29 => {
            proof {
                reveal_strlit("!");
                is_ascii_spec_bytes("!");
            }
            ("!", Prim::Store, "!: ( v a -- ) stores v at address a")
        },
        30 => {
            proof {
                reveal_strlit("i");
                is_ascii_spec_bytes("i");
            }
            ("i", Prim::I, "Pushes the current FOR - NEXT loop index")
        },
        31 => {
            proof {
                reveal_strlit("j");
                is_ascii_spec_bytes("j");
            }
            ("j", Prim::J, "Pushes the second-level (outer) loop index")
        },
        32 => {
            proof {
                reveal_strlit("abort");
                is_ascii_spec_bytes("abort");
            }
            ("abort", Prim::Abort, "abort ( -- ) Ends execution of the current word and clears the stack")
        },
        33 => {
            proof {
                reveal_strlit("depth");
                is_ascii_spec_bytes("depth");
            }
            ("depth", Prim::Depth, "depth: Pushes the current stack depth")
        },
        34 => {
            proof {
                reveal_strlit("key");
                is_ascii_spec_bytes("key");
            }
            ("key", Prim::Key, "key ( -- c | 0 ) get a character and push on the stack, or zero if none available")
        },
        35 => {
            proof {
                reveal_strlit("include-file");
                is_ascii_spec_bytes("include-file");
            }
            ("include-file", Prim::IncludeFile, "include-file ( a -- ) Taking the TOS as a pointer to a filename (string), load a file of source code")
        },
        36 => {
            proof {
                reveal_strlit("dbg");
                is_ascii_spec_bytes("dbg");
            }
            ("dbg", Prim::Dbg, "dbg ( n -- ) Set the diagnostics level")
        },
        37 => {
            proof {
                reveal_strlit("debuglevel");
                is_ascii_spec_bytes("debuglevel");
            }
            ("debuglevel", Prim::DebugLevel, "debuglevel ( -- ) Displays the current debug level")
        },
        38 => {
            proof {
                reveal_strlit(">r");
                is_ascii_spec_bytes(">r");
            }
            (">r", Prim::ToR, ">r ( n -- ) Pop stack and push value to return stack")
        },
        39 => {
            proof {
                reveal_strlit("r>");
                is_ascii_spec_bytes("r>");
            }
            ("r>", Prim::RFrom, "r> ( -- n ) Pop return stack and push value to calculation stack")
        },
        40 => {
            proof {
                reveal_strlit("r@");
                is_ascii_spec_bytes("r@");
            }
            ("r@", Prim::RGet, "r@ ( -- n ) Push the value on the top of the return stack to the calculation stack")
        },
        41 => {
            proof {
                reveal_strlit("immediate");
                is_ascii_spec_bytes("immediate");
            }
            ("immediate", Prim::Immediate, "immediate sets the immediate flag on the most recently defined word")
        },
        42 => {
            proof {
                reveal_strlit("quit");
                is_ascii_spec_bytes("quit");
            }
            ("quit", Prim::Quit, "quit ( -- ) Outer interpreter that repeatedly reads input lines and runs them")
        },
        43 => {
            proof {
                reveal_strlit("execute");
                is_ascii_spec_bytes("execute");
            }
            ("execute", Prim::Execute, "execute: interpret the word whose address is on the stack")
        },
        44 => {
            proof {
                reveal_strlit("interpret");
                is_ascii_spec_bytes("interpret");
            }
            ("interpret", Prim::Eval, "interpret: Interprets one line of Forth")
        },
        45 => {
            proof {
                reveal_strlit("number?");
                is_ascii_spec_bytes("number?");
            }
            ("number?", Prim::NumberQ, "number? ( a -- n T | a F ) tests a string to see if it's a number; leaves n and flag on the stack: true if number is ok.")
        },
        46 => {
            proof {
                reveal_strlit("?unique");
                is_ascii_spec_bytes("?unique");
            }
            ("?unique", Prim::QUnique, "?unique ( a -- b ) tests to see if the name TOS points to is in the dictionary")
        },
        47 => {
            proof {
                reveal_strlit("find");
                is_ascii_spec_bytes("find");
            }
            ("find", Prim::Find, "FIND (s -- a | F ) Search the dictionary for the token indexed through s. Return it's address or FALSE if not found")
        },
        48 => {
            proof {
                reveal_strlit("(')");
                is_ascii_spec_bytes("(')");
            }
            ("(')", Prim::TickP, "(') <name> ( -- a ) searches the dictionary for a (postfix) word, returning its address")
        },
        49 => {
            proof {
                reveal_strlit("query");
                is_ascii_spec_bytes("query");
            }
            ("query", Prim::Query, "query ( -- ) Read a line from the console into TIB")
        },
        50 => {
            proof {
                reveal_strlit("accept");
                is_ascii_spec_bytes("accept");
            }
            ("accept", Prim::Accept, "accept ( b l1 -- b l2 ) Read up to l1 characters into the buffer at b. Return the pointer to the buffer and the actual number of characters read.")
        },
        51 => {
            proof {
                reveal_strlit("parse-to");
                is_ascii_spec_bytes("parse-to");
            }
            ("parse-to", Prim::ParseTo, "parse-to ( b c -- b u ) Get a c-delimited token from TIB, and return counted string in string buffer b")
        },
        52 => {
            proof {
                reveal_strlit("(parse)");
                is_ascii_spec_bytes("(parse)");
            }
            ("(parse)", Prim::ParseP, "(parse) - b u c -- b u delta ) return the location of a delimited token in string space")
        },
        53 => {
            proof {
                reveal_strlit("create");
                is_ascii_spec_bytes("create");
            }
            ("create", Prim::Create, "create <name> ( -- ) creates a name field in the dictionary")
        },
        54 => {
            proof {
                reveal_strlit("s-move");
                is_ascii_spec_bytes("s-move");
            }
            ("s-move", Prim::SMove, "s-move ( src n dest -- ) copies a counted string to a new location")
        },
        55 => {
            proof {
                reveal_strlit("eval");
                is_ascii_spec_bytes("eval");
            }
            ("eval", Prim::Eval, "eval ( dest -- ) interprets a line of tokens from the TIB")
        },
        56 => {
            proof {
                reveal_strlit(",");
                is_ascii_spec_bytes(",");
            }
            (",", Prim::Comma, ", ( n -- ) copies the top of the stack to the top of the dictionary")
        },
        57 => {
            proof {
                reveal_strlit(";");
                is_ascii_spec_bytes(";");
            }
            (";", Prim::Semicolon, "; ( -- ) terminate a definition, resetting to interpret mode")
        },
        58 => {
            proof {
                reveal_strlit("immed?");
                is_ascii_spec_bytes("immed?");
            }
            ("immed?", Prim::ImmediateQ, "immed? ( cfa -- T | F ) Determines if a word is immediate")
        },
        59 => {
            proof {
                reveal_strlit("see");
                is_ascii_spec_bytes("see");
            }
            ("see", Prim::See, "see <name> decompiles and prints a word")
        },
        60 => {
            proof {
                reveal_strlit("s-create");
                is_ascii_spec_bytes("s-create");
            }
            ("s-create", Prim::SCreate, "s-create ( s1 -- s2 ) Copy a string to the head of free space and return its address")
        },
        61 => {
            proof {
                reveal_strlit("s-copy");
                is_ascii_spec_bytes("s-copy");
            }
            ("s-copy", Prim::SCopy, "s-copy ( source dest -- ) Copy a counted string from source to dest")
        },
        62 => {
            proof {
                reveal_strlit("c@");
                is_ascii_spec_bytes("c@");
            }
            ("c@", Prim::CGet, "c@ ( s -- c ) Copy a character from string address s to the stack")
        },
        63 => {
            proof {
                reveal_strlit("c!");
                is_ascii_spec_bytes("c!");
            }
            ("c!", Prim::CStore, "c! ( c s -- ) Copy character c to string address s")
        },
        64 => {
            proof {
                reveal_strlit("now");
                is_ascii_spec_bytes("now");
            }
            ("now", Prim::Now, "now ( -- ) Start a timer")
        },
        65 => {
            proof {
                reveal_strlit("micros");
                is_ascii_spec_bytes("micros");
            }
            ("micros", Prim::Micros, "micros ( -- n ) Microseconds since NOW was called")
        },
        66 => {
            proof {
                reveal_strlit("millis");
                is_ascii_spec_bytes("millis");
            }
            ("millis", Prim::Millis, "millis ( -- n ) Milliseconds since NOW was called")
        },
        67 => {
            proof {
                reveal_strlit("open-file");
                is_ascii_spec_bytes("open-file");
            }
            ("open-file", Prim::OpenFile, "open-file ( s fam -- file-id ior ) Open the file named at s with file access mode fam. Returns a file handle and 0 if successful.")
        },
        68 => {
            proof {
                reveal_strlit("close-file");
                is_ascii_spec_bytes("close-file");
            }
            ("close-file", Prim::CloseFile, "close-file ( file-id -- ior ) Close a file, returning the I/O status code.")
        },
        69 => {
            proof {
                reveal_strlit("read-line");
                is_ascii_spec_bytes("read-line");
            }
            ("read-line", Prim::ReadLine, "read-line ( u file-id -- u flag ior ) Read up to u characters from a file. Returns the number of characters read, a flag indicating success or failure, and an i/o result code.")
        },
        70 => {
            proof {
                reveal_strlit("write-line");
                is_ascii_spec_bytes("write-line");
            }
            ("write-line", Prim::WriteLine, "write-line ( s u file-id -- ior ) Write u characters from s to a file, returning an i/o result code.")
        },
        71 => {
            proof {
                reveal_strlit("file-position");
                is_ascii_spec_bytes("file-position");
            }
            ("file-position", Prim::FilePosition, "file-position ( file-id -- u ior ) Returns the current file position and an i/o result")
        },
        72 => {
            proof {
                reveal_strlit("file-size");
                is_ascii_spec_bytes("file-size");
            }
            ("file-size", Prim::FileSize, "file-size ( file-id -- u ior ) Returns the size in characters of the file, plus an i/o result code")
        },
        73 => {
            proof {
                reveal_strlit("(system)");
                is_ascii_spec_bytes("(system)");
            }
            ("(system)", Prim::SystemP, "(system) ( s -- ) Execute a shell command, using string s. Output is channeled to stdout")
        },
        74 => {
            proof {
                reveal_strlit("ms");
                is_ascii_spec_bytes("ms");
            }
            ("ms", Prim::Ms, "ms ( ms -- ) Puts the current thread to sleep for ms milliseconds")
        },
        75 => {
            proof {
                reveal_strlit("raw-mode-on");
                is_ascii_spec_bytes("raw-mode-on");
            }
            ("raw-mode-on", Prim::RawModeOn, "raw-mode-on ( -- ) Enable raw terminal mode")
        },
        76 => {
            proof {
                reveal_strlit("raw-mode-off");
                is_ascii_spec_bytes("raw-mode-off");
            }
            ("raw-mode-off", Prim::RawModeOff, "raw-mode-off ( -- ) Disable raw terminal mode")
        },
        77 => {
            proof {
                reveal_strlit("raw-mode?");
                is_ascii_spec_bytes("raw-mode?");
            }
            ("raw-mode?", Prim::RawModeQ, "raw-mode? ( -- f ) Returns true if in raw mode")
        },
        78 => {
            proof {
                reveal_strlit(">c");
                is_ascii_spec_bytes(">c");
            }
            (">c", Prim::ToC, ">c ( addr tag -- ) Push a control marker onto the control stack")
        },
        79 => {
            proof {
                reveal_strlit("c>");
                is_ascii_spec_bytes("c>");
            }
            ("c>", Prim::FromC, "c> ( -- addr ) Pop a control marker from the control stack and push its address")
        },
        80 => {
            proof {
                reveal_strlit(".");
                is_ascii_spec_bytes(".");
            }
            (".", Prim::Dot, ". ( n -- ) Print n in base 10 followed by a space")
        },
        _ => {
            proof {
                reveal_strlit("builtin-name");
                is_ascii_spec_bytes("builtin-name");
            }
            ("builtin-name", Prim::BuiltinName, "builtin-name ( i -- s ) Copy the name of builtin i to TMP")
        },
    }
}

/// The boot table can be built on `rt`: the system variables are in place,
/// HERE and the newest word lie above them, and the table has room.
pub open spec fn boot_room(rt: ForthRuntime) -> bool {
    &&& rt.booted()
    &&& rt.here_val() > 56
    &&& rt.kernel.heap@[rt.context_ptr as int] > 56
    &&& rt.kernel.builtins@.len() + 82 < 0x1000000
}

/// Builtin `index` has a dictionary record whose name field is at `a`: its
/// code cell holds the index with the builtin flag, and its name, a counted
/// string below the free string pointer, is `name`.
pub open spec fn builtin_record(rt: ForthRuntime, a: int, index: int, name: Seq<u8>) -> bool {
    let nfa = masked(rt.kernel.heap@[a]);
    &&& 56 < a
    &&& a + 2 < rt.here_val()
    &&& rt.kernel.heap@[a + 1] == (index as u64 | BUILTIN_FLAG) as i64
    &&& 0 <= nfa
    &&& nfa + 1 + name.len() <= rt.kernel.heap@[rt.kernel.string_ptr as int]
    &&& counted_fits(rt.kernel.strings@, nfa)
    &&& counted(rt.kernel.strings@, nfa) == name
}

/// Every builtin of the boot table, from table index `b`, has its record.
pub open spec fn boot_records(rt: ForthRuntime, b: int, recs: Seq<int>, n: int) -> bool {
    &&& recs.len() == n
    &&& forall|k: int| 0 <= k < n ==> #[trigger] builtin_record(rt, recs[k], b + k, boot_name_bytes()[k])
}

proof fn lemma_masked_flagged(v: i64)
    requires
        v >= 0,
    ensures
        masked((v as u64 | IMMEDIATE_FLAG) as i64) == masked(v),
        (v as u64 | IMMEDIATE_FLAG) as i64 >= 0,
{
    let u = v as u64;
    assert(u | 0x4000000000000000u64 <= 0x7fffffffffffffffu64) by (bit_vector)
        requires
            u <= 0x7fffffffffffffffu64,
    ;
    assert((u | 0x4000000000000000u64) & 0x00FFFFFFFFFFFFFFu64 == u & 0x00FFFFFFFFFFFFFFu64) by (bit_vector);
}

/// There is room for the whole boot table: dictionary cells below the data
/// stack and string space for the names, and no abort is pending.
pub open spec fn boot_space(rt: ForthRuntime) -> bool {
    &&& boot_room(rt)
    &&& !rt.aborted()
    &&& rt.here_val() + 250 < rt.kernel.stack_ptr
    &&& 0 <= rt.kernel.heap@[rt.kernel.string_ptr as int]
    &&& rt.kernel.heap@[rt.kernel.string_ptr as int] + 82 * 14 <= STRING_SIZE
}

/// The record whose name field is at `a` is the word of builtin `index` and
/// carries the immediate flag.
pub open spec fn semicolon_marked(rt: ForthRuntime, a: int, index: int) -> bool {
    &&& 56 < a
    &&& a + 1 < rt.here_val()
    &&& is_immediate_cell(rt.kernel.heap@[a])
    &&& rt.kernel.heap@[a + 1] == (index as u64 | BUILTIN_FLAG) as i64
}

/// `new` is `old` after the builtin named `name` was given a dictionary
/// record: its code field at `cfa` holds the table index with the builtin
/// flag, FIND gives `cfa`, HERE moved past the three cells, and cells below
/// the record and strings below the name are as they were.
pub open spec fn builtin_word_made(old: ForthRuntime, new: ForthRuntime, name: Seq<u8>, cfa: int) -> bool {
    let h = old.here_val();
    let s = old.kernel.heap@[old.kernel.string_ptr as int];
    &&& cfa == h + 1
    &&& new.kernel.heap@[cfa] == (old.kernel.builtins@.len() as u64 | BUILTIN_FLAG) as i64
    &&& new.lookup(name) == cfa
    &&& new.here_val() == h + 3
    &&& new.kernel.heap@[new.context_ptr as int] == h
    &&& new.kernel.heap@[h] == s
    &&& counted(new.kernel.strings@, s as int) == name
    &&& new.kernel.heap@[old.kernel.string_ptr as int] == s + 1 + name.len()
    &&& new.kernel.strings@[s as int] == name.len()
    &&& 0 <= s && s + 1 + name.len() <= STRING_SIZE
    &&& new.kernel.stack_ptr == old.kernel.stack_ptr
    &&& forall|a: int|
        0 <= a < h && a != old.here_ptr && a != old.context_ptr && a != old.kernel.string_ptr
            ==> #[trigger] new.kernel.heap@[a] == old.kernel.heap@[a]
    &&& forall|a: int| 0 <= a < s ==> #[trigger] new.kernel.strings@[a] == old.kernel.strings@[a]
}

proof fn lemma_masked_addr(v: i64)
    requires
        0 <= v < STRING_SIZE,
    ensures
        masked(v) == v,
{
    let u = v as u64;
    assert(u & 0x00FFFFFFFFFFFFFFu64 == u) by (bit_vector)
        requires
            u < 10000u64,
    ;
}

impl ForthRuntime {
    /// Builds a record named `name` with payload `args` at HERE, advances HERE
    /// past it and makes it the most recent word. Returns its code field
    /// address, or 0 (after reporting it and aborting) when there is no room.
    pub fn make_word(&mut self, name: &str, args: &[i64]) -> (r: usize)
        requires
            old(self).wf(),
        ensures
            final(self).wf(),
            final(self).kernel.stack_ptr >= old(self).kernel.stack_ptr,
            record_room(*old(self), name.spec_bytes().len() as int, args@.len() as int) ==> word_made(
                *old(self),
                *final(self),
                name.spec_bytes(),
                args@,
                r as int,
            ),
            !record_room(*old(self), name.spec_bytes().len() as int, args@.len() as int) ==> r == 0
                && final(self).is_reset() && (forall|a: int|
                0 <= a < DATA_SIZE && a != old(self).abort_ptr && a != old(self).state_ptr
                    ==> #[trigger] final(self).kernel.heap@[a] == old(self).kernel.heap@[a]),
            final(self).kernel.builtins@ == old(self).kernel.builtins@,
            final(self).kernel.string_ptr == old(self).kernel.string_ptr,
            final(self).reader@ == old(self).reader@,
            final(self).exit_flag == old(self).exit_flag,
            final(self).same_pointers(old(self)),
            final(self).booted() == old(self).booted(),
    {
        let h = self.here();
        let n = args.len();
        let sp = self.kernel.string_ptr;
        let free = self.kernel.get(sp);
        let len = name.as_bytes().len();
        if !((self.here_ptr as i64) < h) || !((self.context_ptr as i64) < h) || !((sp as i64) < h)
            || self.here_ptr == self.context_ptr || self.here_ptr == sp || self.context_ptr == sp
            || n >= DATA_SIZE || h >= self.kernel.stack_ptr as i64 - n as i64 - 2 || len >= 256
            || free < 0 || free > STRING_SIZE as i64 - 1 - len as i64 {
            self.f_abort_with(MsgKind::OutOfSpace, h);
            return 0;
        }
        let ghost old_rt = *self;
        let hu = h as usize;
        assert(self.kernel.string_room(len as int));
        let s = self.kernel.string_new(name);
        self.kernel.set(hu, s as i64);
        let mut i: usize = 0;
        while i < n
            invariant
                self.wf(),
                i <= n,
                n == args@.len(),
                hu == h,
                hu + n + 2 < self.kernel.stack_ptr,
                self.kernel.stack_ptr == old_rt.kernel.stack_ptr,
                self.kernel.return_ptr == old_rt.kernel.return_ptr,
                self.kernel.builtins@ == old_rt.kernel.builtins@,
                self.kernel.string_ptr == old_rt.kernel.string_ptr,
                self.kernel.strings@ == with_counted(old_rt.kernel.strings@, s as int, name.spec_bytes()),
                self.msg == old_rt.msg,
                self.same_registers(&old_rt),
                forall|a: int|
                    0 <= a < DATA_SIZE ==> #[trigger] self.kernel.heap@[a] == (if a == h {
                        s as i64
                    } else if h < a <= h + i {
                        args@[a - h - 1]
                    } else if a == sp {
                        (s + 1 + len) as i64
                    } else {
                        old_rt.kernel.heap@[a]
                    }),
            decreases n - i,
        {
            self.kernel.set(hu + 1 + i, args[i]);
            i = i + 1;
        }
        self.kernel.set(hu + 1 + n, h - 1);
        self.kernel.set(self.here_ptr, h + n as i64 + 2);
        self.kernel.set(self.context_ptr, h);
        assert(self.kernel.heap@ =~= record_cells(old_rt.kernel.heap@, h as int, s as int, args@).update(
            sp as int,
            (s + 1 + len) as i64,
        ).update(old_rt.here_ptr as int, (h + n + 2) as i64).update(old_rt.context_ptr as int, h as i64));
        hu + 1
    }
    /// Creates a variable named `name` with value 0; returns the address of its value cell.
    fn make_variable(&mut self, name: &str) -> (r: usize)
        requires
            old(self).wf(),
        ensures
            final(self).wf(),
            r < DATA_SIZE,
            final(self).kernel.builtins@ == old(self).kernel.builtins@,
            final(self).kernel.string_ptr == old(self).kernel.string_ptr,
            final(self).reader@ == old(self).reader@,
            final(self).exit_flag == old(self).exit_flag,
            final(self).same_pointers(old(self)),
            record_room(*old(self), name.spec_bytes().len() as int, 2) ==> variable_made(
                *old(self),
                *final(self),
                name.spec_bytes().len() as int,
                r as int,
            ),
    {
        let ghost args = seq![VARIABLE, 0i64];
        let code_ptr = self.make_word(name, &[VARIABLE, 0]);
        proof {
            if record_room(*old(self), name.spec_bytes().len() as int, 2) {
                assert([VARIABLE, 0i64]@ == args);
                lemma_word_made_facts(*old(self), *self, name.spec_bytes(), args, code_ptr as int);
                assert(self.kernel.heap@[code_ptr + 1] == 0);
            }
        }
        if code_ptr + 1 < DATA_SIZE {
            code_ptr + 1
        } else {
            0
        }
    }

    /// Installs the system variables: S-HERE, HERE and CONTEXT by hand, then the
    /// rest as ordinary variable words.
    pub fn insert_variables(&mut self)
        requires
            old(self).wf(),
        ensures
            final(self).wf(),
            final(self).kernel.builtins@ == old(self).kernel.builtins@,
            final(self).reader@ == old(self).reader@,
            final(self).exit_flag == old(self).exit_flag,
            old(self).kernel.stack_ptr > 70 ==> {
                &&& final(self).booted()
                &&& final(self).vars_clear()
                &&& final(self).kernel.stack_ptr == old(self).kernel.stack_ptr
                &&& final(self).here_val() == 66
                &&& final(self).kernel.heap@[0] == 0
                &&& final(self).kernel.heap@[1] == 0
                &&& final(self).kernel.heap@[12] == 62
                &&& final(self).kernel.heap@[4] == 493
                &&& final(self).kernel.heap@[16] == PAD_START
                &&& final(self).kernel.heap@[20] == 10
                &&& final(self).kernel.heap@[24] == TMP_START
                &&& final(self).kernel.heap@[28] == TIB_START
                &&& final(self).kernel.heap@[32] == 0
                &&& final(self).kernel.heap@[36] == 1
                &&& final(self).kernel.heap@[52] == FALSE
                &&& final(self).kernel.heap@[56] == FALSE
            },
    {
        self.kernel.set(0, 0);
        self.kernel.set(1, 0);
        self.kernel.set(2, STR_START as i64);
        self.save_name(STR_START, "s-here");
        self.kernel.set_string_ptr(4);
        self.kernel.set(3, VARIABLE);
        self.kernel.set(4, (STR_START + 7) as i64);
        self.kernel.set(5, 1);
        // HERE is needed by make_word
        proof {
            reveal_strlit("here");
            is_ascii_spec_bytes("here");
            reveal_strlit("context");
            is_ascii_spec_bytes("context");
            reveal_strlit("pad");
            is_ascii_spec_bytes("pad");
            reveal_strlit("base");
            is_ascii_spec_bytes("base");
            reveal_strlit("tmp");
            is_ascii_spec_bytes("tmp");
            reveal_strlit("'tib");
            is_ascii_spec_bytes("'tib");
            reveal_strlit("#tib");
            is_ascii_spec_bytes("#tib");
            reveal_strlit(">in");
            is_ascii_spec_bytes(">in");
            reveal_strlit("hld");
            is_ascii_spec_bytes("hld");
            reveal_strlit("last");
            is_ascii_spec_bytes("last");
            reveal_strlit("'eval");
            is_ascii_spec_bytes("'eval");
            reveal_strlit("abort?");
            is_ascii_spec_bytes("abort?");
            reveal_strlit("state");
            is_ascii_spec_bytes("state");
            reveal_strlit("stepper");
            is_ascii_spec_bytes("stepper");
            reveal_strlit("stepper-depth");
            is_ascii_spec_bytes("stepper-depth");
        }
        let name_pointer = self.new_name("here");
        self.kernel.set(6, name_pointer as i64);
        self.kernel.set(7, VARIABLE);
        self.kernel.set(8, 10);
        self.kernel.set(9, 5);
        self.here_ptr = 8;
        // so is CONTEXT
        let str_addr = self.new_name("context");
        self.kernel.set(10, str_addr as i64);
        self.kernel.set(11, VARIABLE);
        self.kernel.set(12, 10);
        self.kernel.set(13, 9);
        self.context_ptr = 12;
        self.kernel.set(self.here_ptr, 14);

        self.pad_ptr = self.make_variable("pad");
        self.kernel.set(self.pad_ptr, PAD_START as i64);
        self.base_ptr = self.make_variable("base");
        self.kernel.set(self.base_ptr, 10);
        self.tmp_ptr = self.make_variable("tmp");
        self.kernel.set(self.tmp_ptr, TMP_START as i64);
        self.tib_ptr = self.make_variable("'tib");
        self.kernel.set(self.tib_ptr, TIB_START as i64);
        self.tib_size_ptr = self.make_variable("#tib");
        self.kernel.set(self.tib_size_ptr, 0);
        self.tib_in_ptr = self.make_variable(">in");
        self.kernel.set(self.tib_in_ptr, TIB_START as i64 + 1);
        self.hld_ptr = self.make_variable("hld");
        self.last_ptr = self.make_variable("last");
        self.state_ptr = self.make_variable("'eval");
        self.abort_ptr = self.make_variable("abort?");
        self.state_ptr = self.make_variable("state");
        self.stepper_ptr = self.make_variable("stepper");
        self.step_depth_ptr = self.make_variable("stepper-depth");
        self.kernel.set(self.abort_ptr, FALSE);
    }

    /// Writes `s` as a counted string at `addr` when it fits there.
    fn save_name(&mut self, addr: usize, s: &str)
        requires
            old(self).wf(),
        ensures
            final(self).wf(),
            final(self).kernel.heap@ == old(self).kernel.heap@,
            final(self).kernel.builtins@ == old(self).kernel.builtins@,
            final(self).kernel.stack_ptr == old(self).kernel.stack_ptr,
            final(self).kernel.return_ptr == old(self).kernel.return_ptr,
            final(self).kernel.string_ptr == old(self).kernel.string_ptr,
            final(self).same_registers(old(self)),
            final(self).msg == old(self).msg,
    {
        let b = s.as_bytes();
        if b.len() < 256 && addr < STRING_SIZE - b.len() {
            self.kernel.write_counted(b, addr);
        }
    }

    /// Writes `s` as a new counted string in free string space; returns its
    /// address, or 0 (after an abort) when it does not fit.
    fn new_name(&mut self, s: &str) -> (r: usize)
        requires
            old(self).wf(),
        ensures
            final(self).wf(),
            old(self).kernel.string_room(s.spec_bytes().len() as int) ==> {
                &&& r == old(self).kernel.heap@[old(self).kernel.string_ptr as int]
                &&& final(self).kernel.heap@ == old(self).kernel.heap@.update(
                    old(self).kernel.string_ptr as int,
                    (r + 1 + s.spec_bytes().len()) as i64,
                )
                &&& final(self).kernel.stack_ptr == old(self).kernel.stack_ptr
            },
            final(self).kernel.builtins@ == old(self).kernel.builtins@,
            final(self).kernel.string_ptr == old(self).kernel.string_ptr,
            final(self).reader@ == old(self).reader@,
            final(self).exit_flag == old(self).exit_flag,
            final(self).same_pointers(old(self)),
    {
        let len = s.as_bytes().len();
        let free = self.kernel.get(self.kernel.string_ptr);
        if len < 256 && 0 <= free && free <= STRING_SIZE as i64 - 1 - len as i64 {
            self.kernel.string_new(s)
        } else {
            self.f_abort_with(MsgKind::OutOfSpace, free);
            0
        }
    }

    /// Registers a builtin: appends its table entry and builds a word whose code
    /// field is the entry's index tagged with the builtin flag. Returns the
    /// word's code field address, or 0 (after an abort) when there is no room.
    pub fn add_builtin(&mut self, name: &str, code: Prim, doc: &str) -> (r: usize)
        requires
            old(self).wf(),
        ensures
            final(self).wf(),
            final(self).kernel.stack_ptr >= old(self).kernel.stack_ptr,
            old(self).kernel.builtins@.len() < 0x1000000 ==> {
                &&& final(self).kernel.builtins@.len() == old(self).kernel.builtins@.len() + 1
                &&& final(self).kernel.builtins@.last().code == code
                &&& final(self).kernel.builtins@.last().name@ == name@
                &&& final(self).kernel.builtins@.drop_last() == old(self).kernel.builtins@
            },
            old(self).kernel.builtins@.len() < 0x1000000 && record_room(
                *old(self),
                name.spec_bytes().len() as int,
                1,
            ) ==> builtin_word_made(*old(self), *final(self), name.spec_bytes(), r as int),
            !(old(self).kernel.builtins@.len() < 0x1000000 && record_room(
                *old(self),
                name.spec_bytes().len() as int,
                1,
            )) ==> final(self).is_reset() && (forall|a: int|
                0 <= a < DATA_SIZE && a != old(self).abort_ptr && a != old(self).state_ptr
                    ==> #[trigger] final(self).kernel.heap@[a] == old(self).kernel.heap@[a]),
            final(self).reader@ == old(self).reader@,
            final(self).exit_flag == old(self).exit_flag,
            final(self).same_pointers(old(self)),
            final(self).kernel.string_ptr == old(self).kernel.string_ptr,
    {
        if self.kernel.builtins.len() >= 0x1000000 {
            self.f_abort_with(MsgKind::OutOfSpace, 0);
            return 0;
        }
        let index = self.kernel.add_builtin(BuiltInFn::new(name.to_owned(), code, doc.to_owned()));
        let cfa = (index as u64 | BUILTIN_FLAG) as i64;
        let ghost mid = *self;
        let r = self.make_word(name, &[cfa]);
        proof {
            if record_room(*old(self), name.spec_bytes().len() as int, 1) {
                let b = name.spec_bytes();
                assert(record_room(mid, b.len() as int, 1));
                assert([cfa]@ == seq![cfa]);
                lemma_word_made_facts(mid, *self, b, seq![cfa], r as int);
                let h = old(self).here_val();
                let s0 = old(self).kernel.heap@[old(self).kernel.string_ptr as int];
                lemma_masked_addr(s0);
                assert(name_matches(self.kernel.heap@, self.kernel.strings@, h - 1, b));
                assert(self.lookup(b) == h + 1);
            }
        }
        r
    }

    /// immediate ( -- ) sets the immediate flag on the most recent word's name field.
    pub fn f_immediate(&mut self)
        requires
            old(self).wf(),
        ensures
            frame_kept(*old(self), *final(self)),
            final(self).wf(),
            final(self).kernel.stack_ptr >= old(self).kernel.stack_ptr,
            ({
                let nfa = old(self).kernel.heap@[old(self).context_ptr as int];
                0 <= nfa < DATA_SIZE && old(self).kernel.heap@[nfa as int] >= 0 ==> final(self).kernel.heap@
                    == old(self).kernel.heap@.update(
                    nfa as int,
                    (old(self).kernel.heap@[nfa as int] as u64 | IMMEDIATE_FLAG) as i64,
                ) && is_immediate_cell(final(self).kernel.heap@[nfa as int])
            }),
            ({
                let nfa = old(self).kernel.heap@[old(self).context_ptr as int];
                old(self).booted() && nfa > 56 ==> {
                    &&& final(self).here_val() == old(self).here_val()
                    &&& final(self).kernel.heap@[old(self).context_ptr as int] == nfa
                    &&& old(self).aborted() ==> final(self).aborted()
                    &&& nfa < DATA_SIZE && old(self).kernel.heap@[nfa as int] >= 0 ==> final(self).aborted()
                        == old(self).aborted() && final(self).kernel.stack_ptr == old(self).kernel.stack_ptr
                    &&& forall|a: int|
                        0 <= a < DATA_SIZE && a != nfa && a != old(self).abort_ptr && a != old(self).state_ptr
                            ==> #[trigger] final(self).kernel.heap@[a] == old(self).kernel.heap@[a]
                }
            }),
            final(self).kernel.strings@ == old(self).kernel.strings@,
            final(self).reader@ == old(self).reader@,
            final(self).exit_flag == old(self).exit_flag,
            final(self).same_pointers(old(self)),
            final(self).kernel.string_ptr == old(self).kernel.string_ptr,
            final(self).kernel.builtins@ == old(self).kernel.builtins@,
    {
        let addr = self.kernel.get(self.context_ptr);
        if 0 <= addr && addr < DATA_SIZE as i64 {
            let v = self.kernel.get(addr as usize);
            if v >= 0 {
                let u = v as u64;
                assert(u | IMMEDIATE_FLAG <= 0x7fffffffffffffffu64) by (bit_vector)
                    requires
                        u <= 0x7fffffffffffffffu64,
                ;
                assert((u | IMMEDIATE_FLAG) & IMMEDIATE_FLAG != 0) by (bit_vector);
                self.kernel.set(addr as usize, (u | IMMEDIATE_FLAG) as i64);
            } else {
                self.f_abort_with(MsgKind::AddressOutOfRange, v);
            }
        } else {
            self.f_abort_with(MsgKind::AddressOutOfRange, addr);
        }
    }

    /// immed? ( cfa -- flag ) whether the word at `cfa` has the immediate flag.
    pub fn f_immediate_q(&mut self)
        requires
            old(self).wf(),
        ensures
            frame_kept(*old(self), *final(self)),
            final(self).wf(),
            old(self).kernel.depth() < 1 ==> final(self).is_reset(),
            ({
                let cfa = masked(old(self).stack().last());
                old(self).kernel.depth() >= 1 && 1 <= cfa <= DATA_SIZE ==> final(self).kernel.stack_ptr
                    == old(self).kernel.stack_ptr && (forall|a: int|
                    0 <= a < DATA_SIZE && a != old(self).kernel.stack_ptr ==> #[trigger] final(self).kernel.heap@[a]
                        == old(self).kernel.heap@[a]) && final(self).stack()
                    == old(self).stack().drop_last().push(
                    if old(self).kernel.heap@[cfa - 1] >= 0 && old(self).kernel.heap@[cfa - 1] as u64 & IMMEDIATE_FLAG != 0 {
                        TRUE
                    } else {
                        FALSE
                    },
                )
            }),
            final(self).reader@ == old(self).reader@,
            final(self).exit_flag == old(self).exit_flag,
            final(self).same_pointers(old(self)),
            final(self).kernel.string_ptr == old(self).kernel.string_ptr,
            final(self).kernel.builtins@ == old(self).kernel.builtins@,
    {
        if self.need(1) {
            let v = self.pop();
            let cfa = match mask_address(v) {
                Some(c) => c,
                None => 0,
            };
            if 1 <= cfa && cfa <= DATA_SIZE as u64 {
                let name_ptr = self.kernel.get(cfa as usize - 1);
                let result = if name_ptr < 0 || name_ptr as u64 & IMMEDIATE_FLAG == 0 {
                    FALSE
                } else {
                    TRUE
                };
                self.kernel.push(result);
            } else {
                self.f_abort_with(MsgKind::AddressOutOfRange, cfa as i64);
            }
        }
    }

    /// Searches the dictionary, most recent word first, for the word named by
    /// the counted string at `addr`; returns its code field address, or 0.
    pub fn find_word(&self, addr: usize) -> (r: usize)
        requires
            self.wf(),
            counted_fits(self.kernel.strings@, addr as int),
        ensures
            r == self.lookup(counted(self.kernel.strings@, addr as int)),
    {
        let ghost name = counted(self.kernel.strings@, addr as int);
        let ctx = self.kernel.get(self.context_ptr);
        if ctx <= 1 || ctx >= DATA_SIZE as i64 {
            return 0;
        }
        let mut link: usize = (ctx - 1) as usize;
        while link > 0
            invariant
                self.wf(),
                counted_fits(self.kernel.strings@, addr as int),
                link < DATA_SIZE,
                name == counted(self.kernel.strings@, addr as int),
                self.lookup(name) == dict_find(self.kernel.heap@, self.kernel.strings@, link as int, name),
            decreases link,
        {
            if link + 2 >= DATA_SIZE {
                proof {
                    reveal_with_fuel(dict_find, 1);
                }
                assert(dict_find(self.kernel.heap@, self.kernel.strings@, link as int, name) == 0);
                return 0;
            }
            if let Some(nfa) = mask_address(self.kernel.get(link + 1)) {
                if nfa < STRING_SIZE as u64 && (nfa as usize) + 1 + (self.kernel.strings[nfa as usize] as usize) <= STRING_SIZE {
                    let n = nfa as usize;
                    if self.kernel.string_equal(addr, n) {
                        assert(name_matches(self.kernel.heap@, self.kernel.strings@, link as int, name));
                        assert(dict_find(self.kernel.heap@, self.kernel.strings@, link as int, name) == link + 2);
                        return link + 2;
                    }
                }
            }
            let next = self.kernel.get(link);
            if 0 <= next && next < link as i64 {
                link = next as usize;
            } else {
                return 0;
            }
        }
        0
    }

    /// FIND ( s -- cfa T | s F ) looks up the word named by the counted string at `s`.
    pub fn f_find(&mut self)
        requires
            old(self).wf(),
        ensures
            frame_kept(*old(self), *final(self)),
            final(self).wf(),
            old(self).kernel.depth() < 1 ==> final(self).is_reset(),
            ({
                let s = old(self).stack().last();
                let found = if 0 <= s < STRING_SIZE && counted_fits(old(self).kernel.strings@, s as int) {
                    old(self).lookup(counted(old(self).kernel.strings@, s as int))
                } else {
                    0
                };
                old(self).kernel.depth() >= 1 && old(self).has_room() ==> {
                    &&& found != 0 ==> final(self).stack() == old(self).stack().drop_last().push(found as i64).push(TRUE)
                    &&& found == 0 ==> final(self).stack() == old(self).stack().push(FALSE)
                    &&& final(self).msg == old(self).msg
                    &&& final(self).framed(old(self))
                }
            }),
            final(self).kernel.strings@ == old(self).kernel.strings@,
            final(self).reader@ == old(self).reader@,
            final(self).exit_flag == old(self).exit_flag,
            final(self).same_pointers(old(self)),
            final(self).kernel.string_ptr == old(self).kernel.string_ptr,
            final(self).kernel.builtins@ == old(self).kernel.builtins@,
    {
        if self.need(1) {
            let s = self.pop();
            let mut found: usize = 0;
            if 0 <= s && s < STRING_SIZE as i64 {
                let a = s as usize;
                if a + 1 + (self.kernel.strings[a] as usize) <= STRING_SIZE {
                    found = self.find_word(a);
                }
            }
            if found != 0 {
                self.kernel.push(found as i64);
                self.push(TRUE);
            } else {
                self.kernel.push(s);
                self.push(FALSE);
            }
            proof {
                if old(self).has_room() {
                    assert(self.kernel.ret_stack() =~= old(self).kernel.ret_stack());
                }
            }
        }
    }
    /// Registers the native words. `;` is made immediate so that it runs
    /// while a definition is being compiled.
    pub fn compile_builtins(&mut self)
        requires
            old(self).wf(),
        ensures
            old(self).kernel.builtins@.len() + 82 < 0x1000000 ==> {
                &&& final(self).kernel.builtins@.len() == old(self).kernel.builtins@.len() + 82
                &&& final(self).kernel.builtins@.subrange(0, old(self).kernel.builtins@.len() as int)
                    == old(self).kernel.builtins@
                &&& forall|i: int|
                    0 <= i < 82 ==> (#[trigger] final(self).kernel.builtins@[old(self).kernel.builtins@.len() + i]).code
                        == boot_prims()[i] && final(self).kernel.builtins@[old(self).kernel.builtins@.len() + i].name@
                        == boot_names()[i]
            },
            final(self).wf(),
            final(self).kernel.stack_ptr >= old(self).kernel.stack_ptr,
            final(self).same_pointers(old(self)),
            final(self).kernel.string_ptr == old(self).kernel.string_ptr,
            boot_space(*old(self)) ==> !final(self).aborted(),
            boot_room(*old(self)) && !final(self).aborted() ==> final(self).here_val() == old(self).here_val() + 246
                && exists|recs: Seq<int>| #![trigger boot_records(*final(self), old(self).kernel.builtins@.len() as int, recs, 82)]
                boot_records(*final(self), old(self).kernel.builtins@.len() as int, recs, 82),
            boot_room(*old(self)) && !final(self).aborted() ==> exists|a: int|
                #![trigger semicolon_marked(*final(self), a, (old(self).kernel.builtins@.len() + 57) as int)]
                semicolon_marked(*final(self), a, (old(self).kernel.builtins@.len() + 57) as int),
    {
        let ghost b0 = old(self).kernel.builtins@;
        let ghost p0 = boot_room(*old(self));
        let ghost mut semi: int = 0;
        let ghost mut recs: Seq<int> = Seq::empty();
        let mut i: usize = 0;
        while i < 82
            invariant
                self.wf(),
                i <= 82,
                self.kernel.stack_ptr >= old(self).kernel.stack_ptr,
                self.same_pointers(old(self)),
                self.kernel.string_ptr == old(self).kernel.string_ptr,
                b0 == old(self).kernel.builtins@,
                b0.len() + 82 < 0x1000000 ==> {
                    &&& self.kernel.builtins@.len() == b0.len() + i
                    &&& self.kernel.builtins@.subrange(0, b0.len() as int) == b0
                    &&& forall|k: int|
                        0 <= k < i ==> (#[trigger] self.kernel.builtins@[b0.len() + k]).code == boot_prims()[k]
                            && self.kernel.builtins@[b0.len() + k].name@ == boot_names()[k]
                },
                p0 == boot_room(*old(self)),
                p0 ==> self.booted() && self.here_val() > 56 && self.kernel.heap@[self.context_ptr as int] > 56,
                p0 && i > 57 && !self.aborted() ==> semicolon_marked(*self, semi, (b0.len() + 57) as int),
                boot_space(*old(self)) ==> !self.aborted() && self.kernel.stack_ptr == old(self).kernel.stack_ptr
                    && 0 <= self.kernel.heap@[self.kernel.string_ptr as int] <= old(self).kernel.heap@[old(
                    self,
                ).kernel.string_ptr as int] + 14 * i,
                p0 && !self.aborted() ==> self.here_val() == old(self).here_val() + 3 * i && boot_records(
                    *self,
                    b0.len() as int,
                    recs,
                    i as int,
                ),
            decreases 82 - i,
        {
            let (name, code, doc) = boot_entry(i);
            let ghost before = self.kernel.builtins@;
            let ghost s0 = *self;
            proof {
                if boot_space(*old(self)) {
                    assert(s0.here_val() == old(self).here_val() + 3 * i);
                    assert(name.spec_bytes().len() <= 13);
                    assert(record_room(s0, name.spec_bytes().len() as int, 1));
                }
            }
            self.add_builtin(name, code, doc);
            proof {
                if p0 {
                    if b0.len() + 82 < 0x1000000 && record_room(s0, name.spec_bytes().len() as int, 1) {
                        assert(s0.kernel.builtins@.len() < 0x1000000);
                        assert(builtin_word_made(s0, *self, name.spec_bytes(), s0.here_val() + 1));
                        assert(self.aborted() == s0.aborted());
                        if i > 57 && !s0.aborted() {
                            assert(self.kernel.heap@[semi] == s0.kernel.heap@[semi]);
                            assert(self.kernel.heap@[semi + 1] == s0.kernel.heap@[semi + 1]);
                        }
                        if !s0.aborted() {
                            let h = s0.here_val();
                            let sf = s0.kernel.heap@[s0.kernel.string_ptr as int];
                            lemma_masked_addr(sf);
                            assert forall|k: int| 0 <= k < i implies #[trigger] builtin_record(
                                *self,
                                recs[k],
                                b0.len() + k,
                                boot_name_bytes()[k],
                            ) by {
                                assert(builtin_record(s0, recs[k], b0.len() + k, boot_name_bytes()[k]));
                                let a = recs[k];
                                assert(self.kernel.heap@[a] == s0.kernel.heap@[a]);
                                assert(self.kernel.heap@[a + 1] == s0.kernel.heap@[a + 1]);
                                let m = masked(s0.kernel.heap@[a]);
                                assert(counted(self.kernel.strings@, m) =~= counted(s0.kernel.strings@, m));
                            }
                            assert(builtin_record(*self, h, b0.len() + i, boot_name_bytes()[i as int]));
                            recs = recs.push(h);
                            assert forall|k: int| 0 <= k < i + 1 implies #[trigger] builtin_record(
                                *self,
                                recs[k],
                                b0.len() + k,
                                boot_name_bytes()[k],
                            ) by {
                                if k < i {
                                } else {
                                }
                            }
                        }
                    }
                }
                let ok = p0 && b0.len() + 82 < 0x1000000 && record_room(s0, name.spec_bytes().len() as int, 1)
                    && !s0.aborted();
                assert(ok ==> boot_records(*self, b0.len() as int, recs, i + 1));
                assert(p0 && b0.len() + 82 < 0x1000000 && record_room(s0, name.spec_bytes().len() as int, 1) ==> self.aborted()
                    == s0.aborted());
                if p0 {
                    if b0.len() + 82 < 0x1000000 && record_room(s0, name.spec_bytes().len() as int, 1) {
                    } else {
                        assert(self.aborted());
                    }
                }
            }
            proof {
                if b0.len() + 82 < 0x1000000 {
                    let after = self.kernel.builtins@;
                    assert(after.drop_last() == before);
                    assert forall|k: int| 0 <= k < i implies (#[trigger] after[b0.len() + k]).code == boot_prims()[k]
                        && after[b0.len() + k].name@ == boot_names()[k] by {
                        assert(after[b0.len() + k] == before[b0.len() + k]);
                    }
                    assert(after.subrange(0, b0.len() as int) =~= before.subrange(0, b0.len() as int));
                }
            }
            if i == 57 {
                // `;` runs while a definition is compiled
                let ghost s1 = *self;
                self.f_immediate();
                proof {
                    if p0 {
                        if b0.len() + 82 < 0x1000000 && record_room(s0, name.spec_bytes().len() as int, 1) {
                            let h = s0.here_val();
                            assert(s1.kernel.heap@[s1.context_ptr as int] == h);
                            assert(s1.kernel.heap@[h] >= 0);
                            assert(s0.kernel.builtins@.len() == b0.len() + 57);
                            assert(s1.kernel.heap@[h + 1] == ((b0.len() + 57) as u64 | BUILTIN_FLAG) as i64);
                            if !self.aborted() {
                                semi = h;
                                assert(self.kernel.heap@[h + 1] == s1.kernel.heap@[h + 1]);
                                assert(semicolon_marked(*self, semi, (b0.len() + 57) as int));
                                lemma_masked_flagged(s1.kernel.heap@[h]);
                                assert(!s1.aborted());
                                assert(boot_records(s1, b0.len() as int, recs, 58));
                                assert forall|k: int| 0 <= k < 58 implies #[trigger] builtin_record(
                                    *self,
                                    recs[k],
                                    b0.len() + k,
                                    boot_name_bytes()[k],
                                ) by {
                                    assert(builtin_record(s1, recs[k], b0.len() + k, boot_name_bytes()[k]));
                                    let a = recs[k];
                                    if k < 57 {
                                        assert(builtin_record(s0, recs[k], b0.len() + k, boot_name_bytes()[k]));
                                        assert(a + 1 < h);
                                    }
                                    if a != h {
                                        assert(self.kernel.heap@[a] == s1.kernel.heap@[a]);
                                    }
                                    assert(self.kernel.heap@[a + 1] == s1.kernel.heap@[a + 1]);
                                }
                            }
                        } else {
                            assert(s1.aborted());
                            assert(self.aborted());
                        }
                    }
                }
            }
            i = i + 1;
        }
    }

    /// Boots the machine: empty stacks, system variables, builtins,
    /// interpretation mode, abort flag clear.
    pub fn cold_start(&mut self)
        requires
            old(self).wf(),
        ensures
            final(self).wf(),
            !final(self).compiling(),
            final(self).vars_clear(),
            final(self).booted(),
            final(self).stack().len() == 0,
            final(self).kernel.ret_stack().len() == 0,
            final(self).kernel.stack_ptr == STACK_START,
            !final(self).aborted(),
            old(self).kernel.builtins@.len() + 82 < 0x1000000 ==> {
                &&& final(self).here_val() == 66 + 246
                &&& exists|recs: Seq<int>| #![trigger boot_records(*final(self), old(self).kernel.builtins@.len() as int, recs, 82)]
                    boot_records(*final(self), old(self).kernel.builtins@.len() as int, recs, 82)
                &&& exists|a: int| #![trigger semicolon_marked(*final(self), a, (old(self).kernel.builtins@.len() + 57) as int)]
                    semicolon_marked(*final(self), a, (old(self).kernel.builtins@.len() + 57) as int)
                &&& final(self).here_val() == 66 + 246
                &&& exists|recs: Seq<int>| #![trigger boot_records(*final(self), old(self).kernel.builtins@.len() as int, recs, 82)]
                    boot_records(*final(self), old(self).kernel.builtins@.len() as int, recs, 82)
                &&& exists|a: int| #![trigger semicolon_marked(*final(self), a, (old(self).kernel.builtins@.len() + 57) as int)]
                    semicolon_marked(*final(self), a, (old(self).kernel.builtins@.len() + 57) as int)
                &&& final(self).kernel.builtins@.len() == old(self).kernel.builtins@.len() + 82
                &&& forall|i: int|
                    0 <= i < 82 ==> (#[trigger] final(self).kernel.builtins@[old(self).kernel.builtins@.len() + i]).code
                        == boot_prims()[i] && final(self).kernel.builtins@[old(self).kernel.builtins@.len() + i].name@
                        == boot_names()[i]
            },
    {
        self.kernel.reset();
        self.insert_variables();
        let ghost s1 = *self;
        self.compile_builtins();
        let ghost s2 = *self;
        self.set_compile_mode(false);
        self.f_clear();
        self.set_abort_flag(false);
        self.insert_code();
        proof {
            let b = old(self).kernel.builtins@.len();
            assert(b + 82 < 0x1000000 ==> self.here_val() == 66 + 246 && (exists|recs: Seq<int>|
                #![trigger boot_records(*self, b as int, recs, 82)]
                boot_records(*self, b as int, recs, 82)) && (exists|a: int|
                #![trigger semicolon_marked(*self, a, (b + 57) as int)]
                semicolon_marked(*self, a, (b + 57) as int))) by {
                if b + 82 < 0x1000000 {
                    assert(boot_space(s1));
                    assert(!s2.aborted());
                    let recs = choose|recs: Seq<int>| #![trigger boot_records(s2, b as int, recs, 82)]
                        boot_records(s2, b as int, recs, 82);
                    assert forall|k: int| 0 <= k < 82 implies #[trigger] builtin_record(
                        *self,
                        recs[k],
                        b + k,
                        boot_name_bytes()[k],
                    ) by {
                        assert(builtin_record(s2, recs[k], b + k, boot_name_bytes()[k]));
                    }
                    assert(boot_records(*self, b as int, recs, 82));
                    let a = choose|a: int| #![trigger semicolon_marked(s2, a, (b + 57) as int)]
                        semicolon_marked(s2, a, (b + 57) as int);
                    assert(semicolon_marked(*self, a, (b + 57) as int));
                }
            }
        }
    }

    /// Hook for Forth source compiled at boot; there is none.
    pub fn insert_code(&mut self)
        ensures
            *final(self) == *old(self),
    {
    }
}

} // verus!
