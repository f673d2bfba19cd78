//! Properties that relate several operations of the machine.
use crate::builtin::Prim;
use crate::compiler::literal_compiled;
use crate::dictionary::{lemma_word_made_facts, word_made};
use crate::general::{arith_ok, arith_step, is_arith, net_effect};
use crate::inner::literal_stepped;
use crate::kernel::{counted, DATA_SIZE, STRING_SIZE};
use crate::repl::cycle_begun;
use crate::runtime::{masked, name_matches, ForthRuntime, LITERAL};
use vstd::prelude::*;

verus! {

proof fn lemma_masked_small(v: i64)
    requires
        0 <= v < STRING_SIZE,
    ensures
        masked(v) == v,
{
    let u = v as u64;
    assert(u & 0x00FFFFFFFFFFFFFFu64 == u) by (bit_vector)
        requires
            u < 10000u64,
    ;
}

/// A name defined twice is found as its second definition, most recent
/// first; the first record keeps its name field and its name, but FIND no
/// longer reaches it by that name.
pub proof fn lemma_redefinition_shadows(
    r0: ForthRuntime,
    r1: ForthRuntime,
    r2: ForthRuntime,
    name: Seq<u8>,
    args1: Seq<i64>,
    args2: Seq<i64>,
    cfa1: int,
    cfa2: int,
)
    requires
        r0.wf(),
        word_made(r0, r1, name, args1, cfa1),
        word_made(r1, r2, name, args2, cfa2),
    ensures
        r2.lookup(name) == cfa2,
        cfa1 != cfa2,
        r2.kernel.heap@[cfa1 - 1] == r1.kernel.heap@[cfa1 - 1],
        counted(r2.kernel.strings@, r2.kernel.heap@[cfa1 - 1] as int) == name,
{
    lemma_word_made_facts(r0, r1, name, args1, cfa1);
    lemma_word_made_facts(r1, r2, name, args2, cfa2);
    let h1 = r0.here_val();
    let h2 = r1.here_val();
    let s1 = r0.kernel.heap@[r0.kernel.string_ptr as int] as int;
    let s2 = r1.kernel.heap@[r1.kernel.string_ptr as int] as int;
    assert(r2.kernel.heap@[h2] == s2 as i64);
    lemma_masked_small(s2 as i64);
    assert(name_matches(r2.kernel.heap@, r2.kernel.strings@, h2 - 1, name));
    assert(r2.lookup(name) == h2 + 1);
    assert(r2.kernel.heap@[h1] == r1.kernel.heap@[h1]);
    assert(s2 == s1 + 1 + name.len());
    assert(counted(r2.kernel.strings@, s1) =~= counted(r1.kernel.strings@, s1));
}

/// A literal `n` compiled at HERE and then run by the inner interpreter
/// leaves `n` on top of the data stack.
pub proof fn lemma_literal_round_trip(r0: ForthRuntime, r1: ForthRuntime, r2: ForthRuntime, r3: ForthRuntime, n: i64)
    requires
        r0.wf(),
        literal_compiled(r0, r1, n),
        r2.kernel == r1.kernel,
        r2.here_ptr == r1.here_ptr,
        r2.pc == r0.here_val(),
        0 < r2.pc,
        r2.pc + 2 < DATA_SIZE,
        r2.has_room(),
        literal_stepped(r2, r3),
    ensures
        r3.stack().last() == n,
        r3.stack().drop_last() == r1.stack(),
        r3.pc == r0.here_val() + 2,
{
    let h = r0.here_val();
    assert(r1.kernel.heap@[h] == LITERAL);
    assert(r1.kernel.heap@[h + 1] == n);
}

/// The sum of the declared net stack effects of a sequence of words.
pub open spec fn total_effect(ops: Seq<Prim>) -> int
    decreases ops.len(),
{
    if ops.len() == 0 {
        0
    } else {
        total_effect(ops.drop_last()) + net_effect(ops.last())
    }
}

/// After a sequence of arithmetic and stack words, each run with enough
/// items (and, for `/` and `mod`, a divisor that gives a quotient), the data
/// stack depth is the initial depth plus the sum of their net effects.
pub proof fn lemma_arith_sequence_depth(states: Seq<ForthRuntime>, ops: Seq<Prim>)
    requires
        states.len() == ops.len() + 1,
        forall|i: int|
            0 <= i < ops.len() ==> is_arith(#[trigger] ops[i]) && arith_ok(states[i], ops[i]) && arith_step(
                states[i],
                states[i + 1],
                ops[i],
            ),
    ensures
        states.last().kernel.depth() == states[0].kernel.depth() + total_effect(ops),
    decreases ops.len(),
{
    if ops.len() > 0 {
        let k = ops.len() - 1;
        let s = states.drop_last();
        let o = ops.drop_last();
        assert forall|i: int| 0 <= i < o.len() implies is_arith(#[trigger] o[i]) && arith_ok(s[i], o[i])
            && arith_step(s[i], s[i + 1], o[i]) by {
            assert(o[i] == ops[i]);
            assert(s[i] == states[i] && s[i + 1] == states[i + 1]);
        }
        lemma_arith_sequence_depth(s, o);
        assert(is_arith(ops[k]) && arith_ok(states[k], ops[k]) && arith_step(states[k], states[k + 1], ops[k]));
    }
}

/// An abort leaves both stacks empty and the abort flag set, whatever state
/// it came from (an aborted one included); the next cycle then starts with
/// the stacks still empty and the flag cleared.
pub proof fn lemma_abort_then_cycle(r1: ForthRuntime, r2: ForthRuntime)
    requires
        r1.is_reset(),
        cycle_begun(r1, r2),
    ensures
        r1.stack().len() == 0,
        r1.kernel.ret_stack().len() == 0,
        r1.aborted(),
        r2.stack().len() == 0,
        r2.kernel.ret_stack().len() == 0,
        !r2.aborted(),
{
}

} // verus!
