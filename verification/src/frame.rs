//! Initial stack-frame builder and the saved-context layout.
//!
//! A suspended thread's full context lies in its own stack as sixteen
//! 32-bit words, low to high address:
//! `[r4 r5 r6 r7 r8 r9 r10 r11][r0 r1 r2 r3 r12 lr pc xpsr]` — the
//! software frame the trap handler saves and restores itself, then the
//! hardware frame the CPU pushes and pops across the exception
//! boundary. The exception-return mechanism pops the upper block
//! unconditionally, so any conforming build must reproduce this exact
//! order.
//!
//! Stack memory is modelled as a vector of words; a stack pointer is
//! the index of the lowest word of the saved context.

use vstd::prelude::*;

verus! {

/// Initial program-status word of a fresh thread: only the
/// Thumb-execution bit set.
pub const INITIAL_XPSR: u32 = 0x0100_0000;

/// The thread-mode return sentinel: the fixed bit pattern meaning
/// "return to thread mode using the process stack".
pub const EXC_RETURN_THREAD_PSP: u32 = 0xFFFF_FFFD;

/// Words in the software-saved frame (`r4`..`r11`).
pub const SW_FRAME_WORDS: usize = 8;

/// Words in the hardware-saved frame (`r0`..`r3`, `r12`, `lr`, `pc`,
/// `xpsr`).
pub const HW_FRAME_WORDS: usize = 8;

/// Words in a full saved context.
pub const CONTEXT_WORDS: usize = 16;

/// A full saved execution context, field order matching the in-memory
/// layout.
#[derive(Clone, Copy, PartialEq, Eq, Structural, Debug)]
pub struct TaskContext {
    // Software-saved by the trap handler.
    pub r4: u32,
    pub r5: u32,
    pub r6: u32,
    pub r7: u32,
    pub r8: u32,
    pub r9: u32,
    pub r10: u32,
    pub r11: u32,
    // Hardware-saved across the exception boundary.
    pub r0: u32,
    pub r1: u32,
    pub r2: u32,
    pub r3: u32,
    pub r12: u32,
    pub lr: u32,
    pub pc: u32,
    pub xpsr: u32,
}

/// The sixteen words at `p` in `s` hold the initial context of a fresh
/// thread entering at `entry`: every general-purpose register zero, the
/// link register the thread-mode sentinel, the program counter the
/// entry address, and the status word just the Thumb bit.
pub open spec fn is_initial_frame(s: Seq<u32>, p: int, entry: u32) -> bool {
    &&& 0 <= p
    &&& p + CONTEXT_WORDS <= s.len()
    &&& forall|k: int| p <= k < p + 13 ==> s[k] == 0
    &&& s[p + 13] == EXC_RETURN_THREAD_PSP
    &&& s[p + 14] == entry
    &&& s[p + 15] == INITIAL_XPSR
}

/// The context read from the sixteen words at `p` in `s`, software
/// frame first.
pub open spec fn context_at(s: Seq<u32>, p: int) -> TaskContext {
    TaskContext {
        r4: s[p],
        r5: s[p + 1],
        r6: s[p + 2],
        r7: s[p + 3],
        r8: s[p + 4],
        r9: s[p + 5],
        r10: s[p + 6],
        r11: s[p + 7],
        r0: s[p + 8],
        r1: s[p + 9],
        r2: s[p + 10],
        r3: s[p + 11],
        r12: s[p + 12],
        lr: s[p + 13],
        pc: s[p + 14],
        xpsr: s[p + 15],
    }
}

/// Lays out the initial context for a thread entering at `entry` at the
/// high end of `stack`, hardware frame on top, and returns the stack
/// pointer to store in the thread's TCB: the index of the lowest word
/// of the software frame. The rest of the stack is untouched. To the
/// restore routine the image is indistinguishable from a context saved
/// by a real preemption.
pub fn build_initial_frame(stack: &mut Vec<u32>, entry: u32) -> (sp: usize)
    requires
        old(stack).len() >= CONTEXT_WORDS,
    ensures
        final(stack)@.len() == old(stack)@.len(),
        sp == old(stack)@.len() - CONTEXT_WORDS,
        is_initial_frame(final(stack)@, sp as int, entry),
        forall|k: int| 0 <= k < sp ==> final(stack)@[k] == old(stack)@[k],
{
    let base = stack.len() - CONTEXT_WORDS;
    let mut k: usize = 0;
    while k < 13
        invariant
            old(stack)@.len() <= usize::MAX,
            base == old(stack)@.len() - CONTEXT_WORDS,
            stack@.len() == old(stack)@.len(),
            0 <= k <= 13,
            forall|j: int| 0 <= j < base ==> stack@[j] == old(stack)@[j],
            forall|j: int| base <= j < base + k ==> stack@[j] == 0,
            forall|j: int| base + 13 <= j < stack@.len() ==> stack@[j] == old(stack)@[j],
        decreases 13 - k,
    {
        stack[base + k] = 0;
        k = k + 1;
    }
    stack[base + 13] = EXC_RETURN_THREAD_PSP;
    stack[base + 14] = entry;
    stack[base + 15] = INITIAL_XPSR;
    base
}

/// Reads the full saved context lying at `sp` in `stack`, software
/// frame first. On the target this is how the register dump walks a
/// suspended thread's state.
pub fn read_context(stack: &Vec<u32>, sp: usize) -> (ctx: TaskContext)
    requires
        sp + CONTEXT_WORDS <= stack@.len(),
    ensures
        ctx == context_at(stack@, sp as int),
{
    let n = stack.len();
    TaskContext {
        r4: stack[sp],
        r5: stack[sp + 1],
        r6: stack[sp + 2],
        r7: stack[sp + 3],
        r8: stack[sp + 4],
        r9: stack[sp + 5],
        r10: stack[sp + 6],
        r11: stack[sp + 7],
        r0: stack[sp + 8],
        r1: stack[sp + 9],
        r2: stack[sp + 10],
        r3: stack[sp + 11],
        r12: stack[sp + 12],
        lr: stack[sp + 13],
        pc: stack[sp + 14],
        xpsr: stack[sp + 15],
    }
}

/// Stack-frame shape law: on a stack of any size, the frame built for
/// entry address `entry` reads back as a context whose program counter
/// is the entry address, whose link register is the thread-mode
/// sentinel, whose status word has exactly the Thumb bit set, and whose
/// general-purpose registers are all zero.
pub proof fn lemma_initial_frame_shape(s: Seq<u32>, p: int, entry: u32)
    requires
        is_initial_frame(s, p, entry),
    ensures
        context_at(s, p).pc == entry,
        context_at(s, p).lr == EXC_RETURN_THREAD_PSP,
        context_at(s, p).xpsr == INITIAL_XPSR,
        context_at(s, p) == (TaskContext {
            lr: EXC_RETURN_THREAD_PSP,
            pc: entry,
            xpsr: INITIAL_XPSR,
            r0: 0,
            r1: 0,
            r2: 0,
            r3: 0,
            r4: 0,
            r5: 0,
            r6: 0,
            r7: 0,
            r8: 0,
            r9: 0,
            r10: 0,
            r11: 0,
            r12: 0,
        }),
{
}

} // verus!
