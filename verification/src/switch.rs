//! The context-switch trap handler.
//!
//! The handler runs inside an asynchronous hardware exception and never
//! returns to its caller in the conventional sense: it resumes whatever
//! thread context it installs. It steps through a fixed protocol:
//!
//! 1. *entry* — the hardware has already pushed the running thread's
//!    hardware frame onto that thread's own stack and left the thread
//!    stack pointer in `psp`;
//! 2. *save* — the handler pushes the software frame `r4`..`r11` onto
//!    the same stack and stores the resulting stack pointer into the
//!    current TCB ([`trap_save`]);
//! 3. *select* — the scheduler picks the next thread, round-robin
//!    ([`Scheduler::select_next`]);
//! 4. *restore* — the handler pops the software frame from the chosen
//!    TCB's saved stack pointer ([`trap_restore`]) and programs the
//!    thread stack pointer with the updated value;
//! 5. *exit* — the hardware pops the hardware frame from there,
//!    resuming the chosen thread where it was interrupted, or at its
//!    entry function if its frame was freshly built.
//!
//! [`switch_context`] is the whole protocol between entry and exit; the
//! naked trampoline on the target only moves registers to and from the
//! positions this contract names. The handler must not be re-entered
//! mid-switch: the trap is configured as the lowest-priority exception.

use crate::frame::{CONTEXT_WORDS, SW_FRAME_WORDS};
use crate::sched::{rotate_left, Scheduler, Tcb};
use vstd::prelude::*;

verus! {

/// The software-saved registers `r4`..`r11` as the handler carries
/// them between the CPU and stack memory.
#[derive(Clone, Copy, PartialEq, Eq, Structural, Debug)]
pub struct SoftwareFrame {
    pub r4: u32,
    pub r5: u32,
    pub r6: u32,
    pub r7: u32,
    pub r8: u32,
    pub r9: u32,
    pub r10: u32,
    pub r11: u32,
}

/// The software frame lying at `p` in `s`, lowest register first.
pub open spec fn sw_frame_at(s: Seq<u32>, p: int) -> SoftwareFrame {
    SoftwareFrame {
        r4: s[p],
        r5: s[p + 1],
        r6: s[p + 2],
        r7: s[p + 3],
        r8: s[p + 4],
        r9: s[p + 5],
        r10: s[p + 6],
        r11: s[p + 7],
    }
}

/// Pushes the software frame onto the thread stack below `sp` and
/// returns the new stack pointer, exactly as the save stage's
/// store-multiple-decrement does; no other word of memory moves.
pub fn trap_save(stack: &mut Vec<u32>, sp: usize, regs: SoftwareFrame) -> (new_sp: usize)
    requires
        SW_FRAME_WORDS <= sp,
        sp <= old(stack)@.len(),
    ensures
        new_sp == sp - SW_FRAME_WORDS,
        final(stack)@.len() == old(stack)@.len(),
        sw_frame_at(final(stack)@, new_sp as int) == regs,
        forall|k: int| 0 <= k < new_sp ==> final(stack)@[k] == old(stack)@[k],
        forall|k: int| sp <= k < final(stack)@.len() ==> final(stack)@[k] == old(stack)@[k],
{
    let base = sp - SW_FRAME_WORDS;
    stack[base] = regs.r4;
    stack[base + 1] = regs.r5;
    stack[base + 2] = regs.r6;
    stack[base + 3] = regs.r7;
    stack[base + 4] = regs.r8;
    stack[base + 5] = regs.r9;
    stack[base + 6] = regs.r10;
    stack[base + 7] = regs.r11;
    base
}

/// Pops the software frame lying at `sp` on the chosen thread's stack
/// and returns it with the updated stack pointer, exactly as the
/// restore stage's load-multiple-increment does.
pub fn trap_restore(stack: &Vec<u32>, sp: usize) -> (r: (SoftwareFrame, usize))
    requires
        sp + SW_FRAME_WORDS <= stack@.len(),
    ensures
        r.0 == sw_frame_at(stack@, sp as int),
        r.1 == sp + SW_FRAME_WORDS,
{
    let n = stack.len();
    let regs = SoftwareFrame {
        r4: stack[sp],
        r5: stack[sp + 1],
        r6: stack[sp + 2],
        r7: stack[sp + 3],
        r8: stack[sp + 4],
        r9: stack[sp + 5],
        r10: stack[sp + 6],
        r11: stack[sp + 7],
    };
    (regs, sp + SW_FRAME_WORDS)
}

/// One full context switch: saves the preempted thread's software frame
/// at its stack pointer `psp` and the resulting pointer in its TCB,
/// lets the scheduler pick the next thread round-robin, and returns the
/// software frame and stack pointer to restore. With an empty ready
/// queue the preempted thread resumes at once: the registers and stack
/// pointer come back unchanged.
pub fn switch_context(
    sched: &mut Scheduler,
    stack: &mut Vec<u32>,
    psp: usize,
    regs: SoftwareFrame,
) -> (r: (SoftwareFrame, usize))
    requires
        old(sched).wf(),
        old(sched).current_thread is Some,
        old(sched).threads@.len() < usize::MAX,
        SW_FRAME_WORDS <= psp,
        psp <= old(stack)@.len(),
        forall|i: int|
            0 <= i < old(sched).threads@.len() ==> (#[trigger] old(
                sched,
            ).threads@[i]).top_of_stack + CONTEXT_WORDS <= old(stack)@.len(),
    ensures
        final(sched).wf(),
        final(sched).id_counter == old(sched).id_counter,
        // Round-robin: the run order of thread ids rotates by one.
        final(sched).run_order_ids() == rotate_left(old(sched).run_order_ids()),
        final(stack)@.len() == old(stack)@.len(),
        // The save stage touched exactly the eight words below `psp`.
        sw_frame_at(final(stack)@, psp - SW_FRAME_WORDS) == regs,
        forall|k: int| 0 <= k < psp - SW_FRAME_WORDS ==> final(stack)@[k] == old(stack)@[k],
        forall|k: int| psp <= k < final(stack)@.len() ==> final(stack)@[k] == old(stack)@[k],
        // The preempted thread's TCB now holds the updated pointer.
        ({
            let saved = Tcb {
                id: old(sched).current_thread.unwrap().id,
                top_of_stack: (psp - SW_FRAME_WORDS) as usize,
                priority: old(sched).current_thread.unwrap().priority,
            };
            if old(sched).threads@.len() == 0 {
                // Same thread resumes: registers and pointer unchanged.
                &&& final(sched).current_thread == Some(saved)
                &&& final(sched).threads@ == old(sched).threads@
                &&& r == (regs, psp)
            } else {
                // Head of the queue runs; the preempted thread waits at
                // the tail.
                &&& final(sched).current_thread == Some(old(sched).threads@[0])
                &&& final(sched).threads@ == old(sched).threads@.skip(1).push(saved)
                &&& r.0 == sw_frame_at(
                    final(stack)@,
                    old(sched).threads@[0].top_of_stack as int,
                )
                &&& r.1 == old(sched).threads@[0].top_of_stack + SW_FRAME_WORDS
            }
        }),
{
    // Save: push r4..r11 onto the preempted thread's stack and record
    // the new stack pointer in its TCB.
    let new_sp = trap_save(stack, psp, regs);
    let prev = sched.current_thread.unwrap();
    sched.current_thread = Some(Tcb { id: prev.id, top_of_stack: new_sp, priority: prev.priority });
    // Select: round-robin over the ready queue.
    sched.select_next();
    proof {
        assert(sched.run_order_ids() =~= rotate_left(old(sched).run_order_ids()));
    }
    // Restore: pop r4..r11 from the chosen thread's saved stack pointer.
    let cur = sched.current_thread.unwrap();
    trap_restore(stack, cur.top_of_stack)
}

} // verus!
