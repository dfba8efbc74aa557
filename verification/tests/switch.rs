use kernel_core::frame::{build_initial_frame, read_context, EXC_RETURN_THREAD_PSP, INITIAL_XPSR};
use kernel_core::sched::Scheduler;
use kernel_core::switch::{switch_context, trap_restore, trap_save, SoftwareFrame};

fn frame(seed: u32) -> SoftwareFrame {
    SoftwareFrame {
        r4: seed,
        r5: seed + 1,
        r6: seed + 2,
        r7: seed + 3,
        r8: seed + 4,
        r9: seed + 5,
        r10: seed + 6,
        r11: seed + 7,
    }
}

#[test]
fn save_then_restore_round_trips() {
    let mut mem: Vec<u32> = vec![0; 32];
    let regs = frame(100);
    let sp = trap_save(&mut mem, 16, regs);
    assert_eq!(sp, 8);
    let (back, sp2) = trap_restore(&mem, sp);
    assert_eq!(back, regs);
    assert_eq!(sp2, 16);
}

#[test]
fn switch_with_empty_queue_resumes_the_same_thread() {
    let mut mem: Vec<u32> = vec![0; 32];
    let mut sched = Scheduler::new();
    sched.add_thread(0, 0);
    assert!(sched.start_first().is_some());
    let regs = frame(40);
    let (back, psp) = switch_context(&mut sched, &mut mem, 24, regs);
    assert_eq!(back, regs);
    assert_eq!(psp, 24);
    // The stored stack pointer reflects the save that did happen.
    assert_eq!(sched.current_thread.unwrap().top_of_stack, 16);
}

#[test]
fn switch_resumes_a_freshly_built_thread_at_its_entry() {
    // One memory holds both stacks: the running thread's high, the
    // fresh thread's low. The fresh thread's frame was built, never
    // run; after the switch the restore pointer and registers are
    // exactly what the builder promised, and the hardware frame above
    // them still carries its entry address.
    let entry: u32 = 0x0800_0101;
    let mut mem: Vec<u32> = vec![0; 64];
    // Fresh thread's stack: words 0..32.
    let mut low: Vec<u32> = vec![0; 32];
    let fresh_sp = build_initial_frame(&mut low, entry);
    for (k, w) in low.iter().enumerate() {
        mem[k] = *w;
    }
    let mut sched = Scheduler::new();
    // The running thread was started from the high half.
    sched.add_thread(64, 0);
    let fresh = sched.add_thread(fresh_sp, 0);
    assert!(sched.start_first().is_some());
    // A tick preempts the running thread at psp == 60.
    let regs = frame(900);
    let (restored, psp) = switch_context(&mut sched, &mut mem, 60, regs);
    // The fresh thread is now current and resumes from its built frame.
    assert_eq!(sched.current_thread.unwrap().id, fresh.id);
    assert_eq!(psp, fresh_sp + 8);
    assert_eq!(
        restored,
        SoftwareFrame { r4: 0, r5: 0, r6: 0, r7: 0, r8: 0, r9: 0, r10: 0, r11: 0 }
    );
    // The hardware frame the CPU will pop still names the entry.
    let ctx = read_context(&mem, fresh_sp);
    assert_eq!(ctx.pc, entry);
    assert_eq!(ctx.lr, EXC_RETURN_THREAD_PSP);
    assert_eq!(ctx.xpsr, INITIAL_XPSR);
    // The preempted thread waits at the tail with its pointer saved.
    assert_eq!(sched.threads.len(), 1);
    assert_eq!(sched.threads.back().unwrap().top_of_stack, 52);
}

#[test]
fn two_threads_alternate_across_switches() {
    // Two threads sharing one memory: repeated switches bounce between
    // them, each resume reading back exactly what the previous save of
    // that thread wrote.
    let mut mem: Vec<u32> = vec![0; 80];
    let mut sched = Scheduler::new();
    let a = sched.add_thread(24, 0);
    let b = sched.add_thread(56, 0);
    assert_eq!(sched.start_first(), Some(24));
    // Seed B's software frame at its saved pointer as a real save
    // would have.
    let b_regs = frame(200);
    let saved_b = trap_save(&mut mem, 64, b_regs);
    assert_eq!(saved_b, 56);
    // A runs and is preempted at psp 32.
    let a_regs = frame(100);
    let (got, psp) = switch_context(&mut sched, &mut mem, 32, a_regs);
    assert_eq!(sched.current_thread.unwrap().id, b.id);
    assert_eq!(got, b_regs);
    assert_eq!(psp, 64);
    // B runs and is preempted where it started; A's frame comes back.
    let (got, psp) = switch_context(&mut sched, &mut mem, 64, b_regs);
    assert_eq!(sched.current_thread.unwrap().id, a.id);
    assert_eq!(got, a_regs);
    assert_eq!(psp, 32);
}
