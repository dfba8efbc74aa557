use kernel_core::frame::{
    build_initial_frame, read_context, CONTEXT_WORDS, EXC_RETURN_THREAD_PSP, INITIAL_XPSR,
};

#[test]
fn initial_frame_shape() {
    // For entry address E on a stack of N words, the returned pointer p
    // reads back as: software frame all zero, then a hardware frame with
    // pc == E, lr == the thread-mode sentinel, xpsr == just the Thumb
    // bit, and r0..r3, r12 zero.
    let entry: u32 = 0x0800_1234;
    let n: usize = 64;
    let mut stack: Vec<u32> = vec![0xdead_beef; n];
    let sp = build_initial_frame(&mut stack, entry);
    assert_eq!(sp, n - CONTEXT_WORDS);
    let ctx = read_context(&stack, sp);
    assert_eq!(ctx.pc, entry);
    assert_eq!(ctx.lr, EXC_RETURN_THREAD_PSP);
    assert_eq!(ctx.xpsr, INITIAL_XPSR);
    assert_eq!(ctx.xpsr, 1 << 24);
    for r in [
        ctx.r0, ctx.r1, ctx.r2, ctx.r3, ctx.r4, ctx.r5, ctx.r6, ctx.r7, ctx.r8, ctx.r9, ctx.r10,
        ctx.r11, ctx.r12,
    ]
    .iter()
    {
        assert_eq!(*r, 0);
    }
}

#[test]
fn initial_frame_word_layout() {
    // Bit-exact layout, low to high address:
    // [r4..r11][r0 r1 r2 r3 r12 lr pc xpsr].
    let entry: u32 = 0x0000_4321;
    let mut stack: Vec<u32> = vec![7; 16];
    let sp = build_initial_frame(&mut stack, entry);
    assert_eq!(sp, 0);
    assert_eq!(&stack[0..13], &[0; 13]);
    assert_eq!(stack[13], EXC_RETURN_THREAD_PSP);
    assert_eq!(stack[14], entry);
    assert_eq!(stack[15], INITIAL_XPSR);
}

#[test]
fn build_leaves_the_rest_of_the_stack_alone() {
    let mut stack: Vec<u32> = vec![0x5555_5555; 24];
    let sp = build_initial_frame(&mut stack, 0x100);
    assert_eq!(sp, 8);
    for k in 0..8 {
        assert_eq!(stack[k], 0x5555_5555);
    }
}

#[test]
fn sentinel_is_thread_mode_process_stack_return() {
    assert_eq!(EXC_RETURN_THREAD_PSP, 0xFFFF_FFFD);
}
