use kernel_core::sched::Scheduler;

#[test]
fn fresh_scheduler_is_idle() {
    let s = Scheduler::new();
    assert!(s.current_thread.is_none());
    assert_eq!(s.threads.len(), 0);
    assert_eq!(s.id_counter, 0);
}

#[test]
fn thread_ids_are_distinct_increasing_and_non_zero() {
    // Creating k threads yields k TCBs with distinct, strictly
    // increasing, non-zero ids.
    let mut s = Scheduler::new();
    let mut ids = Vec::new();
    for k in 0..5usize {
        let t = s.add_thread(0x1000 + 0x100 * k, 0);
        ids.push(t.id);
    }
    assert_eq!(s.threads.len(), 5);
    for (i, &id) in ids.iter().enumerate() {
        assert_ne!(id, 0);
        if i > 0 {
            assert!(ids[i - 1] < id);
        }
        for (j, &other) in ids.iter().enumerate() {
            if i != j {
                assert_ne!(id, other);
            }
        }
    }
    assert_eq!(ids, vec![1, 2, 3, 4, 5]);
}

#[test]
fn start_first_pops_the_head() {
    let mut s = Scheduler::new();
    let a = s.add_thread(0x100, 0);
    let _b = s.add_thread(0x200, 0);
    let sp = s.start_first();
    assert_eq!(sp, Some(0x100));
    assert_eq!(s.current_thread, Some(a));
    assert_eq!(s.threads.len(), 1);
}

#[test]
fn start_first_with_nothing_enrolled_has_no_effect() {
    let mut s = Scheduler::new();
    assert_eq!(s.start_first(), None);
    assert!(s.current_thread.is_none());
    assert_eq!(s.threads.len(), 0);
}

#[test]
fn round_robin_cycles_in_creation_order() {
    // Threads A, B, C in that order; the first start yields A; three
    // consecutive switches select each of the others exactly once and
    // the run order is A, B, C, A — cyclic.
    let mut s = Scheduler::new();
    let a = s.add_thread(0xa0, 0);
    let b = s.add_thread(0xb0, 0);
    let c = s.add_thread(0xc0, 0);
    assert_eq!(s.start_first(), Some(0xa0));
    assert_eq!(s.current_thread.unwrap().id, a.id);
    let mut run_order = vec![s.current_thread.unwrap().id];
    for _ in 0..3 {
        s.select_next();
        run_order.push(s.current_thread.unwrap().id);
    }
    assert_eq!(run_order, vec![a.id, b.id, c.id, a.id]);
    // Over the three switches each thread was selected exactly once.
    for id in [a.id, b.id, c.id].iter() {
        assert_eq!(run_order[1..].iter().filter(|&x| x == id).count(), 1);
    }
}

#[test]
fn select_next_with_empty_queue_keeps_the_current_thread() {
    let mut s = Scheduler::new();
    let a = s.add_thread(0xa0, 7);
    assert_eq!(s.start_first(), Some(0xa0));
    s.select_next();
    assert_eq!(s.current_thread, Some(a));
    assert_eq!(s.threads.len(), 0);
}
