use rustos_core::kernel::Kernel;
use rustos_core::process::{
    Context, Process, ProcessPool, PROCESS_FLAG_ENDTASK, PROCESS_FLAG_IDLETASK, PROCESS_STACKADDRESS,
    PROCESS_STACKSIZE, REG_CS, REG_DS, REG_RBP, REG_RFLAGS, REG_RIP, REG_RSP, REG_SS,
};
use rustos_core::round_robin::{get_priority, set_priority, RRScheduler, PRIORITY_LOWIST, PRIORITY_WAIT};

fn ready(k: &Kernel, p: usize) -> Vec<u64> {
    k.scheduler.list_items(p)
}

#[test]
fn priority_bits() {
    assert_eq!(get_priority(0x8000_0000_0000_0003), 3);
    let mut f: u64 = 0x0800_0000_0000_0002;
    set_priority(&mut f, 0xFF);
    assert_eq!(f, 0x0800_0000_0000_00FF);
}

#[test]
fn boot_task_runs_first() {
    let k = Kernel::new();
    assert_eq!(k.get_pid(), 0);
    assert_eq!(k.pool.get(0).id, 1u64 << 32);
    assert_eq!(k.process_count(), 0);
    assert!(k.is_process_exist(1u64 << 32));
    assert!(!k.is_process_exist(0));
    assert!(!k.is_process_exist(1));
}

#[test]
fn create_task_sets_context_and_queues_at_tail() {
    let mut k = Kernel::new();
    let a = k.create_task(2, 0x1234).unwrap();
    let b = k.create_task(2, 0x5678).unwrap();
    assert_eq!(a, 1);
    assert_eq!(b, 2);
    assert_eq!(ready(&k, 2), vec![1, 2]);
    let p = k.pool.get(2);
    let top = PROCESS_STACKADDRESS + PROCESS_STACKSIZE * 2 + PROCESS_STACKSIZE;
    assert_eq!(p.context.registers[REG_RIP], 0x5678);
    assert_eq!(p.context.registers[REG_RSP], top);
    assert_eq!(p.context.registers[REG_RBP], top);
    assert_eq!(p.context.registers[REG_CS], 0x08);
    assert_eq!(p.context.registers[REG_DS], 0x10);
    assert_eq!(p.context.registers[REG_SS], 0x10);
    assert_ne!(p.context.registers[REG_RFLAGS] & 0x200, 0);
    assert_eq!(p.id, (3u64 << 32) | 2);
    assert_eq!(k.process_count(), 2);
}

#[test]
fn create_task_rejects_bad_priority() {
    let mut k = Kernel::new();
    assert_eq!(k.create_task(5, 0x10), Err(()));
    assert_eq!(k.create_task(PRIORITY_WAIT, 0x10), Err(()));
    assert_eq!(k.process_count(), 0);
}

#[test]
fn pool_exhaustion_fails() {
    let mut k = Kernel::new();
    for i in 1..1024u64 {
        assert_eq!(k.create_task(PRIORITY_LOWIST, 0x10), Ok(i));
    }
    assert_eq!(k.create_task(PRIORITY_LOWIST, 0x10), Err(()));
}

fn drain(s: &mut RRScheduler) -> Vec<u64> {
    let mut out = Vec::new();
    while let Some(pid) = s.next() {
        out.push(pid);
    }
    out
}

#[test]
fn pick_next_visits_each_once_in_fifo_order() {
    for code in 0..243u32 {
        let mut counts = [0usize; 5];
        let mut c = code;
        for p in 0..5 {
            counts[p] = (c % 3) as usize;
            c /= 3;
        }
        let mut s = RRScheduler::new(1000);
        let mut next_pid = 0u64;
        let mut lists: Vec<Vec<u64>> = vec![Vec::new(); 5];
        for p in 0..5 {
            for _ in 0..counts[p] {
                assert_eq!(s.add_ready_list(next_pid, p as u64), Ok(()));
                lists[p].push(next_pid);
                next_pid += 1;
            }
        }
        let out = drain(&mut s);
        assert_eq!(out.len() as u64, next_pid);
        let mut sorted = out.clone();
        sorted.sort();
        assert_eq!(sorted, (0..next_pid).collect::<Vec<u64>>());
        for p in 0..5 {
            let seen: Vec<u64> = out.iter().copied().filter(|x| lists[p].contains(x)).collect();
            assert_eq!(seen, lists[p]);
        }
        assert_eq!(s.next(), None);
    }
}

#[test]
fn higher_priority_gets_more_turns() {
    let mut s = RRScheduler::new(1000);
    s.add_ready_list(1, 0).unwrap();
    s.add_ready_list(2, 0).unwrap();
    s.add_ready_list(3, 4).unwrap();
    let first = s.next().unwrap();
    s.add_ready_list(first, 0).unwrap();
    let second = s.next().unwrap();
    s.add_ready_list(second, 0).unwrap();
    let third = s.next().unwrap();
    assert_eq!((first, second, third), (1, 2, 3));
}

#[test]
fn add_ready_rejects_queued_and_bad_priority() {
    let mut s = RRScheduler::new(0);
    assert_eq!(s.add_ready_list(5, 1), Ok(()));
    assert_eq!(s.add_ready_list(5, 2), Err(()));
    assert_eq!(s.add_ready_list(6, 7), Err(()));
    assert_eq!(s.add_ready_list(2000, 1), Err(()));
    assert_eq!(s.add_ready_list(6, PRIORITY_WAIT), Ok(()));
    assert_eq!(s.list_items(5), vec![6]);
    assert_eq!(s.remove_process(6), Err(()));
    assert_eq!(s.remove_process(5), Ok(5));
    assert_eq!(s.total_count(), 0);
    assert_eq!(s.wait_count(), 1);
}

#[test]
fn change_priority_moves_to_tail() {
    let mut k = Kernel::new();
    let a = k.create_task(4, 0x10).unwrap();
    let b = k.create_task(0, 0x10).unwrap();
    let c = k.create_task(4, 0x10).unwrap();
    assert_eq!(k.change_priority(c, 0), Ok(()));
    assert_eq!(ready(&k, 0), vec![b, c]);
    assert_eq!(ready(&k, 4), vec![a]);
    assert_eq!(get_priority(k.pool.get(c as usize).flags), 0);
    assert_eq!(k.pick_next(), Some(b));
    assert_eq!(k.change_priority(a, 0), Ok(()));
    assert_eq!(ready(&k, 0), vec![c, a]);
    assert_eq!(k.pick_next(), Some(c));
    assert_eq!(k.change_priority(a, 5), Err(()));
    assert_eq!(k.change_priority(999, 1), Err(()));
}

#[test]
fn end_other_task_goes_to_wait_and_is_reaped() {
    let mut k = Kernel::new();
    let a = k.create_task(3, 0x10).unwrap();
    let b = k.create_task(3, 0x10).unwrap();
    let old_id = k.pool.get(a as usize).id;
    assert!(k.is_process_exist(old_id));
    assert!(k.end_process(a).is_none());
    assert_eq!(ready(&k, 3), vec![b]);
    assert_eq!(k.scheduler.list_items(5), vec![a]);
    let f = k.pool.get(a as usize).flags;
    assert_ne!(f & PROCESS_FLAG_ENDTASK, 0);
    assert_eq!(get_priority(f), PRIORITY_WAIT);
    assert_eq!(k.reap_waiting(), vec![a]);
    assert!(!k.is_process_exist(old_id));
    assert_eq!(k.pool.get(a as usize).id, a);
    let again = k.create_task(3, 0x20).unwrap();
    assert_eq!(again, a);
    let new_id = k.pool.get(a as usize).id;
    assert!((new_id >> 32) >= (old_id >> 32) + 1);
}

#[test]
fn end_unknown_task_changes_nothing() {
    let mut k = Kernel::new();
    k.create_task(1, 0x10).unwrap();
    assert!(k.end_process(77).is_none());
    assert!(k.end_process(5000).is_none());
    assert_eq!(ready(&k, 1), vec![1]);
}

#[test]
fn schedule_swaps_saved_frame() {
    let mut k = Kernel::new();
    let a = k.create_task(1, 0xAAAA).unwrap();
    let mut frame = Context::empty();
    frame.registers[REG_RIP] = 0x7777;
    for _ in 0..5 {
        k.decrease_time();
    }
    assert!(k.is_expired());
    k.schedule(&mut frame);
    assert!(!k.is_expired());
    assert_eq!(k.get_pid(), a);
    assert_eq!(frame.registers[REG_RIP], 0xAAAA);
    assert_eq!(k.pool.get(0).context.registers[REG_RIP], 0x7777);
    assert_eq!(ready(&k, 0), vec![0]);
    assert_eq!(k.tick_count, 1);
    assert_eq!(k.idle_count, 0);
}

#[test]
fn schedule_with_nothing_ready_keeps_running() {
    let mut k = Kernel::new();
    let mut frame = Context::empty();
    frame.registers[REG_RIP] = 9;
    k.schedule(&mut frame);
    assert_eq!(k.get_pid(), 0);
    assert_eq!(frame.registers[REG_RIP], 9);
}

#[test]
fn yield_counts_idle_and_exit_discards() {
    let mut k = Kernel::new();
    let idle = k.create_task(4 | PROCESS_FLAG_IDLETASK, 0x10).unwrap();
    let sw = k.yield_next().unwrap();
    assert_eq!((sw.current, sw.next, sw.save_current), (0, idle, true));
    let sw = k.yield_next().unwrap();
    assert_eq!((sw.current, sw.next), (idle, 0));
    assert_eq!(k.idle_count, 1);
    assert_eq!(k.tick_count, 2);
    let sw = k.exit().unwrap();
    assert!(!sw.save_current);
    assert_eq!(sw.next, idle);
    assert_eq!(k.scheduler.list_items(5), vec![0]);
    assert_eq!(k.reap_waiting(), vec![0]);
    assert_eq!(k.pool.in_use_count(), 1);
}

#[test]
fn process_new_and_pool_allocation() {
    let p = Process::new(3, 0x100, 0x2000, 0x1000);
    assert_eq!(p.context.registers[REG_RSP], 0x3000);
    assert_eq!(p.flags, 3);
    let mut pool = ProcessPool::new();
    let id = pool.allocate().unwrap();
    assert_eq!(id, 1u64 << 32);
    let id2 = pool.allocate().unwrap();
    assert_eq!(id2, (2u64 << 32) | 1);
    assert_eq!(pool.dealloc(id), Some(()));
    assert_eq!(pool.dealloc(id), None);
    assert_eq!(pool.dealloc(4096), None);
    assert_eq!(pool.allocate(), Some((3u64 << 32) | 0));
    assert!(pool.get_by_id(id).is_none());
    assert!(pool.get_by_id((3u64 << 32) | 0).is_some());
}

#[test]
fn timer_tick_preempts_every_fifth_tick() {
    let mut k = Kernel::new();
    let a = k.create_task(0, 0xA).unwrap();
    let mut frame = Context::empty();
    let mut running = vec![];
    for _ in 0..20 {
        k.timer_tick(&mut frame);
        running.push(k.get_pid());
    }
    let switches = running.windows(2).filter(|w| w[0] != w[1]).count();
    assert_eq!(running[3], 0);
    assert_eq!(running[4], a);
    assert_eq!(running[9], 0);
    assert_eq!(switches, 4);
    assert_eq!(k.tick_count, 4);
}
