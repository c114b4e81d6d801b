use rustos_core::console::Writer;
use rustos_core::idle::IdleMonitor;
use rustos_core::interrupt::{interrupt_tag, next_count, spinner_cell, vector_digits, CommonExceptionHandler};
use rustos_core::kernel::Kernel;
use rustos_core::process::PROCESS_FLAG_IDLETASK;
use rustos_core::round_robin::PRIORITY_LOWIST;
use rustos_core::shell::{execute_command, Command};
use rustos_core::timer::convert_from_ms;

fn boot() -> Kernel {
    let mut k = Kernel::new();
    k.create_task(PRIORITY_LOWIST | PROCESS_FLAG_IDLETASK, 0x1000).unwrap();
    k
}

fn row_text(w: &Writer, row: usize) -> String {
    (0..80).map(|c| w.cell(row * 80 + c).ascii_character as char).collect()
}

#[test]
fn createtask_then_listtask_shows_all() {
    let mut k = boot();
    let count = match execute_command(b"createtask 3") {
        Command::CreateTask { count } => count,
        _ => panic!("createtask must parse"),
    };
    for _ in 0..count {
        k.create_task(PRIORITY_LOWIST, 0x2000).unwrap();
    }
    let tasks = k.task_list();
    assert!(tasks.len() >= 4);
    assert_eq!(tasks.len(), 5);
    let mut ids: Vec<u64> = tasks.iter().map(|t| t.0).collect();
    assert!(ids.iter().all(|id| id >> 32 != 0));
    ids.sort();
    ids.dedup();
    assert_eq!(ids.len(), 5);
}

#[test]
fn settimer_then_cpuload_in_range() {
    assert!(execute_command(b"settimer 10 1") == Command::SetTimer { ms: 10, periodic: true });
    assert_eq!(convert_from_ms(10) as u16, 11931);
    let mut k = boot();
    let mut monitor = IdleMonitor::new(0, 0);
    for _ in 0..50 {
        if let Some(_) = k.yield_next() {}
        let load = monitor.update(k.idle_count, k.tick_count);
        assert!(load <= 100);
    }
    assert!(monitor.process_load() <= 100);
}

#[test]
fn divide_error_banner() {
    let mut w = Writer::new(0x0F);
    CommonExceptionHandler(&mut w, 0);
    assert!(row_text(&w, 1).contains("Exception Occur"));
    assert!(row_text(&w, 2).contains("Vector : 00"));
    assert!(row_text(&w, 0).starts_with("===="));
    CommonExceptionHandler(&mut w, 13);
    assert!(row_text(&w, 2).contains("Vector : 13"));
    assert_eq!(vector_digits(32), [b'3', b'2']);
    assert_eq!(&interrupt_tag(33, 7), b"[INT:33,7]");
    assert_eq!(next_count(9), 0);
}

#[test]
fn raised_priority_runs_more_often() {
    let mut k = boot();
    let a = k.create_task(PRIORITY_LOWIST, 0x2000).unwrap();
    let b = k.create_task(PRIORITY_LOWIST, 0x2000).unwrap();
    let c = k.create_task(PRIORITY_LOWIST, 0x2000).unwrap();
    assert!(execute_command(b"changepriority 0x3 0") == Command::ChangePriority { pid: 3, priority: 0 });
    assert_eq!(k.change_priority(b, 0), Ok(()));
    let mut runs = [0u32; 8];
    for _ in 0..400 {
        let sw = k.yield_next().unwrap();
        runs[sw.next as usize] += 1;
    }
    assert!(runs[b as usize] > runs[a as usize]);
    assert!(runs[b as usize] > runs[c as usize]);
    assert!(runs[a as usize] > 0 && runs[c as usize] > 0);
}

#[test]
fn killtask_removes_and_frees_slot() {
    let mut k = boot();
    let a = k.create_task(PRIORITY_LOWIST, 0x2000).unwrap();
    let id = k.task_list().iter().find(|t| t.0 & 0xFFFF_FFFF == a).unwrap().0;
    let text = format!("killtask 0x{:X}", id);
    let pid = match execute_command(text.as_bytes()) {
        Command::KillTask { pid } => pid,
        _ => panic!("killtask must parse"),
    };
    assert_eq!(pid, id);
    assert!(k.is_process_exist(pid));
    assert!(k.end_process(pid).is_none());
    assert!(k.reap_waiting().contains(&a));
    assert!(!k.task_list().iter().any(|t| t.0 == id));
    assert!(!k.is_process_exist(pid));
    let again = k.create_task(PRIORITY_LOWIST, 0x3000).unwrap();
    assert_eq!(again, a);
    assert!(k.task_list().iter().any(|t| t.0 >> 32 > id >> 32 && t.0 & 0xFFFF_FFFF == a));
}

#[test]
fn spinner_cells() {
    assert_eq!(spinner_cell(0, 0), (2000, 0x2D | ((2000 % 15 + 1) << 8) as u16));
    let (offset, value) = spinner_cell(3, 5);
    assert_eq!(offset, 1994);
    assert_eq!(value & 0xFF, b'\\' as u16);
    assert_eq!(value >> 8, (1994 % 15 + 1) as u16);
}
