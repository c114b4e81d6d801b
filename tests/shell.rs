use rustos_core::shell::{
    execute_command, nth_argument, parse_decimal, parse_hex, parse_pid, split_once_space, usage_text,
    Command, LineEditor, Parameter, ShellAction, Usage,
};

#[test]
fn decimal_numbers() {
    assert_eq!(parse_decimal(b"0"), Some(0));
    assert_eq!(parse_decimal(b"1234"), Some(1234));
    assert_eq!(parse_decimal(b"+7"), Some(7));
    assert_eq!(parse_decimal(b"18446744073709551615"), Some(u64::MAX));
    assert_eq!(parse_decimal(b"18446744073709551616"), None);
    assert_eq!(parse_decimal(b""), None);
    assert_eq!(parse_decimal(b"+"), None);
    assert_eq!(parse_decimal(b"12a"), None);
    assert_eq!(parse_decimal(b"-1"), None);
}

#[test]
fn hex_numbers_need_prefix() {
    assert_eq!(parse_hex(b"0x1F"), Some(31));
    assert_eq!(parse_hex(b"0xff"), Some(255));
    assert_eq!(parse_hex(b"0x"), None);
    assert_eq!(parse_hex(b"1F"), None);
    assert_eq!(parse_hex(b"0xg"), None);
    assert_eq!(parse_hex(b"0x10000000000000000"), None);
}

#[test]
fn pid_accepts_decimal_or_hex() {
    assert_eq!(parse_pid(b"42"), Some(42));
    assert_eq!(parse_pid(b"0x100000003"), Some(0x1_0000_0003));
    assert_eq!(parse_pid(b"zz"), None);
}

#[test]
fn parameters_split_on_spaces() {
    let mut p = Parameter::new(b"10 1", b' ');
    assert_eq!(p.next(), Some(b"10".to_vec()));
    assert_eq!(p.next(), Some(b"1".to_vec()));
    assert_eq!(p.next(), None);
    let mut q = Parameter::new(b"a  b", b' ');
    assert_eq!(q.next(), Some(b"a".to_vec()));
    assert_eq!(q.next(), Some(b"".to_vec()));
    assert_eq!(q.next(), Some(b"b".to_vec()));
    assert_eq!(q.next(), None);
    assert_eq!(nth_argument(b"x y z", 2), Some(b"z".to_vec()));
    assert_eq!(split_once_space(b"help"), (b"help".to_vec(), Vec::new()));
}

#[test]
fn commands_are_recognised() {
    assert!(execute_command(b"help") == Command::Help);
    assert!(execute_command(b"cls") == Command::Cls);
    assert!(execute_command(b"cpuload") == Command::CpuLoad);
    assert!(execute_command(b"settimer 10 1") == Command::SetTimer { ms: 10, periodic: true });
    assert!(execute_command(b"settimer 10 0") == Command::SetTimer { ms: 10, periodic: false });
    assert!(execute_command(b"settimer 10") == Command::Usage { usage: Usage::SetTimer });
    assert!(execute_command(b"createtask 3") == Command::CreateTask { count: 3 });
    assert!(execute_command(b"killtask 0x100000001") == Command::KillTask { pid: 0x1_0000_0001 });
    assert!(execute_command(b"killtask") == Command::Usage { usage: Usage::KillTask });
    assert!(execute_command(b"changepriority 0x2 0") == Command::ChangePriority { pid: 2, priority: 0 });
    assert!(execute_command(b"changepriority 2 x") == Command::Usage { usage: Usage::ChangePriority });
    assert!(execute_command(b"wait abc") == Command::Usage { usage: Usage::Wait });
    assert!(execute_command(b"bogus") == Command::Unknown);
    assert!(execute_command(b"Help") == Command::Unknown);
    assert_eq!(usage_text(Usage::SetTimer), "settimer [ms] [0|1]");
}

#[test]
fn line_editor_keys() {
    let mut e = LineEditor::new();
    assert!(matches!(e.handle_key(b'h'), ShellAction::Echo(b'h')));
    assert!(matches!(e.handle_key(0x82), ShellAction::Ignore));
    assert!(matches!(e.handle_key(b'x'), ShellAction::Echo(b'x')));
    assert!(matches!(e.handle_key(0x08), ShellAction::Erase));
    assert!(matches!(e.handle_key(0x09), ShellAction::Echo(b' ')));
    match e.handle_key(b'\n') {
        ShellAction::Submit(line) => assert_eq!(line, b"h ".to_vec()),
        _ => panic!("enter must submit"),
    }
    assert!(matches!(e.handle_key(0x08), ShellAction::Ignore));
    match e.handle_key(b'\n') {
        ShellAction::Submit(line) => assert!(line.is_empty()),
        _ => panic!("enter must submit"),
    }
}

#[test]
fn line_editor_keeps_at_most_300() {
    let mut e = LineEditor::new();
    for _ in 0..310 {
        assert!(matches!(e.handle_key(b'a'), ShellAction::Echo(b'a')));
    }
    match e.handle_key(b'\n') {
        ShellAction::Submit(line) => assert_eq!(line.len(), 300),
        _ => panic!("enter must submit"),
    }
}
