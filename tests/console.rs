use rustos_core::console::{color_code, Color, Writer, NON_PRINTABLE};
use rustos_core::keyboard::{getch, new_key_queue, ConvertScanCodeAndPutQueue, KeyboardManager};
use rustos_core::shell::{execute_command, Command, LineEditor, ShellAction};

fn text_of_row(w: &Writer, row: usize) -> String {
    (0..80).map(|c| w.cell(row * 80 + c).ascii_character as char).collect::<String>().trim_end().to_string()
}

#[test]
fn colors_pack_into_attribute() {
    assert_eq!(color_code(Color::White, Color::Black), 0x0F);
    assert_eq!(color_code(Color::Yellow, Color::Blue), 0x1E);
}

#[test]
fn writes_and_wraps_lines() {
    let mut w = Writer::new(0x0F);
    w.write_string(b"ab\ncd");
    assert_eq!(w.get_curser(), (2, 1));
    assert_eq!(text_of_row(&w, 0), "ab");
    assert_eq!(text_of_row(&w, 1), "cd");
    w.write_string(&[0x01]);
    assert_eq!(w.cell(82).ascii_character, NON_PRINTABLE);
}

#[test]
fn scrolls_at_bottom() {
    let mut w = Writer::new(0x07);
    for i in 0..30u8 {
        w.write_string(&[b'a' + (i % 26), b'\n']);
    }
    assert_eq!(w.get_curser(), (0, 24));
    assert_eq!(text_of_row(&w, 23), "d");
    assert_eq!(text_of_row(&w, 24), "");
    assert_eq!(text_of_row(&w, 0), "g");
}

#[test]
fn full_screen_scrolls_before_writing() {
    let mut w = Writer::new(0x07);
    w.set_curser(79, 24);
    w.write_byte(b'x');
    assert_eq!(w.get_curser(), (0, 25));
    w.write_byte(b'y');
    assert_eq!(w.get_curser(), (1, 24));
    assert_eq!(text_of_row(&w, 23), format!("{}x", " ".repeat(79)));
    assert_eq!(text_of_row(&w, 24), "y");
}

#[test]
fn cursor_port_writes() {
    let mut w = Writer::new(0x07);
    let writes = w.set_curser(5, 3);
    let linear = 3 * 80 + 5;
    assert_eq!(writes[0].port, 0x3D4);
    assert_eq!(writes[0].value, 0x0E);
    assert_eq!(writes[1].value, (linear >> 8) as u8);
    assert_eq!(writes[3].value, (linear & 0xFF) as u8);
    let cleared = w.clear_screen();
    assert_eq!(cleared[3].value, 0);
    assert_eq!(w.get_curser(), (0, 0));
}

#[test]
fn help_listing_leaves_cursor_below_last_line() {
    let mut w = Writer::new(0x0F);
    w.write_string(b">");
    let mut manager = KeyboardManager::new();
    let mut queue = new_key_queue();
    for sc in [35u8, 35 | 0x80, 18, 18 | 0x80, 38, 38 | 0x80, 25, 25 | 0x80, 28, 28 | 0x80] {
        ConvertScanCodeAndPutQueue(&mut manager, &mut queue, sc);
    }
    let mut editor = LineEditor::new();
    let mut line = None;
    while let Some(key) = getch(&mut queue) {
        match editor.handle_key(key) {
            ShellAction::Echo(c) => {
                w.write_string(&[c]);
            }
            ShellAction::Submit(l) => {
                w.write_string(b"\n");
                line = Some(l);
            }
            _ => {}
        }
    }
    let line = line.unwrap();
    assert_eq!(line, b"help".to_vec());
    assert_eq!(text_of_row(&w, 0), ">help");
    assert!(execute_command(&line) == Command::Help);
    let lines = [
        "help", "cls", "totalram", "shutdown", "settimer", "wait", "cpuspeed", "date",
        "createtask", "listtask", "killtask", "changepriority", "cpuload",
    ];
    w.write_string(b"\n      ---   Shell Command List   ---\n\n");
    for l in lines.iter() {
        w.write_string(format!("{:14} x\n", l).as_bytes());
    }
    let (_, row) = w.get_curser();
    assert_eq!(text_of_row(&w, row - 1), format!("{:14} x", "cpuload"));
    assert_eq!(w.get_curser().0, 0);
}

#[test]
fn print_string_keeps_cursor_and_colors() {
    let mut w = Writer::new(0x1F);
    w.set_curser(3, 3);
    w.print_string(10, 2, b"abc");
    assert_eq!(w.get_curser(), (3, 3));
    assert_eq!(w.cell(170).ascii_character, b'a');
    assert_eq!(w.cell(172).ascii_character, b'c');
    assert_eq!(w.cell(172).color_code, 0x1F);
}
