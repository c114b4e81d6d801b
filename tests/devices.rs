use rustos_core::boot::{identity_pd_entry, identity_pdpt_entry, identity_pml4_entry, supports_long_mode, u16_to_u8, u32_to_u8_array, PageTableEntryStruct};
use rustos_core::descriptor::{
    GDTEntry16Struct, GDTEntry8Struct, IDTEntryStruct, InitializeGDTTableAndTTS, InitializeIDTTables,
    vector_handler, VectorHandler,
};
use rustos_core::idle::{cpu_load, halting, IdleMonitor};
use rustos_core::image::{merge_kernel, sector_count_header};
use rustos_core::pic::{InitializePIC, MaskedPICInterrupt, SendEOI};
use rustos_core::timer::{
    convert_bcd_to_bin, convert_from_ms, convert_from_us, init_PIT, pit_elapsed, read_counter0, wait_plan, Date, Time,
};

#[test]
fn pit_conversions() {
    assert_eq!(convert_from_ms(1), 1193);
    assert_eq!(convert_from_ms(30), 35795);
    assert_eq!(convert_from_ms(10), 11931);
    assert_eq!(convert_from_us(1000), 1193);
    assert_eq!(wait_plan(95), (3, 35795, 5965));
}

#[test]
fn pit_programming_bytes() {
    let w = init_PIT(0x1234, true);
    let got: Vec<(u16, u8)> = w.iter().map(|p| (p.port, p.value)).collect();
    assert_eq!(got, vec![(0x43, 0x30), (0x43, 0x34), (0x40, 0x34), (0x40, 0x12)]);
    assert_eq!(init_PIT(0x00FF, false).len(), 3);
    assert_eq!(read_counter0(0x34, 0x12), 0x1234);
    assert!(pit_elapsed(100, 50, 50));
    assert!(!pit_elapsed(100, 51, 50));
    assert!(pit_elapsed(10, 65500, 40));
}

#[test]
fn rtc_bcd() {
    assert_eq!(convert_bcd_to_bin(0x59), 59);
    assert_eq!(convert_bcd_to_bin(0x00), 0);
    let d = Date::current(0x24, 0x12, 0x31, 0x03);
    assert_eq!((d.year, d.month, d.day_of_month, d.day_of_week), (24, 12, 31, 3));
    assert_eq!(d.week_string(), "Tuesday");
    assert_eq!(Date::current(0, 1, 1, 9).week_string(), "Error");
    assert_eq!(Date::current(0, 1, 1, 0).week_string(), "Error");
    let t = Time::current(0x23, 0x45, 0x07);
    assert_eq!((t.hour, t.minute, t.second), (23, 45, 7));
}

#[test]
fn pic_sequences() {
    let init: Vec<(u16, u8)> = InitializePIC().iter().map(|p| (p.port, p.value)).collect();
    assert_eq!(init, vec![(0x20, 0x11), (0x21, 0x20), (0x21, 0x04), (0x21, 0x01), (0xA0, 0x11), (0xA1, 0x28), (0xA1, 0x02), (0xA1, 0x01)]);
    let m = MaskedPICInterrupt(0xFFFC);
    assert_eq!((m[0].port, m[0].value, m[1].port, m[1].value), (0x21, 0xFC, 0xA1, 0xFF));
    assert_eq!(SendEOI(0).len(), 1);
    assert_eq!(SendEOI(12).len(), 2);
    assert_eq!(SendEOI(12)[1].port, 0xA0);
}

#[test]
fn idle_load_and_halts() {
    assert_eq!(cpu_load(0, 0), 0);
    assert_eq!(cpu_load(25, 100), 75);
    assert_eq!(cpu_load(100, 100), 0);
    assert_eq!(cpu_load(0, 10), 100);
    assert_eq!(halting(10), 3);
    assert_eq!(halting(40), 2);
    assert_eq!(halting(94), 1);
    assert_eq!(halting(95), 0);
    let mut m = IdleMonitor::new(10, 20);
    assert_eq!(m.update(15, 40), 75);
    assert_eq!(m.process_load(), 75);
    assert!(m.process_load() <= 100);
}

#[test]
fn descriptor_packing() {
    let mut e = GDTEntry8Struct::new();
    e.set(0x12345678, 0xABCDE, 0xA0, 0x9A, 0x0A);
    assert_eq!((e.lower_limit, e.lower_base_address, e.upper_base_address1, e.upper_base_address2), (0xBCDE, 0x5678, 0x34, 0x12));
    assert_eq!(e.upper_limit_and_upper_flag, 0xAA);
    let mut t = GDTEntry16Struct::new();
    t.set(0x1122_3344_5566_7788, 103, 0x80, 0x80, 0x09);
    assert_eq!(t.upper_base_address, 0x1122_3344);
    assert_eq!(t.middle_base_address2, 0x55);
    let mut g = IDTEntryStruct::new();
    g.set(0xFFFF_8000_1234_5678, 0x08, 5, 0x80, 0x0E);
    assert_eq!((g.lower_base_address, g.middle_base_address, g.upper_base_address), (0x5678, 0x1234, 0xFFFF_8000));
    assert_eq!(g.ist, 1);
    assert_eq!(g.type_and_flags, 0x8E);
}

#[test]
fn tables() {
    let handlers: Vec<u64> = (0..100u64).map(|v| 0x20_0000 + v * 0x40).collect();
    let (idtr, gates) = InitializeIDTTables(&handlers);
    assert_eq!(idtr.limit, 1599);
    assert_eq!(gates.len(), 100);
    assert_eq!(gates[32].lower_base_address, (0x20_0000u64 + 32 * 0x40) as u16);
    assert!(gates.iter().all(|g| g.segment_selector == 0x08 && g.ist == 1 && g.type_and_flags == 0x8E));
    let gdt = InitializeGDTTableAndTTS();
    assert_eq!(gdt.gdtr.limit, 39);
    assert_eq!(gdt.gdtr.base_address, 0x142010);
    assert_eq!(gdt.entries[1].type_and_lower_flag, 0x9A);
    assert_eq!(gdt.entries[1].upper_limit_and_upper_flag, 0xAF);
    assert_eq!(gdt.entries[2].type_and_lower_flag, 0x92);
    assert_eq!(gdt.tss.ist[0], 0x800000);
    assert_eq!(gdt.tss.io_map_base_address, 0xFFFF);
    assert_eq!(gdt.tss_descriptor.type_and_lower_flag, 0x89);
}

#[test]
fn boot_helpers() {
    assert_eq!(u32_to_u8_array(0x756E6547), [0x47, 0x65, 0x6E, 0x75]);
    assert_eq!(u16_to_u8(0x1234), [0x34, 0x12]);
    assert!(supports_long_mode(1 << 29));
    assert!(!supports_long_mode(!(1u32 << 29)));
    let e = identity_pd_entry(3);
    assert_eq!(e.attribute_and_lower_base_address, 0x600083);
    assert_eq!(e.upper_base_address_and_exb, 0);
    let f = identity_pd_entry(2048);
    assert_eq!((f.attribute_and_lower_base_address, f.upper_base_address_and_exb), (0x83, 1));
    let mut p = PageTableEntryStruct::new();
    p.set(0x1FF, 0x101000, 0x3, 0);
    assert_eq!((p.attribute_and_lower_base_address, p.upper_base_address_and_exb), (0x101003, 0xFF));
}

#[test]
fn image_is_padded_to_sectors() {
    let parts = vec![vec![1u8; 10], vec![2u8; 512], vec![], vec![3u8; 513]];
    let (image, counts) = merge_kernel(&parts);
    assert_eq!(counts, vec![1, 1, 0, 2]);
    assert_eq!(image.len(), 4 * 512);
    assert_eq!(image[9], 1);
    assert_eq!(image[10], 0);
    assert_eq!(image[512], 2);
    assert_eq!(image[1024], 3);
    assert_eq!(image[1025], 3);
    assert_eq!(image[1537], 0);
    let h = sector_count_header(3, 5);
    assert_eq!(h[0], (5, [8, 0]));
    assert_eq!(h[1], (7, [3, 0]));
}

#[test]
fn upper_page_tables() {
    let e = identity_pml4_entry(0);
    assert_eq!((e.attribute_and_lower_base_address, e.upper_base_address_and_exb), (0x101003, 0));
    assert_eq!(identity_pml4_entry(1).attribute_and_lower_base_address, 0);
    assert_eq!(identity_pdpt_entry(0).attribute_and_lower_base_address, 0x102003);
    assert_eq!(identity_pdpt_entry(63).attribute_and_lower_base_address, 0x102003 + 63 * 0x1000);
    assert_eq!(identity_pdpt_entry(64).attribute_and_lower_base_address, 0);
}

#[test]
fn vectors_wire_to_stubs() {
    assert_eq!(vector_handler(0), VectorHandler::Exception(0));
    assert_eq!(vector_handler(19), VectorHandler::Exception(19));
    assert_eq!(vector_handler(20), VectorHandler::CommonException);
    assert_eq!(vector_handler(31), VectorHandler::CommonException);
    assert_eq!(vector_handler(32), VectorHandler::Irq(0));
    assert_eq!(vector_handler(33), VectorHandler::Irq(1));
    assert_eq!(vector_handler(47), VectorHandler::Irq(15));
    assert_eq!(vector_handler(48), VectorHandler::CommonInterrupt);
    assert_eq!(vector_handler(99), VectorHandler::CommonInterrupt);
}
