use prospi::bytes::{get16, get32, get64, put16, put32, to_pattern, to_pattern16, to_signed};
use prospi::digits::{
    push_decimal, push_hex, push_hex_low, push_hex_up, push_hex_up_min, read_digit, read_numeral,
};
use prospi::process::{
    executable, find_pid, module_base, writable, Proc, LAST_ADDR, MEM_COMMIT, PROC_NAME,
};

fn wide(s: &str) -> Vec<u16> {
    let mut w: Vec<u16> = s.encode_utf16().collect();
    w.push(0);
    w.push(0x41);
    w
}

#[test]
fn reads_all_or_nothing() {
    let mut p = Proc::empty(7, 0x1000);
    p.hold(0x2000, &[1, 2, 3, 4, 5, 6, 7, 8], false);
    assert_eq!(p.read(0x2000, 8), Some(vec![1, 2, 3, 4, 5, 6, 7, 8]));
    assert_eq!(p.read(0x2003, 2), Some(vec![4, 5]));
    assert_eq!(p.read(0x2003, 6), None);
    assert_eq!(p.read(0x1FFF, 2), None);
    assert_eq!(p.read(0x2000, 0), None);
    assert_eq!(p.read_range(0x2001, 3), Some(vec![2, 3, 4]));
}

#[test]
fn numbers_are_little_endian_and_zero_where_unknown() {
    let mut p = Proc::empty(1, 0);
    p.hold(0x10, &[0x11, 0x22, 0x33, 0x44, 0x55, 0x66, 0x77, 0x88], false);
    assert_eq!(p.u8_at(0x11), 0x22);
    assert_eq!(p.u16_at(0x10), 0x2211);
    assert_eq!(p.u32_at(0x10), 0x4433_2211);
    assert_eq!(p.u64_at(0x10), 0x8877_6655_4433_2211);
    assert_eq!(p.u64_at(0x11), 0);
    assert_eq!(p.u8_at(0x9), 0);
}

#[test]
fn writes_are_read_back_and_queued() {
    let mut p = Proc::empty(1, 0);
    p.hold(0x10, &[0; 8], false);
    assert!(p.write(0x12, &[9, 8]));
    assert!(p.put_u16(0x14, 0x1234));
    assert!(p.put_u32(0x10, 0xAABBCCDD));
    assert!(p.put_byte(0x17, 5));
    assert_eq!(p.read(0x10, 8), Some(vec![0xDD, 0xCC, 0xBB, 0xAA, 0x34, 0x12, 0, 5]));
    let w = p.take_writes();
    let sent: Vec<(u64, Vec<u8>, bool)> =
        w.into_iter().map(|x| (x.addr, x.data, x.code)).collect();
    assert_eq!(
        sent,
        vec![
            (0x12, vec![9, 8], false),
            (0x14, vec![0x34, 0x12], false),
            (0x10, vec![0xDD, 0xCC, 0xBB, 0xAA], false),
            (0x17, vec![5], false),
        ]
    );
    assert!(p.take_writes().is_empty());
}

#[test]
fn writes_leave_the_rest_alone() {
    let mut p = Proc::empty(1, 0);
    p.hold(0x10, &[1, 2, 3, 4], false);
    assert!(p.write(0x11, &[7]));
    assert_eq!(p.read(0x10, 4), Some(vec![1, 7, 3, 4]));
}

#[test]
fn a_write_beyond_what_is_known_changes_nothing() {
    let mut p = Proc::empty(1, 0);
    p.hold(0x10, &[1, 2], false);
    assert!(!p.write(0x11, &[7, 7]));
    assert_eq!(p.read(0x10, 2), Some(vec![1, 2]));
    assert!(p.take_writes().is_empty());
}

#[test]
fn sealed_pages_take_code_writes_only() {
    let mut p = Proc::empty(1, 0);
    p.hold(0x10, &[0xFE, 0xC0], true);
    assert!(!p.write(0x10, &[0x90, 0x90]));
    assert_eq!(p.read(0x10, 2), Some(vec![0xFE, 0xC0]));
    assert!(p.write_code(0x10, &[0x90, 0x90]));
    assert_eq!(p.read(0x10, 2), Some(vec![0x90, 0x90]));
    let w = p.take_writes();
    assert_eq!(w.len(), 1);
    assert!(w[0].code);
    assert!(!p.write_code(0x11, &[1, 1]));
}

#[test]
fn attaching_says_why_it_failed() {
    match Proc::attach(None, false, None) {
        Err(e) => assert_eq!(e, "找不到行程 prospi-Win64-Shipping.exe"),
        Ok(_) => panic!(),
    }
    match Proc::attach(Some(42), false, Some(0x1000)) {
        Err(e) => assert_eq!(e, "OpenProcess 失敗 (pid 42)"),
        Ok(_) => panic!(),
    }
    let p = match Proc::attach(Some(42), true, None) {
        Ok(p) => p,
        Err(e) => panic!("{e}"),
    };
    assert_eq!((p.pid, p.base), (42, 0));
    let q = match Proc::attach(Some(42), true, Some(0x7000)) {
        Ok(p) => p,
        Err(e) => panic!("{e}"),
    };
    assert_eq!(q.base, 0x7000);
}

#[test]
fn the_walk_over_regions_keeps_committed_ones() {
    let mut p = Proc::empty(1, 0);
    assert_eq!(p.note_region(0, 0, 0x1000, MEM_COMMIT, 0x04, 0x20000), Some(0x1000));
    assert_eq!(p.note_region(0x1000, 0x1000, 0x2000, 0x2000, 0x04, 0x20000), Some(0x3000));
    assert_eq!(p.note_region(0x3000, 0x3000, 0x1000, MEM_COMMIT, 0x20, 0x1000000), Some(0x4000));
    assert_eq!(p.note_region(0x4000, 0x4000, 0x1000, MEM_COMMIT, 0x104, 0x20000), Some(0x5000));
    assert_eq!(p.note_region(0x5000, 0x5000, 0, MEM_COMMIT, 0x04, 0x20000), None);
    assert_eq!(p.note_region(0x5000, 0x5000, LAST_ADDR, MEM_COMMIT, 0x40, 0), None);
    assert_eq!(
        p.regions(),
        vec![
            (0, 0x1000, 0x04, 0x20000),
            (0x3000, 0x1000, 0x20, 0x1000000),
            (0x4000, 0x1000, 0x104, 0x20000),
            (0x5000, LAST_ADDR, 0x40, 0),
        ]
    );
    assert_eq!(p.writable_ranges(), vec![(0, 0x1000), (0x5000, LAST_ADDR)]);
    assert_eq!(p.exec_ranges(), vec![(0x3000, 0x1000), (0x5000, LAST_ADDR)]);
}

#[test]
fn protections_are_told_apart() {
    for v in [0x04, 0x08, 0x40, 0x80, 0x204] {
        assert!(writable(v), "{v:#x}");
    }
    for v in [0x01, 0x02, 0x10, 0x20, 0x104, 0x140] {
        assert!(!writable(v), "{v:#x}");
    }
    for v in [0x10, 0x20, 0x40, 0x80] {
        assert!(executable(v), "{v:#x}");
    }
    for v in [0x01, 0x02, 0x04, 0x08, 0x120] {
        assert!(!executable(v), "{v:#x}");
    }
}

#[test]
fn processes_and_modules_are_found_whatever_their_case() {
    let procs = vec![
        (wide("explorer.exe"), 4),
        (wide("PROSPI-win64-shipping.EXE"), 99),
        (wide("prospi-Win64-Shipping.exe"), 100),
    ];
    assert_eq!(find_pid(&procs, PROC_NAME), Some(99));
    assert_eq!(find_pid(&procs, "other.exe"), None);
    let mods = vec![(wide("ntdll.dll"), 0x10), (wide("Prospi-Win64-Shipping.exe"), 0x1_4000_0000)];
    assert_eq!(module_base(&mods, PROC_NAME), Some(0x1_4000_0000));
    assert_eq!(module_base(&mods, "kernel32.dll"), None);
}

#[test]
fn numbers_and_bytes_go_both_ways() {
    assert_eq!(put16(0xBEEF), vec![0xEF, 0xBE]);
    assert_eq!(put32(0xDEADBEEF), vec![0xEF, 0xBE, 0xAD, 0xDE]);
    let b = [0, 0xEF, 0xBE, 0xAD, 0xDE, 1, 2, 3, 4];
    assert_eq!(get16(&b, 1), 0xBEEF);
    assert_eq!(get32(&b, 1), 0xDEADBEEF);
    assert_eq!(get64(&b, 1), 0x0403_0201_DEAD_BEEF);
    assert_eq!(to_pattern(-1), 0xFFFF_FFFF);
    assert_eq!(to_pattern(i32::MIN), 0x8000_0000);
    assert_eq!(to_signed(0xFFFF_FFFE), -2);
    assert_eq!(to_signed(0x7FFF_FFFF), i32::MAX);
    assert_eq!(to_pattern16(-2), 0xFFFE);
    assert_eq!(to_pattern16(9999), 9999);
}

#[test]
fn numerals_are_written_and_read() {
    let mut s = String::new();
    push_decimal(&mut s, 0);
    push_decimal(&mut s, 18446744073709551615);
    assert_eq!(s, "018446744073709551615");
    let mut s = String::new();
    push_hex(&mut s, 0xDEAD0000);
    assert_eq!(s, "dead0000");
    let mut s = String::new();
    push_hex_low(&mut s, 0xABC, 2);
    assert_eq!(s, "bc");
    let mut s = String::new();
    push_hex_up(&mut s, 0xA, 2);
    assert_eq!(s, "0A");
    let mut s = String::new();
    push_hex_up_min(&mut s, 0x2D, 4);
    push_hex_up_min(&mut s, 0x12345, 4);
    assert_eq!(s, "002D12345");
    assert_eq!(read_digit('f'), Some(15));
    assert_eq!(read_digit('F'), Some(15));
    assert_eq!(read_digit('g'), None);
    let t: Vec<char> = "+1f".chars().collect();
    assert_eq!(read_numeral(&t, 16, 255), Some(31));
    assert_eq!(read_numeral(&t, 16, 30), None);
    assert_eq!(read_numeral(&t, 10, 255), None);
    let t: Vec<char> = "+".chars().collect();
    assert_eq!(read_numeral(&t, 16, 255), None);
}
