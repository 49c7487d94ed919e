use wincapture::error::AppError;
use wincapture::hwnd::{format_hwnd, parse_hwnd, parse_usize, IntErrorKind};
use wincapture::process::{
    after_first_entry, after_next_entry, normalize_process_name, process_entry_name,
    process_name_without_exe, ProcessIdCollector, ProcessNameMatcher, ScanControl, SnapshotStep,
};
use wincapture::text::{decode_utf16, decode_utf16_lossy, format_decimal, join, lex_less, to_ascii_lowercase, trim};
use wincapture::window;

fn utf16(s: &str) -> Vec<u16> {
    s.encode_utf16().collect()
}

#[test]
fn hwnd_text_round_trips_through_formatting() {
    for value in [1usize, 0x2A, 0xDEAD_BEEF, usize::MAX] {
        let text = format_hwnd(value);
        assert_eq!(text.len(), 18);
        assert_eq!(parse_hwnd(&text).unwrap(), value);
        assert_eq!(window::parse_hwnd(&text).unwrap(), value);
    }
    assert_eq!(format_hwnd(usize::MAX), "0xFFFFFFFFFFFFFFFF");
    assert_eq!(format_hwnd(0x1234), "0x0000000000001234");
}

#[test]
fn hwnd_parsing_follows_from_str_radix() {
    assert_eq!(parse_hwnd("0X2a").unwrap(), 42);
    assert_eq!(parse_hwnd("+42").unwrap(), 42);
    assert_eq!(parse_hwnd("0x+2A").unwrap(), 42);
    assert_eq!(parse_hwnd("0x2A").unwrap(), parse_hwnd("42").unwrap());
    assert!(parse_hwnd(" 42").is_err());
    assert_eq!(window::parse_hwnd(" \t42\u{3000}").unwrap(), 42);
}

#[test]
fn hwnd_errors_name_the_text_and_the_cause() {
    let e = parse_hwnd("abc").unwrap_err();
    assert_eq!(e.to_string(), "无效的 HWND: abc");
    assert_eq!(e.detail_text(), "无效的 HWND: abc: invalid digit found in string");
    let e = parse_hwnd("0x").unwrap_err();
    assert_eq!(e.detail_text(), "无效的 HWND: 0x: cannot parse integer from empty string");
    let e = parse_hwnd("18446744073709551616").unwrap_err();
    assert_eq!(e.detail_text(), "无效的 HWND: 18446744073709551616: number too large to fit in target type");
    let e = parse_hwnd("0x0").unwrap_err();
    assert_eq!(e.to_string(), "HWND 不能为 0");
    let e = window::parse_hwnd(" x ").unwrap_err();
    assert_eq!(e.to_string(), "无效的 HWND:  x ");
    let e = parse_hwnd("-1").unwrap_err();
    assert_eq!(e.detail_text(), "无效的 HWND: -1: invalid digit found in string");
    let e = parse_hwnd("+").unwrap_err();
    assert_eq!(e.detail_text(), "无效的 HWND: +: invalid digit found in string");
}

#[test]
fn first_failure_decides_the_parse_error() {
    assert_eq!(parse_usize("99999999999999999999x", false), Err(IntErrorKind::PosOverflow));
    assert_eq!(parse_usize("9x9999999999999999999", false), Err(IntErrorKind::InvalidDigit));
    assert_eq!(parse_usize("ff", true), Ok(255));
    assert_eq!(parse_usize("ff", false), Err(IntErrorKind::InvalidDigit));
    assert_eq!(parse_usize("", true), Err(IntErrorKind::Empty));
    assert_eq!(IntErrorKind::PosOverflow.message(), "number too large to fit in target type");
}

#[test]
fn trimming_uses_unicode_white_space() {
    assert_eq!(trim("\u{3000}\u{A0} a b \n\u{2029}"), "a b");
    assert_eq!(trim("   "), "");
    assert_eq!(trim("x"), "x");
    assert_eq!(to_ascii_lowercase("ÄBC-Ü"), "Äbc-Ü");
}

#[test]
fn ascii_matcher_ignores_case_space_and_any_exe_suffix() {
    let m = ProcessNameMatcher::new("  NotePad ");
    assert!(m.matches("notepad.exe"));
    assert!(m.matches("NOTEPAD.EXE.EXE"));
    assert!(m.matches(" notepad"));
    assert!(!m.matches("notepad2.exe"));
    assert!(!m.matches("note pad"));
    assert_eq!(normalize_process_name("  NotePad.EXE "), "notepad.exe");
    assert_eq!(process_name_without_exe("a.exe.exe"), "a");
    assert_eq!(process_name_without_exe("a.ex"), "a.ex");
}

#[test]
fn unicode_matcher_strips_one_exe_suffix_and_refuses_empty_names() {
    let m = window::ProcessNameMatcher::new("explorer").unwrap();
    assert!(m.matches("Explorer.exe"));
    assert!(!m.matches("explorer.exe.exe"));
    assert_eq!(window::remove_exe_suffix("a.exe.exe"), "a.exe");
    assert_eq!(window::normalize_process_name(" ÄBC "), "äbc");
    let e = window::ProcessNameMatcher::new("  .EXE ").err().unwrap();
    assert_eq!(e.to_string(), "进程名不能为空");
    assert!(window::ProcessNameMatcher::new("").is_err());
}

#[test]
fn snapshot_entry_names_are_read_up_to_the_terminator() {
    let mut buffer = utf16("notepad.exe");
    buffer.push(0);
    buffer.extend([0x41, 0x42]);
    assert_eq!(process_entry_name(&buffer, 7).unwrap(), "notepad.exe");

    let e = process_entry_name(&utf16("abc"), 12).unwrap_err();
    assert_eq!(e.to_string(), "进程名缺少字符串终止符: 12");
    let e = process_entry_name(&[0, 65], 0).unwrap_err();
    assert_eq!(e.to_string(), "进程名为空: 0");
    let e = process_entry_name(&[0xD800, 65, 0], 4294967295).unwrap_err();
    assert_eq!(e.to_string(), "进程名不是有效 UTF-16: 4294967295");
    assert_eq!(
        e.detail_text(),
        "进程名不是有效 UTF-16: 4294967295: invalid utf-16: lone surrogate found"
    );
}

#[test]
fn snapshot_walk_collects_matching_ids_in_order() {
    let mut collector = ProcessIdCollector::new("svc");
    assert!(matches!(after_first_entry(SnapshotStep::Entry), ScanControl::ReadEntry));
    let mut name = utf16("SVC.exe");
    name.push(0);
    assert!(collector.observe(&name, 10).is_none());
    let mut other = utf16("other.exe");
    other.push(0);
    assert!(collector.observe(&other, 11).is_none());
    let error = collector.observe(&[0x61], 12).unwrap();
    assert_eq!(error.to_string(), "进程名缺少字符串终止符: 12");
    assert!(collector.observe(&name, 13).is_none());
    assert!(matches!(after_next_entry(SnapshotStep::NoMoreEntries), ScanControl::Finished));
    assert_eq!(collector.into_process_ids(), vec![10, 13]);

    let ScanControl::Failed(e) = after_next_entry(SnapshotStep::Failed(AppError::msg("boom"))) else {
        panic!("a failed move stops the walk");
    };
    assert_eq!(e.to_string(), "读取下一个进程快照项失败");
    assert_eq!(e.detail_text(), "读取下一个进程快照项失败: boom");
    let ScanControl::Failed(e) = after_first_entry(SnapshotStep::Failed(AppError::msg("boom"))) else {
        panic!("a failed first move stops the walk");
    };
    assert_eq!(e.to_string(), "读取首个进程快照项失败");
}

#[test]
fn utf16_decoding_strict_and_lossy() {
    let pair = utf16("a😀b");
    assert_eq!(decode_utf16(&pair).unwrap(), "a😀b");
    assert_eq!(decode_utf16(&[0xDC00, 0x61]), None);
    assert_eq!(decode_utf16_lossy(&[0x61, 0xD800, 0x62, 0xDC00]), "a\u{FFFD}b\u{FFFD}");
    assert_eq!(decode_utf16_lossy(&pair), "a😀b");
}

#[test]
fn decimal_join_and_order() {
    assert_eq!(format_decimal(0), "0");
    assert_eq!(format_decimal(4294967295), "4294967295");
    let parts = vec![String::from("a"), String::from("bc"), String::from("")];
    assert_eq!(join(&parts, "; "), "a; bc; ");
    assert_eq!(join(&[], "; "), "");
    assert!(lex_less("0x0A", "0x0B"));
    assert!(lex_less("ab", "abc"));
    assert!(!lex_less("abc", "abc"));
    assert!(!lex_less("b", "abc"));
}
