use wincapture::capture::{frame_arrival_report, frame_handler_result, CaptureResources, OfferOutcome};
use wincapture::cleanup::{
    cleanup_failure_message, combine_encode_and_close, merge_capture_result, CleanupStep,
};
use wincapture::error::AppError;
use wincapture::server::{report_tool_error, screenshot_base64};
use wincapture::texture_map::{
    convert_bgra_frame, encode_bgra_frame, encode_png, frame_dimensions, mapped_frame_len,
};
use wincapture::tool_types::{WindowEntry, WindowRect};
use std::collections::HashSet;
use wincapture::window::{class_name_from_buffer, matching_process_ids, ProcessNameMatcher, ProcessRecord};
use wincapture::window_details::{self, title_buffer_len, window_title_from_buffer};
use wincapture::window_query::{sort_by_hwnd, WindowSearch, WindowSelection};

fn entry(hwnd: &str, pid: u32, title: &str) -> WindowEntry {
    WindowEntry {
        hwnd: hwnd.to_string(),
        pid,
        title: title.to_string(),
        class_name: String::from("C"),
        visible: true,
        minimized: false,
        rect: WindowRect { left: 1, top: 2, right: 3, bottom: 4 },
    }
}

#[test]
fn windows_are_sorted_by_handle_text_stably() {
    let sorted = sort_by_hwnd(vec![
        entry("0x0000000000000030", 1, "c"),
        entry("0x0000000000000010", 1, "a1"),
        entry("0x0000000000000020", 2, "b"),
        entry("0x0000000000000010", 3, "a2"),
    ]);
    let titles: Vec<&str> = sorted.iter().map(|e| e.title.as_str()).collect();
    assert_eq!(titles, vec!["a1", "a2", "b", "c"]);
}

#[test]
fn window_search_keeps_windows_of_target_processes() {
    let mut search = WindowSearch::new(&[5, 0, 5]);
    assert!(search.has_targets());
    assert!(search.wants(5));
    assert!(!search.wants(0));
    assert!(!search.wants(6));
    search.record(entry("0x0000000000000002", 5, "late"));
    search.record(entry("0x0000000000000001", 5, "early"));
    let found = search.into_sorted_windows();
    assert_eq!(found[0].title, "early");
    assert!(!WindowSearch::new(&[]).has_targets());
}

#[test]
fn process_list_is_filtered_by_name() {
    let matcher = ProcessNameMatcher::new("Explorer.exe").unwrap();
    let processes = vec![
        ProcessRecord { pid: 4, name: String::from("explorer.exe") },
        ProcessRecord { pid: 8, name: String::from("svchost.exe") },
        ProcessRecord { pid: 9, name: String::from("EXPLORER") },
    ];
    assert_eq!(matching_process_ids(&matcher, &processes), HashSet::from([4, 9]));
}

#[test]
fn class_names_and_titles_are_read_from_buffers() {
    let buffer: Vec<u16> = "CabinetWClass\0\0".encode_utf16().collect();
    assert_eq!(class_name_from_buffer(&buffer, 13).unwrap(), "CabinetWClass");
    assert_eq!(class_name_from_buffer(&buffer, 0).unwrap_err().to_string(), "窗口类名为空");
    assert_eq!(class_name_from_buffer(&buffer, 99).unwrap_err().to_string(), "窗口类名长度超出缓冲区");
    let e = class_name_from_buffer(&buffer, -1).unwrap_err();
    assert_eq!(e.detail_text(), "读取窗口类名失败: out of range integral type conversion attempted");
    let e = class_name_from_buffer(&[0xD800], 1).unwrap_err();
    assert_eq!(e.to_string(), "窗口类名不是有效 UTF-16");

    assert_eq!(window_details::class_name_from_buffer(&buffer, 0).unwrap(), "");
    assert_eq!(window_details::class_name_from_buffer(&[0x61, 0xD800], 2).unwrap(), "a\u{FFFD}");
    assert_eq!(title_buffer_len(5).unwrap(), 6);
    assert_eq!(title_buffer_len(-1).unwrap_err().to_string(), "读取窗口标题长度失败");
    assert_eq!(window_title_from_buffer(&buffer, 7).unwrap(), "Cabinet");
    assert_eq!(window_title_from_buffer(&buffer, 20).unwrap_err().to_string(), "窗口标题长度超出缓冲区");
    assert_eq!(window_title_from_buffer(&buffer, -3).unwrap_err().to_string(), "读取窗口标题失败");
}

#[test]
fn merging_keeps_results_and_errors() {
    let unchanged = merge_capture_result(Ok(vec![1, 2]), &[]);
    assert_eq!(unchanged.unwrap(), vec![1, 2]);
    let e = merge_capture_result(Ok(vec![1, 2]), &[String::from("x"), String::from("y")]).unwrap_err();
    assert_eq!(e.to_string(), "x; y");
    let capture_error = AppError::msg("root").context("编码失败");
    let e = merge_capture_result(Err(capture_error), &[String::from("x")]).unwrap_err();
    assert_eq!(e.to_string(), "编码失败: root; x");
    assert_eq!(
        cleanup_failure_message(CleanupStep::RemoveFrameArrived(3), "e"),
        "移除帧到达回调失败: e"
    );
}

#[test]
fn encoding_and_closing_a_frame_combine() {
    assert_eq!(combine_encode_and_close(Ok(vec![9]), Ok(())).unwrap(), vec![9]);
    let e = combine_encode_and_close(Err(AppError::msg("enc")), Ok(())).unwrap_err();
    assert_eq!(e.detail_text(), "enc");
    let e = combine_encode_and_close(Ok(vec![9]), Err(String::from("c"))).unwrap_err();
    assert_eq!(e.to_string(), "关闭捕获帧失败");
    assert_eq!(e.detail_text(), "关闭捕获帧失败: c");
    let e = combine_encode_and_close(Err(AppError::msg("enc")), Err(String::from("c"))).unwrap_err();
    assert_eq!(e.to_string(), "enc; 关闭捕获帧失败: c");
}

#[test]
fn resources_are_released_once() {
    let mut resources = CaptureResources::new();
    assert_eq!(resources.session().unwrap_err().to_string(), "捕获会话尚未初始化");
    resources.set_handler_token(17);
    resources.set_session();
    assert!(resources.session().is_ok());
    let steps = resources.close();
    assert_eq!(
        steps,
        vec![CleanupStep::CloseSession, CleanupStep::RemoveFrameArrived(17), CleanupStep::CloseFramePool]
    );
    assert!(resources.close().is_empty());
    let mut bare = CaptureResources::new();
    assert_eq!(bare.close(), vec![CleanupStep::CloseFramePool]);
}

#[test]
fn frame_handler_answers() {
    assert!(frame_arrival_report(true, String::from("p")).is_ok());
    assert_eq!(frame_arrival_report(false, String::from("p")), Err(String::from("p")));
    assert!(frame_handler_result(OfferOutcome::Sent).is_ok());
    assert!(frame_handler_result(OfferOutcome::Full).is_ok());
    assert_eq!(
        frame_handler_result(OfferOutcome::Disconnected),
        Err(String::from("首帧通知接收端已关闭"))
    );
}

#[test]
fn bgra_frames_become_rgba_rows() {
    // two rows of two pixels, rows 12 bytes apart (4 bytes of padding)
    let source: Vec<u8> = vec![
        1, 2, 3, 4, 5, 6, 7, 8, 0xEE, 0xEE, 0xEE, 0xEE,
        9, 10, 11, 12, 13, 14, 15, 16,
    ];
    let rgba = convert_bgra_frame(&source, 12, 2, 2).unwrap();
    assert_eq!(rgba, vec![3, 2, 1, 4, 7, 6, 5, 8, 11, 10, 9, 12, 15, 14, 13, 16]);
    let e = convert_bgra_frame(&source, 12, 3, 2).unwrap_err();
    assert_eq!(e.to_string(), "BGRA 转 RGBA 失败");
    assert_eq!(
        e.detail_text(),
        "BGRA 转 RGBA 失败: stride, dimensions, or buffer size are inconsistent"
    );
    assert!(convert_bgra_frame(&source, 12, 0, 2).is_err());
    assert_eq!(
        convert_bgra_frame(&source, 12, u32::MAX, u32::MAX).unwrap_err().to_string(),
        "RGBA 缓冲区长度溢出"
    );
}

#[test]
fn png_encoding_writes_a_png_file() {
    let rgba = vec![255u8, 0, 0, 255, 0, 255, 0, 255];
    let png = encode_png(&rgba, 2, 1).unwrap();
    assert_eq!(&png[..8], &[137, 80, 78, 71, 13, 10, 26, 10]);
    assert_ne!(png, rgba);
    assert_eq!(encode_png(&rgba, 0, 1).unwrap_err().to_string(), "Zero width not allowed");
    assert_eq!(encode_png(&rgba, 2, 0).unwrap_err().to_string(), "Zero height not allowed");
    assert_eq!(
        encode_png(&rgba, 1, 1).unwrap_err().to_string(),
        "wrong data size, expected 4 got 8"
    );
    let bgra = vec![0u8, 0, 255, 255, 0, 255, 0, 255];
    assert_eq!(encode_bgra_frame(&bgra, 8, 2, 1).unwrap(), png);
}

#[test]
fn frame_sizes_are_checked() {
    assert_eq!(frame_dimensions(3, 4).unwrap(), (3, 4));
    assert_eq!(frame_dimensions(-1, 4).unwrap_err().to_string(), "窗口宽度无效");
    assert_eq!(frame_dimensions(1, -4).unwrap_err().to_string(), "窗口高度无效");
    assert_eq!(mapped_frame_len(64, 3).unwrap(), 192);
}

#[test]
fn screenshots_travel_as_standard_base64() {
    assert_eq!(screenshot_base64(b"hello"), "aGVsbG8=");
    assert_eq!(screenshot_base64(b"Hello world"), "SGVsbG8gd29ybGQ=");
    assert_eq!(screenshot_base64(b""), "");
    assert_eq!(screenshot_base64(&[0xFB, 0xFF]), "+/8=");
}

#[test]
fn tool_errors_report_their_summary() {
    let e = AppError::msg("inner").context("outer");
    assert_eq!(report_tool_error(&e), "outer");
    assert_eq!(e.detail_text(), "outer: inner");
}

#[test]
fn base64_text_has_four_characters_per_three_bytes() {
    for n in 0..12usize {
        let data: Vec<u8> = (0..n).map(|i| (i * 37) as u8).collect();
        assert_eq!(screenshot_base64(&data).len(), 4 * ((n + 2) / 3));
    }
}

#[test]
fn readme_matching_law_on_concrete_names() {
    for target in ["notepad", "NotePad.EXE", "  notepad "] {
        let window_matcher = ProcessNameMatcher::new(target).unwrap();
        let process_matcher = wincapture::process::ProcessNameMatcher::new(target);
        for written in ["notepad", "NOTEPAD", "notepad.exe", "  notepad.EXE ", "\tNotePad.Exe\n"] {
            assert!(window_matcher.matches(written));
            assert!(process_matcher.matches(written));
        }
        assert!(!window_matcher.matches("notepad2"));
        assert!(!process_matcher.matches("notepad2"));
    }
    let processes = vec![
        ProcessRecord { pid: 1, name: String::from("Notepad.exe") },
        ProcessRecord { pid: 2, name: String::from("calc.exe") },
    ];
    let first = matching_process_ids(&ProcessNameMatcher::new("notepad").unwrap(), &processes);
    let second = matching_process_ids(&ProcessNameMatcher::new(" NOTEPAD.exe ").unwrap(), &processes);
    assert_eq!(first, second);
    assert_eq!(first, HashSet::from([1]));
}

#[test]
fn normalizing_twice_is_normalizing_once() {
    for name in ["  Explorer.EXE ", "abc", "", " \u{3000}X "] {
        let once = wincapture::window::normalize_process_name(name);
        assert_eq!(wincapture::window::normalize_process_name(&once), once);
        let once = wincapture::process::normalize_process_name(name);
        assert_eq!(wincapture::process::normalize_process_name(&once), once);
    }
}

#[test]
fn name_variants_find_the_same_windows() {
    let processes = vec![
        ProcessRecord { pid: 1, name: String::from("Notepad.exe") },
        ProcessRecord { pid: 2, name: String::from("calc.exe") },
        ProcessRecord { pid: 3, name: String::from("notepad") },
    ];
    let walk = [(3u32, "0x0000000000000030"), (2, "0x0000000000000020"), (1, "0x0000000000000010")];
    let search = |name: &str| -> Vec<String> {
        let ids = matching_process_ids(&ProcessNameMatcher::new(name).unwrap(), &processes);
        let mut selection = WindowSelection::new(ids);
        assert!(selection.has_targets());
        for (pid, hwnd) in walk {
            if selection.wants(pid) {
                selection.record(entry(hwnd, pid, "w"));
            }
        }
        selection.into_sorted_windows().into_iter().map(|e| e.hwnd).collect()
    };
    let plain = search("notepad");
    assert_eq!(plain, vec!["0x0000000000000010", "0x0000000000000030"]);
    for written in ["NOTEPAD", " notepad.EXE ", "NotePad.exe"] {
        assert_eq!(search(written), plain);
    }
    assert!(!WindowSelection::new(HashSet::new()).has_targets());
}
