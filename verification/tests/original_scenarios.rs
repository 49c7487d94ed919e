use std::sync::mpsc;
use wincapture::capture_service::{warmup_capture_service, ServiceSlot};
use wincapture::cleanup::{build_first_frame_result, finalize_capture_result, merge_capture_result};
use wincapture::error::AppError;
use wincapture::frame::FirstFrameSender;
use wincapture::frame_signal::FirstFrameSignal;
use wincapture::hwnd::{format_hwnd, parse_hwnd};
use wincapture::process::ProcessNameMatcher;
use wincapture::window;

const POINTER_ERROR: &str = "无效指针 (0x80004003)";

#[test]
fn cleanup_errors_are_not_lost_after_capture_failure() {
    let result = merge_capture_result(
        Err(AppError::msg("编码失败")),
        &[String::from("关闭会话失败"), String::from("关闭帧池失败")],
    );
    let Err(error) = result else {
        panic!("清理失败时应返回错误");
    };
    let message = error.to_string();
    assert!(message.contains("编码失败"));
    assert!(message.contains("关闭会话失败"));
    assert!(message.contains("关闭帧池失败"));
}

#[test]
fn warmup_capture_service_is_idempotent() {
    let mut slot: ServiceSlot<u32> = ServiceSlot::new();
    let mut starts = 0;
    let first = warmup_capture_service(&mut slot, || {
        starts += 1;
        Ok(7)
    });
    assert!(first.is_ok());
    let second = warmup_capture_service(&mut slot, || Err(AppError::msg("不应再次启动")));
    assert!(second.is_ok());
    assert_eq!(starts, 1);
    assert_eq!(slot.service().ok().copied(), Some(7));
}

#[test]
fn cleanup_build_first_frame_result_preserves_encode_errors_and_close_errors() {
    let result = build_first_frame_result(
        Err(AppError::msg("编码失败")),
        Err(String::from(POINTER_ERROR)),
    );
    let error = result.unwrap_err();
    assert!(error.contains("编码失败"));
    assert!(error.contains("关闭捕获帧失败"));
}

#[test]
fn finalize_capture_result_merges_cleanup_errors() {
    let result = finalize_capture_result(
        Err(AppError::msg("编码失败")),
        Err(String::from(POINTER_ERROR)),
        Ok(()),
        Err(String::from(POINTER_ERROR)),
    );
    let error = result.expect_err("应返回合并后的错误");
    let error_text = error.to_string();
    assert!(error_text.contains("编码失败"));
    assert!(error_text.contains("关闭捕获会话失败"));
    assert!(error_text.contains("关闭捕获帧池失败"));
}

#[test]
fn first_frame_sender_only_delivers_the_first_payload() {
    let (sender, receiver) = mpsc::channel();
    let mut first_frame_sender = FirstFrameSender::new(sender);
    first_frame_sender.try_send(Ok::<Vec<u8>, String>(vec![1, 2, 3]));
    first_frame_sender.try_send(Ok::<Vec<u8>, String>(vec![4, 5, 6]));
    assert_eq!(receiver.recv().unwrap().unwrap(), vec![1, 2, 3]);
    assert!(receiver.try_recv().is_err());
    assert!(first_frame_sender.has_sent());
}

#[test]
fn first_frame_sender_tolerates_a_dropped_receiver() {
    let (sender, receiver) = mpsc::channel::<Result<Vec<u8>, String>>();
    drop(receiver);
    let mut first_frame_sender = FirstFrameSender::new(sender);
    first_frame_sender.try_send(Err("receiver dropped".to_string()));
    first_frame_sender.try_send(Ok(vec![7, 8, 9]));
    assert!(first_frame_sender.has_sent());
}

#[test]
fn frame_build_first_frame_result_preserves_encode_errors_and_close_errors() {
    let result = build_first_frame_result(
        Err(AppError::msg("编码失败")),
        Err(String::from(POINTER_ERROR)),
    );
    let error = result.unwrap_err();
    assert!(error.contains("编码失败"));
    assert!(error.contains("关闭捕获帧失败"));
}

#[test]
fn first_frame_signal_only_delivers_the_first_payload() {
    let mut first_frame_signal = FirstFrameSignal::new();
    assert!(first_frame_signal.try_signal(Ok(())), "首次通知应成功");
    assert!(
        !first_frame_signal.try_signal(Err(String::from("ignored"))),
        "重复通知应被忽略"
    );
    let wait_result = first_frame_signal.take_result().expect("等待首帧不应超时");
    assert!(wait_result.is_ok(), "首次通知应返回成功");
    assert!(first_frame_signal.has_sent());
}

#[test]
fn first_frame_signal_preserves_the_first_error() {
    let mut first_frame_signal = FirstFrameSignal::new();
    assert!(
        first_frame_signal.try_signal(Err(String::from("receiver dropped"))),
        "首次通知应成功"
    );
    assert!(!first_frame_signal.try_signal(Ok(())), "重复通知应被忽略");
    let Some(Err(error)) = first_frame_signal.take_result() else {
        panic!("首个错误应被保留");
    };
    assert!(error.contains("receiver dropped"));
    assert!(first_frame_signal.has_sent());
}

#[test]
fn parses_hex_hwnd() {
    let hwnd = parse_hwnd("0x2A").expect("hex should parse");
    assert_eq!(format_hwnd(hwnd), "0x000000000000002A");
}

#[test]
fn parses_decimal_hwnd() {
    let hwnd = parse_hwnd("42").expect("decimal should parse");
    assert_eq!(format_hwnd(hwnd), "0x000000000000002A");
}

#[test]
fn accepts_exact_name() {
    assert!(ProcessNameMatcher::new("notepad.exe").matches("notepad.exe"));
}

#[test]
fn accepts_name_without_extension() {
    assert!(ProcessNameMatcher::new("notepad").matches("notepad.exe"));
}

#[test]
fn process_name_matching_is_case_insensitive_and_extension_optional() {
    let Ok(matcher) = window::ProcessNameMatcher::new(" Explorer ") else {
        panic!("有效进程名应能创建匹配器");
    };
    assert!(matcher.matches("EXPLORER.EXE"));
    assert!(!matcher.matches("explorer-helper.exe"));
}

#[test]
fn hwnd_accepts_hex_and_decimal_but_rejects_zero() {
    let Ok(hex_hwnd) = window::parse_hwnd("0x2A") else {
        panic!("十六进制 HWND 应能解析");
    };
    let Ok(decimal_hwnd) = window::parse_hwnd("42") else {
        panic!("十进制 HWND 应能解析");
    };
    assert_eq!(window::format_hwnd(hex_hwnd), "0x000000000000002A");
    assert_eq!(window::format_hwnd(decimal_hwnd), "0x000000000000002A");
    let Err(_) = window::parse_hwnd("0") else {
        panic!("零 HWND 必须被拒绝");
    };
}
