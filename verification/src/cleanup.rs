//! Keeping capture errors and cleanup errors together: the result of a
//! capture is reported with every failure of the cleanup that followed
//! it, and a frame's encoding result with the failure to close it.
use vstd::prelude::*;
use vstd::string::*;
use crate::error::AppError;
use crate::text::{join, join_spec, lemma_join_contains_part, string_views};

verus! {

/// A step of releasing a capture: close the session, remove the
/// frame-arrived handler registered under a token, close the frame pool.
#[derive(Clone, Copy, Debug, PartialEq, Eq)]
pub enum CleanupStep {
    CloseSession,
    RemoveFrameArrived(i64),
    CloseFramePool,
}

/// The words put in front of the error of a failed cleanup step.
pub open spec fn cleanup_prefix(step: CleanupStep) -> Seq<char> {
    match step {
        CleanupStep::CloseSession => "关闭捕获会话失败: "@,
        CleanupStep::RemoveFrameArrived(_) => "移除帧到达回调失败: "@,
        CleanupStep::CloseFramePool => "关闭捕获帧池失败: "@,
    }
}

/// The message for a cleanup step that failed with `error`.
pub fn cleanup_failure_message(step: CleanupStep, error: &str) -> (m: String)
    ensures
        m@ == cleanup_prefix(step) + error@,
{
    let mut m = match step {
        CleanupStep::CloseSession => String::from_str("关闭捕获会话失败: "),
        CleanupStep::RemoveFrameArrived(_) => String::from_str("移除帧到达回调失败: "),
        CleanupStep::CloseFramePool => String::from_str("关闭捕获帧池失败: "),
    };
    m.append(error);
    m
}

/// The text of the error that a capture reports with its cleanup
/// errors: the cleanup errors joined by `; `, after the capture error's
/// detail and `; ` when the capture failed too.
pub open spec fn merged_error_text(capture_detail: Option<Seq<char>>, cleanup: Seq<Seq<char>>) -> Seq<char> {
    match capture_detail {
        None => join_spec(cleanup, "; "@),
        Some(d) => d + "; "@ + join_spec(cleanup, "; "@),
    }
}

/// The outcome of a capture together with its cleanup errors: unchanged
/// when the cleanup went well, else an error that holds the capture
/// error's detail (if the capture failed) and every cleanup error.
pub open spec fn merged_result_spec(
    capture_result: Result<Vec<u8>, AppError>,
    cleanup: Seq<Seq<char>>,
    r: Result<Vec<u8>, AppError>,
) -> bool {
    if cleanup.len() == 0 {
        r == capture_result
    } else {
        let text = merged_error_text(
            match capture_result {
                Ok(_) => None,
                Err(e) => Some(e.detail@),
            },
            cleanup,
        );
        r matches Err(e) && e.summary@ == text && e.detail@ == text
    }
}

/// Reports a capture's outcome together with the errors of its cleanup.
pub fn merge_capture_result(capture_result: Result<Vec<u8>, AppError>, cleanup_errors: &[String]) -> (r: Result<Vec<u8>, AppError>)
    ensures
        merged_result_spec(capture_result, string_views(cleanup_errors@), r),
{
    if cleanup_errors.len() == 0 {
        return capture_result;
    }
    let cleanup_summary = join(cleanup_errors, "; ");
    match capture_result {
        Ok(_) => Err(AppError::from_text(cleanup_summary)),
        Err(error) => {
            let mut text = error.detail_text();
            text.append("; ");
            text.append(cleanup_summary.as_str());
            Err(AppError::from_text(text))
        },
    }
}

/// Whether `needle` occurs in `hay`.
pub open spec fn contains_text(hay: Seq<char>, needle: Seq<char>) -> bool {
    exists|k: int| 0 <= k && k + needle.len() <= hay.len() && #[trigger] hay.subrange(k, k + needle.len()) == needle
}

/// No error is lost: the merged error text holds the capture error's
/// detail (when there is one) and every cleanup error.
pub proof fn lemma_merged_error_keeps_every_error(capture_detail: Option<Seq<char>>, cleanup: Seq<Seq<char>>, i: int)
    requires
        0 <= i < cleanup.len(),
    ensures
        contains_text(merged_error_text(capture_detail, cleanup), cleanup[i]),
        capture_detail matches Some(d) ==> contains_text(merged_error_text(capture_detail, cleanup), d),
{
    let j = join_spec(cleanup, "; "@);
    lemma_join_contains_part(cleanup, "; "@, i);
    let k = choose|k: int| 0 <= k && k + cleanup[i].len() <= j.len() && #[trigger] j.subrange(k, k + cleanup[i].len()) == cleanup[i];
    let t = merged_error_text(capture_detail, cleanup);
    match capture_detail {
        None => {
            assert(t.subrange(k, k + cleanup[i].len()) == cleanup[i]);
        },
        Some(d) => {
            let off = d.len() + 2;
            assert(t =~= (d + "; "@) + j);
            assert(("; "@).len() == 2) by {
                reveal_strlit("; ");
            }
            assert(t.subrange(off + k, off + k + cleanup[i].len()) =~= j.subrange(k, k + cleanup[i].len()));
            assert(t.subrange(0int, 0int + d.len()) =~= d);
        },
    }
}

/// The errors of the three cleanup steps of a capture, in order.
pub open spec fn cleanup_errors_spec(
    session_close: Result<(), String>,
    remove_handler: Result<(), String>,
    frame_pool_close: Result<(), String>,
) -> Seq<Seq<char>> {
    let a = match session_close {
        Ok(_) => Seq::<Seq<char>>::empty(),
        Err(e) => seq![cleanup_prefix(CleanupStep::CloseSession) + e@],
    };
    let b = match remove_handler {
        Ok(_) => Seq::<Seq<char>>::empty(),
        Err(e) => seq![cleanup_prefix(CleanupStep::RemoveFrameArrived(0)) + e@],
    };
    let c = match frame_pool_close {
        Ok(_) => Seq::<Seq<char>>::empty(),
        Err(e) => seq![cleanup_prefix(CleanupStep::CloseFramePool) + e@],
    };
    a + b + c
}

/// Reports a capture's outcome together with the outcomes of closing the
/// session, removing the frame handler and closing the frame pool (each
/// given as the text of its error).
pub fn finalize_capture_result(
    capture_result: Result<Vec<u8>, AppError>,
    session_close_result: Result<(), String>,
    remove_handler_result: Result<(), String>,
    frame_pool_close_result: Result<(), String>,
) -> (r: Result<Vec<u8>, AppError>)
    ensures
        merged_result_spec(
            capture_result,
            cleanup_errors_spec(session_close_result, remove_handler_result, frame_pool_close_result),
            r,
        ),
{
    let ghost expected = cleanup_errors_spec(session_close_result, remove_handler_result, frame_pool_close_result);
    let mut cleanup_errors: Vec<String> = Vec::new();
    if let Err(error) = &session_close_result {
        cleanup_errors.push(cleanup_failure_message(CleanupStep::CloseSession, error.as_str()));
    }
    assert(string_views(cleanup_errors@) =~= match session_close_result {
        Ok(_) => Seq::<Seq<char>>::empty(),
        Err(e) => seq![cleanup_prefix(CleanupStep::CloseSession) + e@],
    });
    let ghost after_a = string_views(cleanup_errors@);
    if let Err(error) = &remove_handler_result {
        cleanup_errors.push(cleanup_failure_message(CleanupStep::RemoveFrameArrived(0), error.as_str()));
    }
    assert(string_views(cleanup_errors@) =~= after_a + match remove_handler_result {
        Ok(_) => Seq::<Seq<char>>::empty(),
        Err(e) => seq![cleanup_prefix(CleanupStep::RemoveFrameArrived(0)) + e@],
    });
    let ghost after_b = string_views(cleanup_errors@);
    if let Err(error) = &frame_pool_close_result {
        cleanup_errors.push(cleanup_failure_message(CleanupStep::CloseFramePool, error.as_str()));
    }
    assert(string_views(cleanup_errors@) =~= after_b + match frame_pool_close_result {
        Ok(_) => Seq::<Seq<char>>::empty(),
        Err(e) => seq![cleanup_prefix(CleanupStep::CloseFramePool) + e@],
    });
    assert(string_views(cleanup_errors@) =~= expected);
    merge_capture_result(capture_result, cleanup_errors.as_slice())
}

/// The message reported for the first frame: the encoded image when
/// encoding and closing the frame both went well; else the encoding
/// error's summary, `关闭捕获帧失败: <close error>`, or both joined.
pub open spec fn first_frame_result_spec(
    png_result: Result<Vec<u8>, AppError>,
    close_result: Result<(), String>,
    r: Result<Vec<u8>, String>,
) -> bool {
    match (png_result, close_result) {
        (Ok(png), Ok(_)) => r == Ok::<Vec<u8>, String>(png),
        (Err(e), Ok(_)) => r matches Err(m) && m@ == e.summary@,
        (Ok(_), Err(c)) => r matches Err(m) && m@ == "关闭捕获帧失败: "@ + c@,
        (Err(e), Err(c)) => r matches Err(m) && m@ == e.detail@ + "; "@ + "关闭捕获帧失败: "@ + c@,
    }
}

/// Combines the result of encoding the first frame with the result of
/// closing it.
pub fn build_first_frame_result(png_result: Result<Vec<u8>, AppError>, close_result: Result<(), String>) -> (r: Result<Vec<u8>, String>)
    ensures
        first_frame_result_spec(png_result, close_result, r),
{
    match (png_result, close_result) {
        (Ok(png), Ok(())) => Ok(png),
        (Err(error), Ok(())) => Err(error.to_string()),
        (Ok(_), Err(error)) => {
            let mut m = String::from_str("关闭捕获帧失败: ");
            m.append(error.as_str());
            Err(m)
        },
        (Err(error), Err(close_error)) => {
            let mut m = error.detail_text();
            m.append("; ");
            m.append("关闭捕获帧失败: ");
            m.append(close_error.as_str());
            Err(m)
        },
    }
}

/// The outcome of encoding a frame together with closing it: the image
/// when both went well; the encoding error unchanged; the close error
/// under the context `关闭捕获帧失败`; or both errors in one message.
pub open spec fn encode_and_close_spec(
    encode_result: Result<Vec<u8>, AppError>,
    close_result: Result<(), String>,
    r: Result<Vec<u8>, AppError>,
) -> bool {
    match (encode_result, close_result) {
        (Ok(png), Ok(_)) => r == Ok::<Vec<u8>, AppError>(png),
        (Err(e), Ok(_)) => r == Err::<Vec<u8>, AppError>(e),
        (Ok(_), Err(c)) => r matches Err(f) && f.summary@ == "关闭捕获帧失败"@ && f.detail@
            == "关闭捕获帧失败"@ + ": "@ + c@,
        (Err(e), Err(c)) => r matches Err(f) && f.summary@ == f.detail@ && f.detail@ == e.detail@
            + "; "@ + "关闭捕获帧失败: "@ + c@,
    }
}

/// Combines the result of encoding a frame with the result of closing it.
pub fn combine_encode_and_close(encode_result: Result<Vec<u8>, AppError>, close_result: Result<(), String>) -> (r: Result<Vec<u8>, AppError>)
    ensures
        encode_and_close_spec(encode_result, close_result, r),
{
    match (encode_result, close_result) {
        (Ok(png), Ok(())) => Ok(png),
        (Err(error), Ok(())) => Err(error),
        (Ok(_), Err(close_error)) => Err(AppError::from_text(close_error).context("关闭捕获帧失败")),
        (Err(error), Err(close_error)) => {
            let mut m = error.detail_text();
            m.append("; ");
            m.append("关闭捕获帧失败: ");
            m.append(close_error.as_str());
            Err(AppError::from_text(m))
        },
    }
}

} // verus!
