//! Reading a window's title and class name out of the UTF-16 buffers
//! that the system fills, with unpaired surrogates replaced.
use vstd::prelude::*;
use crate::error::{out_of_range_message, AppError};
use crate::text::{decode_utf16_lossy, utf16_decode_lossy};

verus! {

/// The size of the buffer for a title of `length` units: one more, for
/// the terminator. A negative length is an error (`读取窗口标题长度失败`).
pub fn title_buffer_len(length: i32) -> (r: Result<usize, AppError>)
    ensures
        length >= 0 ==> r == Ok::<usize, AppError>((length + 1) as usize),
        length < 0 ==> (r matches Err(e) && e.summary@ == "读取窗口标题长度失败"@ && e.detail@
            == "读取窗口标题长度失败"@ + ": "@ + out_of_range_message()),
{
    if length < 0 {
        return Err(AppError::msg("out of range integral type conversion attempted").context("读取窗口标题长度失败"));
    }
    let n = length as usize;
    match n.checked_add(1) {
        Some(len) => Ok(len),
        None => Err(AppError::msg("窗口标题长度溢出")),
    }
}

/// The text in the first `copied` units of `buffer`, decoded with
/// replacement, or the summary and detail of the error: a negative count
/// (`read_failure` with the conversion error as cause) or a count beyond
/// the buffer (`bound_failure`).
pub open spec fn copied_text_spec(
    buffer: Seq<u16>,
    copied: i32,
    read_failure: Seq<char>,
    bound_failure: Seq<char>,
) -> Result<Seq<char>, (Seq<char>, Seq<char>)> {
    if copied < 0 {
        Err((read_failure, read_failure + ": "@ + out_of_range_message()))
    } else if copied > buffer.len() {
        Err((bound_failure, bound_failure))
    } else {
        Ok(utf16_decode_lossy(buffer.take(copied as int)))
    }
}

fn copied_text(buffer: &[u16], copied: i32, read_failure: &str, bound_failure: &str) -> (r: Result<String, AppError>)
    ensures
        match r {
            Ok(t) => copied_text_spec(buffer@, copied, read_failure@, bound_failure@) == Ok::<Seq<char>, (Seq<char>, Seq<char>)>(t@),
            Err(e) => copied_text_spec(buffer@, copied, read_failure@, bound_failure@) == Err::<Seq<char>, (Seq<char>, Seq<char>)>((e.summary@, e.detail@)),
        },
{
    if copied < 0 {
        return Err(AppError::msg("out of range integral type conversion attempted").context(read_failure));
    }
    let count = copied as usize;
    if count > buffer.len() {
        return Err(AppError::msg(bound_failure));
    }
    let units = &buffer[0..count];
    assert(units@ =~= buffer@.take(count as int));
    Ok(decode_utf16_lossy(units))
}

/// The window title that `GetWindowTextW` wrote: the first `copied`
/// units of `buffer`.
pub fn window_title_from_buffer(buffer: &[u16], copied: i32) -> (r: Result<String, AppError>)
    ensures
        match r {
            Ok(t) => copied_text_spec(buffer@, copied, "读取窗口标题失败"@, "窗口标题长度超出缓冲区"@) == Ok::<Seq<char>, (Seq<char>, Seq<char>)>(t@),
            Err(e) => copied_text_spec(buffer@, copied, "读取窗口标题失败"@, "窗口标题长度超出缓冲区"@) == Err::<Seq<char>, (Seq<char>, Seq<char>)>((e.summary@, e.detail@)),
        },
{
    copied_text(buffer, copied, "读取窗口标题失败", "窗口标题长度超出缓冲区")
}

/// The class name that `GetClassNameW` wrote: the first `copied` units
/// of `buffer`.
pub fn class_name_from_buffer(buffer: &[u16], copied: i32) -> (r: Result<String, AppError>)
    ensures
        match r {
            Ok(t) => copied_text_spec(buffer@, copied, "读取窗口类名失败"@, "窗口类名长度超出缓冲区"@) == Ok::<Seq<char>, (Seq<char>, Seq<char>)>(t@),
            Err(e) => copied_text_spec(buffer@, copied, "读取窗口类名失败"@, "窗口类名长度超出缓冲区"@) == Err::<Seq<char>, (Seq<char>, Seq<char>)>((e.summary@, e.detail@)),
        },
{
    copied_text(buffer, copied, "读取窗口类名失败", "窗口类名长度超出缓冲区")
}

} // verus!
