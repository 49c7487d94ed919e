//! The window description that a search returns.
use vstd::prelude::*;

verus! {

/// A window's rectangle in screen coordinates.
#[derive(Clone, Copy, Debug, PartialEq, Eq)]
pub struct WindowRect {
    pub left: i32,
    pub top: i32,
    pub right: i32,
    pub bottom: i32,
}

/// One window found for a process.
#[derive(Debug)]
pub struct WindowEntry {
    /// The handle as text: `0x` and sixteen upper-case hexadecimal digits.
    pub hwnd: String,
    pub pid: u32,
    pub title: String,
    pub class_name: String,
    pub visible: bool,
    pub minimized: bool,
    pub rect: WindowRect,
}

} // verus!
