//! Verified core of a window-capture tool server: HWND text parsing and
//! formatting, process-name matching, UTF-16 name decoding, window
//! selection and ordering, pixel conversion and PNG/Base64 encoding
//! of captured frames, and the bookkeeping that keeps capture and
//! cleanup errors together.
pub mod error;
pub mod text;
pub mod hwnd;
pub mod process;
pub mod tool_types;
pub mod window_query;
pub mod window;
pub mod cleanup;
pub mod texture_map;
pub mod frame;
pub mod frame_signal;
pub mod capture;
pub mod capture_service;
pub mod server;
pub mod window_details;
