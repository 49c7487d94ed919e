# wincapture

The verified core of an MCP tool server that finds the windows of a
process by name and returns PNG screenshots of windows on Windows.

- `src/` is the library, checked by Verus: window-handle text
  (`hwnd`, `window`), process-name matching and the per-entry steps of a process
  snapshot walk (`process`, `window`), UTF-16 and string helpers (`text`), window
  selection and ordering (`window_query`, `window_details`), frame
  conversion and PNG/Base64 encoding (`texture_map`, `server`), and the
  bookkeeping of a capture and its cleanup (`capture`, `cleanup`,
  `frame`, `frame_signal`, `capture_service`).
- `tests/` runs the library on concrete values.
- `app/` is the server binary: the MCP transport, Direct3D and
  Windows.Graphics.Capture calls, window enumeration and the process list.
