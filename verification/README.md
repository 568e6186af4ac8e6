# kumokiri

A Windows screenshot tool: a global hotkey freezes the desktop, a full-screen
overlay lets the user pick a window, a monitor or a dragged rectangle, and the
chosen region is saved as PNG and/or copied to the clipboard.

The logic is a Verus-verified library under `src/`:

- `geometry` — rectangles and points: normalizing, clamping, moving and resizing
  a selection, edge hit-testing, grips, the dimmed bands around a selection.
- `hotkey` — parsing descriptions such as `Ctrl+Alt+B`, with their canonical
  spelling.
- `settings` — the settings and their `key=value` file form.
- `overlay` — the selection overlay as a state machine driven by pointer and
  key events, and the frame it shows.
- `render` — pixel work on BGRA frames (dimming, filling, the selection frame).
- `capture` — monitors, assembling a region from per-monitor captures, the
  steps of taking a fresh desktop frame, reading BGRA frames, drawing
  monochrome pointer shapes and choosing the pixels of colour ones.
- `output` — the PNG bytes, the file name and the clipboard bitmap.
- `main_window` — what messages to the settings window and its tray icon do,
  and the texts it reports.
- `text` — character and UTF-16 helpers.

`app/` is the Windows program around it: windows, message loops, DXGI desktop
duplication, files, registry and clipboard, and the floating-point colour work
(HDR tone mapping, colour pointer blending).
