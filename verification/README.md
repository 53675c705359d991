# wlr-utils

Logic shared by the wlr tools: which window and output have the focus, which keys cancel and
cycle, how a capture dma-buf is described to EGL and read back, and what the window switcher does
next. `src/` is verified with Verus; `app/` is the ordinary Rust around it, which runs the
compositors' commands, makes the GPU calls and reads the command line.

| module | what it holds |
| --- | --- |
| `json` | JSON replies as plain values, read with `serde_json` |
| `geometry` | rectangles in the global logical space |
| `sway_model`, `sway`, `sway_laws` | what a sway tree says, the functions that read it, and what holds of every tree |
| `focus` | the Sway, Hyprland and niri backends |
| `dmabuf`, `readback` | dma-buf attribute lists; the order of the calls that set up a context and read a frame back |
| `keys` | the cancel gesture and the cycle keys |
| `switcher` | the switcher's options, candidates and steps |
| `lists`, `text` | facts about lists; texts, character by character |

Coordinates are 32-bit numbers: where a reply gives more, the low 32 bits count, and a window's
content offset is added to its corner in 32 bits.
