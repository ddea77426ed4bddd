# sambil

A keyboard-driven terminal multiplexer: tabs, side-by-side panes, scrollback, undo of a
closed tab, and a configurable leader key (`Ctrl-b` by default).

## Layout

- `src/` is the library, verified with Verus. It holds what the multiplexer decides:
  - `size`: terminal, content-area and pane sizes, and the horizontal split layout;
  - `scroll`: the scrollback position;
  - `text`, `cell`, `cursor`: strings as characters, one-grapheme cell contents, cursor
    shapes;
  - `pane`, `pane_manager`: panes, tabs, the tab set, and the manager's operations
    (open, split, close with a ten-second undo, reap, focus, rename, resize, close
    what exited), each stated over a value model (`ManagerView`);
  - `keys`, `config`, `input`: keys and the bytes they send, the leader setting and where
    the configuration file lives, and the input-mode state machine (`key_transition`);
  - `renderer`: painting a frame and the minimal terminal operations that show it;
  - `replay`: a model of the terminal those operations go to, and the laws that a diff
    and a whole draw leave it showing the frame drawn.
  Laws that relate several operations are public proof functions named `lemma_*`.
- `app/` is the program around it: the terminal (crossterm), the shells
  (portable-pty), their emulators (vt100), the configuration file (serde, toml) and the
  event loop that feeds keys to `input::handle_key` and draws with `Renderer::draw`.
- `tests/` exercises the library on concrete values.
