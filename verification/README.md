# keyboard_configurator

The logic of a configurator for System76 keyboards (keymaps, key labels,
the key picker, backlight settings and keyboard tests), written in Verus with
its behaviour stated in contracts and proved.

- `src/` is the verified library:
  - `application/`: keys, pages, layouts (physical.json placement,
    keymap.json), the picker.csv picker, the keyboard view's decisions
    (title, pages, keymap import, selection, switch polling) and backlight
    rows;
  - `daemon/`: the daemon operations, the command protocol and its dispatch,
    an in-memory daemon of pretend boards, and one board of a daemon;
  - `page.rs`, `keycode.rs`: keycodes and the labels shown on keys;
  - `picker/`: picker groups, their layout in rows, the tap-hold chooser;
  - `selected_keys.rs`, `testing.rs`, `matrix.rs`, `cli.rs`,
    `configurator_app.rs`, `keyboard.rs`: selection, test marks, switch
    matrices, board choice and command-line options;
  - `text.rs`, `strmap.rs`, `color.rs`: text helpers, an ordered string map
    and RGB colors.
- `app/` is the command-line program: the daemon over standard input and
  output, a client for it, and reading layout files.
- `tests/` exercises the library on concrete values.
