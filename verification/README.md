# lan_mouse

The decision logic of lan-mouse, a software KVM that shares one mouse and
keyboard between computers, as a library verified with Verus.

- `src/` is the library. Each module states its behaviour in `requires` /
  `ensures` contracts, and the properties that span several calls are
  public proof functions (`lemma_*`). The modules cover the desktop edge
  geometry (`screen`, `screen_moves`, `screen_reference`, `display`), the capture backends'
  decisions (`capture`, `registry`, `enter_bind`, `mac_tap`, `mac_capture`,
  `x11_capture`, `windows_hook`, `libei_capture`, `layer_shell`), the
  emulation backends' decisions (`emulation`, `emulation_requests`), the
  wire format of events (`event`, `wire`), backend selection
  (`backend_probe`), the command line grammar and its requests (`cli`), clipboard
  forwarding (`clipboard`), installed applications and their icons
  (`desktop`, `xdg_dirs`, `frontmost`), macOS permissions (`privacy`), key
  code tables (`keymap`) and text helpers (`text`).
- `tests/` runs the library on concrete inputs.
- `app/` holds what stays outside the verifier: reading the environment and
  files, running helper programs, JSON decoding, floating-point
  conversions, and error types implementing `std::error::Error`.
