# companion

A tiny living pixel creature for the desktop. It walks, flies and naps on
your screens, climbs onto window tops, chases notifications and gently
reminds you to drink water.

## Layout

* `src/` — the library, written in Verus and verified: the procedurally
  drawn sprite atlas and speech bubble, the pet-pack sprite format and the
  avatar converter's rules, the desktop scout's window-top geometry, the
  notification-monitor line reader, the reflexes and behaviour menus, mood
  selection, the wellness nudges and the frame compositor's layout. Every
  public function carries a contract, and laws about the library's own
  values are stated and proved as proof functions beside them. Properties
  that live in floating-point time or space (the 40 s quiet gap measured in
  seconds, physics, needs) are not stated: the library sees only the yes/no
  readings the app takes of them.
* `tests/` — tests of the library on concrete values.
* `app/` — the program around it: windows, GPU rendering, X11 and D-Bus
  polling, configuration files, the floating-point physics, needs and clocks,
  and the `companion-convert` entry point (run the binary under that name, or
  as `companion convert <image> [name]`).
