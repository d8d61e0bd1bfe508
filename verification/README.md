# glazewm

The decision-making core of a tiling window manager, written in Rust and
verified with Verus.

`src/` is the verified library. It does not talk to the operating system: its
functions take what was observed as plain values and return what has to be done.

- The tree of containers (`tree`, `tree_moves`, `tree_walks`, `container`) and the
  commands on it (`stack`, `split`, `manage`, `scratchpad`, `pip`), with what they
  keep and undo (`tree_laws`, `window_laws`).
- Where containers are, and whom that depends on: `position`, `placement`.
- Configuration: `config_types`, `user_config`, `workspace_order`, `color_themes`,
  `theme_layout`.
- Bringing the desktop in line with the tree: `platform_sync`, `redraw`,
  `redraw_cycle`, `reposition`, `overlays`, `effects`, `workspace_switch`, `fade`.
- What stands in for windows while they are animated: `resize_session`,
  `workspace_surrogate`, `z_order`.
- What the desktop shows: `wallpaper`, `wallpaper_layout`, `wallpaper_surface`,
  `composition`, `color_capture`, `image_tracking`, `image_finder`,
  `element_watch`.
- Events: `event_loop`, `window_listener`, `window_events`, `urgency`.

`app/` is the program around it: the main loop, the config files, the native calls
and all floating-point arithmetic. `tests/` runs the library on concrete values.
