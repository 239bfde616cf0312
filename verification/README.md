# pinnacle

The decision-making core of the Pinnacle Wayland compositor, written in Verus
and proved against its contracts.

- `src/` is the verified library. Each module holds one concern: tags and
  outputs (`tag`, `output`), key, mouse and gesture bindings (`bind`), layout
  trees (`layout`: neighbor information, the order in which tiles take
  windows, window placement, pending per-output work, request ids), the state machines of
  the protocols the compositor serves (`output_management`,
  `output_power_management`, `screencopy`, `image_copy_capture`,
  `gamma_control`, `snowcap_decoration`, `decoration`, `ext_workspace`,
  `foreign_toplevel`, `xdg_activation`), input decisions (`input`, with
  `input::pointer` for the order in which surfaces under the pointer are
  tried, and `libinput`), process spawning decisions (`process`), and the metaconfig
  (`metaconfig`).
  Protocol objects, outputs and windows are named by integer handles; the
  Wayland plumbing maps handles to objects and performs the actions that the
  library decides on.
- `src/bind/maps.rs` and `src/bind/channel.rs` hold the trusted items through
  which the bindings use `indexmap` and `tokio`'s channels.
- `tests/` runs the library on concrete values.
- `app/` spawns processes the way the compositor does for its config: the
  library decides, the app starts the process and hands its pipes over a Unix
  socket. With `--config <dir>` it reads the directory's `metaconfig.toml`
  and starts the config it names, with its environment.
- Tags are shared: a `Tag` is a handle on its entry in a `TagTable`, so that
  every copy of a tag sees what is done through another.
- Each binding set keeps a ghost log of what it sent to configs and whether
  each send was delivered; the contracts of `key`, `btn` and `gesture` state
  what is sent and what becomes of a binding whose config stopped listening.
