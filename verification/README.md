# compositor_core

The decision core of a Wayland compositor, verified with Verus.

- `src/` is the library: the viewport tree and its cameras, the persisted layout, the focus and the
  pane drags of a session, the cursor-teleport lookup, and the output switch and hotplug
  reconciliation of the display driver as state machines. Coordinates are of a type that the library
  only carries: where a decision rests on arithmetic with them, the caller hands the arithmetic in.
- `src/*_laws.rs` state what holds across several operations.
- `tests/` run the library on concrete values.
- `app/` is the compositor around it: the event loop, the devices, the stored records and the
  arithmetic on coordinates.
