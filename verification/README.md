# dioxus_primitives

The logic of a set of accessible, unstyled UI primitives for Dioxus,
verified with Verus.

- `src/` is the verified library: virtual-list windowing and range lookup,
  the option registry of select-like widgets, typeahead matching, attribute
  merging, the keyboard decision tables of the menus, navigation menus,
  radio groups, selects, tooltips and resize handles, and the small state
  machines the widgets run (controlled values, previous values, timer
  slots, open/close animation cycles, scroll locks, Escape listeners,
  pointer and portal registries, submenu counts). Each public function
  states its result exactly in its contract; the laws that relate several
  functions are public proof functions next to them.
- `tests/` runs the library on concrete values.
- `app/` binds the library to Dioxus: hooks that keep the library's state in
  signals, global registries fed by document events, conversions between
  Dioxus values and the library's plain values, a few components, and the
  parts that compute with floating point or downcast `dyn Any` values.
