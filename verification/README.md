# pebbles_widgets

The logic of a desktop widget catalog, verified with Verus: text input editing
(selection, undo/redo, masks for dates, times and currency), routing, the calendar,
menus and keyboard navigation, the overlay services (dialogs, sheets, toasts,
popovers) and the window request queues.

- `src/` — the verified library. Each module states its behaviour in `requires` /
  `ensures` contracts over mathematical models. Properties that relate several
  calls (undo after an edit, a dialog staying open until something ends it, the
  overlay census following shows and hides, a passive overlay staying until it is
  hidden, a dismissed toast staying until it is removed, key runs keeping a
  one-time code within its cells, a route match lining up every segment, ...) are stated and
  proved as `pub proof fn`s beside the functions they speak of.
- `tests/` — executable tests of the library on concrete values.
- `app/` — what stays outside the proofs: reading images from disk and the
  network, the system clock, and the floating-point geometry of sliders, menus and
  transitions.

Callbacks are referred to by numeric action ids: the library decides which callback
a key press or click runs, and the caller keeps the closures. The editor counts
caret positions in characters. Its input filters and masks come as the fixed kinds
the catalog's inputs use (`CharFilter`, `Mask`) or as the caller's own closures
(`Editor::apply_filtered`, `Editor::reformat_with`).
