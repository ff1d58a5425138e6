# fc_ui

The view-model and projection logic of a folder-compare desktop UI, written
in Verus with its behaviour stated as `requires` / `ensures` contracts and
proved.

## Layout

- `src/` — the verified library.
  - `text`, `paths`: character-level text and relative-path helpers with
    mathematical specifications (trimming, splitting, normal forms, decimal
    printing and parsing).
  - `core_model`, `view_models`: plain-value models of the compare engine's
    results and of the panels the UI shows.
  - `compare_foundation`: the canonical tree of compare nodes built from
    compare entries, its well-formedness type invariant (kept by the
    constructors and by `clone`, which copies node for node), focus clamping and the
    flat rows it projects; `foundation_laws` states the tree's shape, where
    statuses and capabilities come from, source-entry lookup and focus
    clamping; `legacy_rows` reads flat rows back into it.
  - `compare_tree`, `navigator_tree`, `expansion`, `hidden_rows`: the visible
    tree projections and what they promise about hidden entries.
  - `compare_file`, `bridge`, `layout`: compare-file rows and inline
    emphasis, diff and preview panels, analysis requests, width estimates.
  - `context_menu`, `loading_mask`, `sync_policy`, `folder_picker`: menu
    payloads and activation, the loading mask state machine, window sync
    decisions, and the meaning of a folder picker's output.
- `tests/` — tests run against the compiled library.
- `app/` — the program around the library: process, file-system, clipboard
  and logging edges.

## Collections keyed by path

The foundation keeps its nodes in a `Vec` with unique keys, and the tree
expansion choices live in `ExpansionOverrides`, a `Vec` of (path, choice)
pairs with a unique-key type invariant. Both are keyed by path text. Verus
proves nothing about the contents of a std map keyed by `String` (its
specifications cover integer keys), so an ordered map from path to node
would leave the lookups, inserts and the foundation's invariants without
proof; a vector searched by path keeps them all verified. Children are kept
sorted by path, which gives the same order an ordered map would.

`tree_laws` states what the rows of the navigator and Compare View trees
are: the Compare View rows are exactly the rows of the nodes below the focus
that are reached through expanded directories (hidden ones only when shown),
and the navigator's selectable set is exactly the source indices of the file
entries that it keeps.
