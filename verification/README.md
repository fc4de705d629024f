# LibraryBridge

Moves Proton compatdata off a game drive that cannot hold it, onto a filesystem that can, and keeps the
original until it is proven needless. Finds installed games that no launcher knows about.

- `src/` is the library: the decisions, rules and formats, with contracts that Verus proves.
- `app/` is the program around it: arguments, files, processes and the window. It asks the disk, does what the
  library decides and shows what it says.
- `tests/` runs the library on concrete values.

What to read first in `src/`:

- `repair`, `undo` and `backup` decide, step by step, what `fix`, `undo` and `backup` do; `protocol` holds the
  steps and the answers. `history` follows them on a disk and states what they keep.
- `fsops`, `links` and `walk` take inventories, compare a copy with its source and say what a copy has to do;
  `copying` states that doing it makes the tree that was copied.
- `steam`, `state`, `system`, `vdf` read what Steam and the system say; `discover` and `scan` find games; `ids` states
  which paths the short ids tell apart.
- `document`, `json`, `record`, `evidence`, `commands`, `plan` write and read what is kept and shown; `exchange`
  states that the window reads what the tool writes.
