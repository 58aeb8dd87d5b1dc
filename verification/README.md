# Marcel's file operations

The filesystem layer of a file manager: copying, moving, replacing, merging,
deleting, renaming, archives, and the undo history over all of them. It is
written in [Verus](https://github.com/verus-lang/verus), and every decision it
makes is proved against the contract of the function that makes it.

## How it works

No function of the library touches a disk. An operation is a value that says
what it needs to know or what has to happen next (look at this path, list this
directory, rename this to that). Whoever runs it does that one thing and hands
back what came of it, by calling the method that is named after the event; the
method consumes the value and returns the next one. A step out of order does
not compile, and every answer the system can give has a stated consequence.

- `src/` is the verified library.
- `app/` is ordinary Rust that performs the system calls, one for each thing
  the library asks for, and hands back what they gave.
- `tests/` runs whole operations against a disk that lives in memory, and the
  pure parts against plain values.

## Layout of `src/`

| Module | What it holds |
| --- | --- |
| `path`, `text` | Paths as lists of byte names that keep how they were spelled; numbers, words and UTF-8 |
| `order`, `index` | Stable sorting and merging; looking paths up in a sorted list |
| `fs` | Directory entries, their labels and order, streaming a directory, sizes |
| `fsops::identity`, `local` | What an object is and whether it is still the same one; names, occupancy, renames |
| `fsops::snapshots`, `journal`, `history` | Describing trees, the bounded undo history, undoing and redoing |
| `fsops::tree` | A model of the filesystem, and that undoing an operation leaves it as it was |
| `fsops::repeat` | That redoing what was undone leaves it as it was before the undo |
| `fsops::union` | That a merge gives the union of two trees |
| `fsops::replica` | That a finished copy is the whole tree |
| `fsops::plan`, `conflict`, `containment` | What becomes of one source of a transfer |
| `fsops::copy`, `copier`, `sparse`, `merge`, `moving` | Carrying one source over |
| `fsops::carry`, `dropped` | Moving to another filesystem; what a filesystem cannot keep |
| `fsops::transfer` | A whole transfer and its books |
| `fsops::working`, `quarantine`, `sweep` | Working files: who owns them, what is held aside, what may be reclaimed |
| `fsops::delete`, `staging`, `erase` | Deleting for good |
| `fsops::mutations` | New folder, new file, rename, permissions |
| `fsops::archive`, `listing`, `backend`, `extract`, `compress` | Archives and the program that reads and writes them |

Trusted are a handful of facts about the standard library, each stated where it
is wrapped: in `text`, how `String` decodes, folds case and grows, and in
`path`, that a cloned `Arc` shares what it points to.
