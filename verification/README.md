# eye

Parts of a compiler for the eye language, written in Verus: every function of the
library is proved to do what its contract says.

- `src/target.rs` reads and writes target triples.
- `src/parser` holds the syntax tree and displays it.
- `src/compiler` has the parts of the type checker and of the generation of the
  intermediate representation: types, their unification, the exhaustiveness of
  patterns, calls and intrinsics.
- `src/ir` is the intermediate representation: instructions and their storage,
  changes to functions, scalar replacement of aggregates, and parallel copies between
  registers.
- `src/backend` generates code for x86-64 and 64-bit Arm and writes ELF and Mach-O
  object files.
- `src/lsp` answers the questions of an editor: what stands at a place, where it is
  defined, what is shown of it and what can be completed.
- `app` is the command line around the library. It reads and writes files and the
  standard streams.
