# cantaloop

The verified core of the CantaLoop language toolchain, written in Verus.

`src/` holds the library; every function in it carries a contract that Verus
proves:

- `entity_id`, `span`: entity identities with their ranges, byte spans and CST
  node identities.
- `cst`, `ast`, `lowering`: the concrete and abstract syntax trees and the
  lowering from one to the other, which keeps node identities and collects
  declaration documentation.
- `pratt`: precedence climbing over a flat sequence of operators and atoms.
- `doc`, `chars`, `text`: documentation tags and text helpers.
- `modules`: module dependencies, cycle detection and initialisation order.
- `hir`, `opcode`, `emit_spec`, `emitter`, `emit_laws`: the high-level IR,
  the instruction set, the exact code each construct compiles to, the emitter
  that produces it, and the proof that every jump of a construct's code lands
  inside that code or just after it.
- `spans`: span tables and identifier occurrences for the language server.
- `split`, `index_spec`: splitting argument and index lists at their
  top-level commas, and the shape of one index specification.
- `semantic`: matching identifier occurrences to symbols by name for the
  semantic index.
- `engine`: the registry of native functions and standard library modules.

Number literals are carried as the bit pattern of their `f64` value.
`app/` holds thin adapters for callers that hold floats, paths and std hash
maps. `tests/` exercises the library on concrete programs.
