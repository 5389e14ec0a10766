# gs_lang

The GScript language front end, verified with Verus: the parser, the compiler to
GVM code, the behaviour of the built-in value types, and the argument checking of
the standard library's native modules.

## Layout

- `src/parser/` — recursive-descent parser. `grammar.rs` states the grammar as
  spec functions over the source characters; every parsing method is proved to
  agree with it, errors included (the same message at the same line and column),
  except the wording of the standard library's message for a number that does not
  fit in 32 bits, which is left unstated.
- `src/ast.rs` — the syntax tree and its mathematical model.
- `src/compiler/` — the compiler. `code.rs` holds the instruction stream, in which
  jumps are positions in the stream; `scheme.rs` states, as spec functions of the
  syntax tree, the code written for each expression and statement, the functions
  it defines (numbered in the order they are compiled), the catch regions and
  catch variables it adds and the native call gates it makes. `compile` and
  `compile_modules` are proved to produce exactly that program for every program
  whose function bodies hold no `break` or `continue` outside their own loops
  (and whose map literals have a value for each key); for the rest only the
  entry's first and last instruction and well-formedness are stated. Every compiled
  program is also proved well formed: each jump lands inside its function, each
  referenced function exists, each catch region lies inside its function, and no
  argument count has two native call gates.
- `src/lang/` — values as the VM passes them (a type and a 32-bit payload), and
  what `Number`, `String`, `Object`, `Array` and `NativeObject` do for each
  operation (number arithmetic wraps on overflow, as in the release build, and a
  number plus a string gives the number's digits followed by the string's text);
  the heap array object and its keys; value conversion and what a value hands to
  a native method; exception objects.
- `src/imports.rs` — which modules a program loads and in what order.
- `src/stdlib/` — the native modules: class names, method tables, argument
  checks, and what each call asks the host to do.
- `app/` — the `gs-lang` command: reading files, the GVM glue (its traits, the
  program format, the native registry) and the operating-system work of the
  native modules. It needs the `gs-core` crate.
