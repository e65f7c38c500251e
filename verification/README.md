# wasm_bridge

Verified building blocks for running WebAssembly components from Rust with a
JavaScript host, and the packaging tool that prepares a transpiled component
for synchronous loading.

The library is written in Verus. Its functions carry contracts that the
verifier proves, except for a few small wrappers around calls into `zip`,
`regex`, `js-component-bindgen` and the standard library, marked
`#[verifier::external_body]`: their contracts are trusted, and their doc
comments say what they claim of the outside code.

- `layout`: sizes, alignments, argument counts and field layouts of the types
  that cross the component boundary.
- `memory`: byte buffers, the readable and writeable memory traits, and a
  32-bit linear memory with a bump allocator.
- `lift` / `lower`: reading values from and writing values to their byte
  encoding, the value an exported function returns, and the flattened
  JavaScript arguments of a call. Writing then reading gives the value back.
- `js`: JavaScript values as the conversions see them (numbers are kept as the
  bits of their double), and the conversions of primitives.
- `val`: core WebAssembly values and the exact float-to-integer conversions.
- `text`, `transform`: the rewriting of the generated JavaScript module and
  the transformations of the files that go into the archive.
- `archive`: the zip archive of the transformed files.
- `loader`: transpiling a component and picking out its core modules.
- `component`: engine configuration, the store data a host function is
  called with, resource handles and strides.
- `exports`: pairing exported functions with their post-return functions, and
  storing the results of a call.
- `error`: the errors of loading a module and calling its functions, with
  their messages.

`app/main.rs` is the command-line tool: it reads the folder, runs the
transformations, and writes the archive. `tests/` holds the tests.
