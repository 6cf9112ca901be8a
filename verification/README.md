# wasmium_pdk

Plugin-side support for wasmium WebAssembly plugins, with its contracts
proved.

Host and plugin exchange values as MessagePack payloads, each carried in a
frame: an 8-byte little-endian length followed by the payload. The library in
`src/` states and proves:

- `frame`: building and reading frames, and that a frame reads back as the
  payload it was built from;
- `memory`: a model of the plugin's linear memory and its allocator
  (`wasmium_alloc`, `wasmium_free`, `read_bytes`, `write_bytes`), with the
  invariant that live regions lie in memory and never overlap;
- `exports` and `import`: the demonstration exports, and the protocol of a
  call into a host import, which returns the host's answer and gives back
  every region it reserved;
- `msgpack`: the MessagePack encodings the import protocol produces itself,
  through `rmp_serde`;
- `runtime`, `text` and `codegen`: one-time initialization, the text logged
  on a panic, and the names and argument shapes the plugin macros generate;
- `syntax`: the input grammar of `import_module!` (a module name, then a
  parenthesized list of `name(Type, ...) [-> Type]`), read from the text of
  the macro's tokens, with `syn` deciding only which texts are Rust types,
  identifiers and string literals.

`app/` holds what works on raw pointers and on Rust syntax trees: the real
exports over linear memory, the host imports, the panic hook, and the
expansion functions of `#[wasmium_fn]` and `import_module!` (a proc-macro crate has to
forward to them before they can be used as macros).

The memory of `src/memory.rs` is a model: a bump allocator over a byte
vector that fixes addresses and fills fresh regions with zeros, with the
same frame layout and region discipline as the plugin's real memory. It is
not what runs inside a plugin; there, `app/guest.rs` works on raw pointers
and takes only the framing (`encode_frame`, `payload_len`) from the library.
