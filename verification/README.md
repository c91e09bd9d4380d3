# com_macros_support

The rules behind the `interfaces!` and `class!` macros of a COM library for
Rust, written in Verus and proved against their contracts.

- `src/` is the verified library. It works on models of the macro input
  (paths, attributes, methods, interface chains) and decides everything the
  macros decide: which declarations are accepted and with which error, the
  IID parts and constants, the entries of each interface's vtable (and
  whether it holds its parent's), how each class fills its vtables, the
  order of the fields of a class struct, the names of generated items, the
  `From` conversions of classes and interfaces, and the renaming of
  colliding method names. The token templates around these decisions are
  written in `app/`. The syntax it does not inspect is carried
  through as an opaque type parameter.
  - `text`, `utils`, `path`: characters, name conversions, interface paths.
  - `interface`: IIDs, interface declarations, vtables, and the conversions
    between interfaces and their ancestors (`chains` holds what the bounded
    walk says of the chains of parents).
  - `class`: the class model, the reading of a `class!` invocation, and the
    method renaming (`collisions`).
- `app/` reads the macro input with `syn`, hands it to the library, and
  writes the generated items with `quote`.
- `tests/` runs the library on concrete inputs.
