# rex_engine

The runtime core of the Rex expression language, written in Verus: each
function states its behaviour in `requires` / `ensures` and Verus proves it.

## Layout

- `src/` — the verified library.
  - `heap.rs`, `cell.rs`, `gc_order.rs`: the garbage-collected object heap,
    its runtime roots, the copying collector and the stress-mode shuffle.
  - `scope.rs`, `lists.rs`, `dicts.rs`, `fields.rs`, `value.rs`: allocating,
    reading and walking heap values (lists, slices, dictionaries, records).
  - `patterns.rs`: matching heap values against patterns.
  - `types.rs`, `literals.rs`: runtime types and literal allocation.
  - `scheduler.rs`, `frames.rs`, `tasks.rs`, `natives.rs`, `sequences.rs`,
    `unary.rs`, `dict_natives.rs`, `host.rs`: the evaluation scheduler and
    the step functions of the native (built-in) operations.
  - `module_id.rs`, `module_types.rs`, `exports.rs`, `main_inputs.rs`:
    module names, module requests and exported names.
  - `imports.rs`: the names that an import binds.
  - `conv_types.rs`, `value_export.rs`, `value_import.rs`, `rex_convert.rs`:
    conversion between heap values and host values, both ways.
  - `content_hash.rs`: SHA-256 of content.
- `tests/` — tests of the library on concrete values.
- `app/` — the parts that do I/O or need outside traits and derives.
