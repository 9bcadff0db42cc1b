# astrs_data

A columnar payload format, wire-compatible with the Arrow IPC streaming format,
written in Verus: every public function of the library carries a contract, and Verus
proves it.

* `src/` is the library.
  * `buffer`, `datatype`, `schema`, `error`: bytes and bits, types, fields,
    schemas, failures.
  * `array`: columns. A column is a type, a length, validity and a body; its model
    says what each slot holds.
  * `record_batch`, `message`: a schema with one column per field.
  * `ipc`: FlatBuffers tables, schema and batch headers, message framing, streams,
    payloads. The `*_laws` modules prove what holds of writing and reading
    together: a stream read back is the stream written, a stream cut short is
    refused or short.
  * `kernel`: slice, concat, take, filter, cast. `halves` proves that a column cut
    in two is the whole again when joined. `float` is the arithmetic of
    floating-point numbers on their bits, which cast needs.
  * `tensor`: N-dimensional views over a flat column.
  * `interop`: types, schemas, columns and batches to arrow's and back. `sound`
    says which columns arrow takes.
* `tests/` runs the library on concrete values.
* `app/` is ordinary Rust around it: sinks and sources, arrow's array trait
  objects, errors that can be boxed.

What is believed without proof stands behind a few items: `interop::outside`,
`interop::buffer`, `interop::array` and `interop::record_batch` declare arrow's
types and functions, `text::quote` renders a quoted string,
`ipc::fb::reader::text_of_bytes` decodes UTF-8, and `Buffer::share_count` counts
the handles to an allocation.
