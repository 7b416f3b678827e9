# stellatune_plugins

The host side of StellaTune's plugin runtime, as a Verus-verified library.

`src/` holds the logic, each function with a contract that Verus proves:

- `install` – install receipts and uninstall markers, the checks made when a
  plugin library is loaded, the steps of an install that replaces a plugin
  root (with its rollback), listing and uninstall rules, artifact kinds and
  manifest or library selection.
- `host_runtime` – the runtime's view of active plugins and capabilities,
  decoder candidates by extension, load and sync reports.
- `executor` – component worlds, install plans, directive routes and the
  controller's plugin records.
- `capability_registry`, `events`, `calls`, `sdk` – capability bookkeeping,
  the plugin event bus, calls into plugin instances and config-update plans.
- `sidecar`, `env`, `paths`, `sidecar_state`, `process_exit`, `stdio_buffer` –
  sidecar launch descriptions, transport choice, endpoint environment
  variables, launch signatures, the shared-process and named-lock registry,
  process termination and the stdio output buffer.
- `endpoint`, `ring` – the shared-memory channel endpoint text and the byte
  ring that carries it.
- `stream`, `shadow` – stream requests and HTTP range reads; shadow copies of
  plugin libraries.
- `zip` – unpacking a plugin archive: which directory or file each entry
  becomes, and why unpacking stops (rawzip reads the archive, flate2
  inflates its data).
- `text`, `order`, `keyed`, `error` – text, ordering and table helpers.

Laws that span several functions are public proof functions named `law_*`.
Among what the library guarantees:

- capability ids are never reused, a registered capability is found by its
  id until its generation is removed, and a removed generation is neither
  listed nor found;
- installed plugins are listed by id, then by root path compared component
  by component;
- an install that replaces a plugin root puts the old root back wherever the
  new one cannot be completed, and reports both failures where that fails
  too;
- a relative sidecar executable is looked for only inside its plugin's root,
  by the path rules of the platform;
- launches that differ only in the order of their environment share one
  process;
- a byte ring hands out what was written, in order, and never overwrites
  unread bytes.

`app/` is the ordinary Rust around the library: the file system, memory-mapped
rings and semaphores, processes, channel connections and threads. `tests/`
runs the library on concrete values.
