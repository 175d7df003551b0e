# scada

A SCADA poller for Modbus RTU devices reached over UDP gateways, and a
simulator of such a device, with their logic verified by Verus.

## Layout

- `src/` — the verified library.
  - `crc`, `modbus`: CRC-16, RTU request framing (with the extended unit
    address encoding), the 22-byte UDP header, splitting of received
    packets into RTU frames, grouping of frames into packets.
  - `imm`, `listener`, `exchange`: the simulated device (register files,
    request handling, ring archive), its UDP listeners and packet
    handling, and the laws tying the poller's requests to the device's
    answers.
  - `reg`, `poll_plan`, `service`, `support`, `post_cmd`: registers, read
    planning, batches of requests and their answers, packet ids and
    sequence numbers, log rows, device commands posted by scripts.
  - `queue`, `tasks`, `task_sync`, `worker_state`, `alarm`, `topology`,
    `rv_cache`, `db_batch`: the scheduler's job queue, periodic dispatch,
    task generations, index quality, no-response backoff, latency
    histogram, diagnostics rate limit, alarm debouncing, protocol lookups
    and script bindings, the runtime value cache lookup, coalescing of
    state writes and retention cleanup batches.
  - `amode`, `merge`, `kpz_sync`: the decisions of an A-mode poll (group
    split, glued read plan, answer check, registers of a block, archive
    once), merging a worker's results into the scheduler's state (stale
    results dropped), and applying the `kpz` table to the tasks.
  - `conn`, `db_model`, `config`, `mqtt`: table rows and connection data,
    runtime settings, configuration resolution, MQTT settings and filters.
  - `lexer`, `script`, `program`, `text`: the script tokenizers and
    built-ins on register words; parsing of expressions and statements
    and their compilation into machine instructions, with the keys a
    script reads; text helpers.
- `tests/` — tests of the library.
- `app/` — the command-line program: the device simulator (`sim`), the
  server's resolved settings (`config`) and a small poller (`poll`); it
  does the I/O, the clock and the floating-point arithmetic.
