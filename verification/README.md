# rustic_faults

Fault injection for a backup repository: backends in memory, faults in their calls, random plans of
faults and steps, and the checks of what a repository must give under these faults. It also holds
the parts of a repository that the faults reach: the cache, the index and the archiver.

## Layout

- `src/` is the library. Each function states what it gives, and Verus proves it.
- `tests/` runs the library on concrete values.
- `app/` is ordinary Rust around the library: files, processes, threads, mounts and the log. It runs
  the scenarios against a type that implements its trait `Repository`.

## Modules of the library

| Modules | Content |
| --- | --- |
| `id`, `file_type`, `error`, `text`, `paths`, `sorted`, `tree_path` | Values and their texts |
| `buffer` | Buffers of the crate `bytes`, with the contracts that the proofs rest on |
| `backend`, `in_memory`, `fault` | Backends, and faults in their calls |
| `cache`, `cached` | The files of a cache, and a backend with a cache |
| `index`, `archiver` | The index of the blobs, and the decisions of a backup |
| `rng`, `tree_spec`, `plan` | Pseudo-random contents, trees, fault plans and cases |
| `model`, `state`, `coverage` | The tree that a restore must give, the checks of a case, and its counts |
| `fixtures`, `counters`, `scenarios`, `logging`, `volume`, `runner` | The scenarios and their runner |

A function whose work needs a file, a clock or a thread is split into steps: the library gives the
next step and takes its outcome, and `app/` performs the step.

Public proof functions whose names begin with `law_` state what holds of several functions together.
