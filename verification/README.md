# ruvsim

Control of ModelSim/Questa simulations: compiling HDL sources, starting a
simulation, reading its transcript, and reading and forcing signals,
breakpoints and memories. The library is written in Verus: each function
states its behaviour in `requires`/`ensures`, and Verus proves it.

## Layout

- `src/` — the verified library.
  - `sim_types` — transcript lines and their classification, signals,
    drivers, bounds, memories, values in a radix.
  - `sim_parser` — the simulator's output cut into lines, classified, and
    searched for prompts.
  - `sim_ctl` — the command channel (`command_ctl`) and the controllers of
    signals, breakpoints and memories: the commands they send and what they
    make of the answers.
  - `sim_compiler`, `sim_runner` — the options of a compilation and of a
    simulation run, and the program calls and commands they turn into.
  - `api` — the rules of the web service: what requests name, how answers
    show values, and which source paths are accepted.
  - `python` — the names the Python interface accepts and shows, and its log
    searches.
  - `text`, `scan` — character-level helpers with their specifications.
- `app/` — the process, file-system and network side: starting the
  simulator and the compilers, the web service (axum) and the Python
  interface (pyo3). It calls the library for every decision; before a
  library call with a precondition it checks that precondition (through the
  library's own check, such as `MemCtl::write_allowed`, where there is one)
  and panics where the original program panicked.
- `tests/` — tests of the library's public functions.
