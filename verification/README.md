# optique

Fast FreeBSD ports options / dependency configurator for poudriere, with its
logic verified by Verus.

`optique` scans the dependency closure of a list of ports in parallel, shows one
interface over all of them, and writes every options file in a single atomic
pass at the end.

- `src/` is the verified library. It reads make dumps, options files, MOVED,
  poudriere and synth configuration; it plans writes, syncs and cleanups; it
  runs the editing session; and it decides what every key does and what every
  line of the interface says. Each function states what it returns in terms of
  spec functions over sequences, sets and maps.
- `app/` is the program around it: arguments, files, processes, threads and the
  terminal.
- `tests/` runs the library on concrete values.

## How the library meets the world

The library does no I/O.

- A resolution takes a `World`, which remembers the paths it was asked about.
  The program looks up what is wanted and runs the resolution again until
  nothing more is asked for; the contracts say that the answer then no longer
  depends on anything that was not looked up.
- A scan is a state machine: it says which port to look up or that it waits for
  a query, and is told what came of it.
- A key press returns what is left to do: read the options files for a preview,
  write them, save a draft, quit.
- Time comes in as milliseconds, options files as a map by name, and the
  outcomes of writes as a list.

## What is proved beyond the single functions

Public proof functions named `law_*` state what holds across calls. Among them:

- rendering an options file and parsing it gives back what was rendered;
- a second sync has nothing to write and nothing to remove;
- a finished scan gave the whole closure: every root and every dependency, under
  its present name, was found or is reported as an error;
- toggling keeps groups satisfied and implied options on;
- a merge never discards a staged edit;
- a draft restores what was staged;
- the chain that explains a port is a shortest one;
- nothing is written unless the preview is on screen and confirmed, and staged
  edits are not dropped without being asked about;
- wrapped text fits its box and loses nothing but white space.

## What is taken on trust

Four items carry contracts that are not proved here: `String::push`, SHA-256
from `sha2`, the lower case of a text from the standard library, and the width of
a text from `ratatui`.
