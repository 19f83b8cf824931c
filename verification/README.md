# swanling

Verified core of the Swanling load-testing tools, written in Verus.

- `src/search.rs`: the `grrs` search. `find_matches` appends to a byte
  buffer every line of a text that contains a pattern, each followed by
  `\n`; lines are cut as `str::lines` cuts them.
- `src/search_laws.rs`: laws of the search (lines never hold `\n`, output
  read back gives the matching lines, searching the output again changes
  nothing, the search works line by line over joined texts, the empty
  pattern matches every line, a final `\n` is optional).
- `src/cli.rs`: the `grrs` command line, parsed by clap, with the check
  that the pattern is not empty.
- `src/calibrate.rs`: the guard that launches a calibration server once,
  thread counts per CPU, and the to-do payloads.
- `src/signals.rs`: what `regatta` reports on each signal and when it
  exits.
- `app/`: the programs and I/O around the library (file reading, stdout,
  hyper servers and client, the request benchmark, signal streams, serde
  copies of the payloads).
