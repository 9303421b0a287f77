# rustysync

RustySync runs rsync and lowers its bandwidth when the destination's write
latency rises. This crate holds its decisions as a verified library, and a
thin program around it.

- `src/` — the library, verified with Verus:
  - `text`: whitespace, words, lines, trimming and decimal integers with the
    meaning of Rust's `str` methods and `FromStr`;
  - `probe`, `topology`, `launch`, `nvme`: reading `/proc/diskstats` rows,
    `zpool status -LP` reports, rsync progress records and sensor text;
  - `latency_control`, `fleet`: each drive's FAST/SLOW latch, the pool
    decision, the canary and the bandwidth limit;
  - `assessment`, `state`: burst assessment and recovery pacing;
  - `preflight`: the startup answers and the remembered last run;
  - `algs`, `observe`, `log`, `types`: counter deltas, which measurements
    an observation lacks, the verdict on missing
    measurements, and the shared types.
- `app/` — the program: prompts, files, processes, signals (through `nix`),
  and the floating-point measurements (smoothed latency, slope, rates,
  CSV and console formatting) that feed the library's decisions.
- `tests/` — tests of the library on concrete values.
