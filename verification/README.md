# aegisone_agent

An on-device ransomware detection and response agent whose decision logic is a Verus
library with proved contracts.

- `src/` — the verified library:
  - `detection/` — indicator tables and matchers (`patterns`), the per-process scoring
    engine (`scorer`), canary bookkeeping (`canary`) and the path filter and event
    kinds of the file watcher (`watcher`);
  - `response/` — the response orchestrator (`Responder`), the process table as `ps` prints
    it and the kill order of a process tree (`kill_switch`), and firewall rule commands
    (`network_block`);
  - `snapshot/` — `vssadmin` commands and output parsing, shadow-copy retention, and rollback
    bookkeeping;
  - `report/` — the `{{variable}}` template engine, the Markdown incident report and the
    prompt for a local language model;
  - `text`, `num` — character-sequence and decimal/UUID text helpers the rest is built on.
- `app/` — the program around it: command line, configuration file, tokio tasks, the
  `notify` watcher, process and firewall commands, file copies, HTTP, and Shannon entropy.
- `tests/` — tests of the library.

Rates and entropies are integers in thousandths inside the library; the configuration
file keeps floating-point values and the application converts them.
