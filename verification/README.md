# jarvis_core

The core of a voice assistant: command packs, recognising what a spoken phrase asks
for, and the decisions around running commands, speaking and recording.

- `src/` is the library, verified with Verus. Each public function states in its
  contract what it returns; the laws of the library are public proof functions
  (`law_*`) next to the functions they speak of.
  - `text`: whitespace, trimming, splitting, searching on characters.
  - `command`: commands, packs, lookup by id.
  - `legacy`, `packs`: the legacy `command.yaml` format and assembling the packs found
    on disk.
  - `mental_math`, `fuzzy`: recognising arithmetic, the fuzzy-match candidates and the
    choice among their scores.
  - `hashing`: the order-independent fingerprint of the commands (SHA-256).
  - `exec`, `speech`, `recorder`: what running a command, speaking and recording
    decide.
- `app/` is the code around it: reading files, parsing TOML and YAML, scoring
  similarity (floating point), spawning processes, and the microphone device.
- `tests/` runs the library on concrete values.
