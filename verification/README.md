# dji_log_cli

The logic of the `dji-log` command-line tool (a front end of the `dji-log-parser` crate), as a
Verus-verified library, with the program around it in `app/`.

- `src/text.rs`: character-level helpers (whitespace, trimming, searching, decimal numbers).
- `src/api_key.rs`: reading `DJI_API_KEY` from `.env` contents; choosing among the command
  line, the environment and the `.env` file.
- `src/paths.rs`: JSON output paths, and the places where a `.env` file is looked for; the
  calls into `std::path` stand behind trusted wrappers.
- `src/output.rs`: the output plan (which inputs are decoded, into which files, which are
  skipped because their output exists) and its laws.
- `src/keychains.rs`: the keychain fetch as a state machine, with retries under the DJI Fly,
  DJI GO and DJI Pilot departments, and its laws.
- `src/report.rs`: the messages and reports that the tool prints.
- `src/run.rs`: a run over the planned files as a state machine that goes on past failures,
  reports each at once and again at the end, and its laws.
- `app/`: argument parsing, file-system and network access, decoding and exporting logs.
