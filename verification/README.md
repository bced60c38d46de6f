# iyam_dsh

The desktop shell of DeepSeek Harness (DSH): it installs Node and DSH into the
DSH home, keeps DSH upgraded (staging, promotion, roll-back), starts the DSH web
server and heals failed starts by quarantining broken plugins, and previews
files for its web view.

- `src/` is the verified library (Verus). It holds every decision the shell
  makes: version order, the upgrade record's state machine, the start-up log
  grammars, plugin quarantine and reinstatement, the shell's JSON files (upgrade
  record, manifests, web profile, quarantine record) read and written from their
  text, install layout and launcher
  texts, child-process command lines, update scheduling, file previews, and the
  window and navigation policies.
- `tests/` exercises the library on concrete values, and checks the log
  grammars against the regular expressions that describe them.
- `app/` is the Tauri program around the library: commands, file and process
  I/O, network downloads, notifications and Windows APIs.
