# MinIO Drive

A tray application that mounts MinIO buckets as local drives through rclone.

- `src/` is the verified library:
  - `model` – connections, buckets, mounts, mount and cache settings;
  - `state` – the application state (saved connections, the selected one, the mount
    table, the rclone process of each bucket) and its commands; its invariant keeps
    buckets and drives apart and holds a process only for a mounted bucket;
  - `process_table` – one rclone process per bucket, as a map;
  - `drives` – quick mount: which buckets still need a drive and which letters they get;
  - `rclone` – rclone command lines and what their results mean;
  - `connstr` – quoting values in rclone connection strings, and reading them back;
  - `listing` – bucket names out of `rclone lsd` output;
  - `monitor` – the watch over a running mount, as a state machine with its laws;
  - `tray` – the tray menu, its tooltip, and what a click asks for;
  - `logfile` – the name of a day's log file;
  - `text` – character helpers.
- `app/` is the Tauri program around it: window commands, files, the credential store,
  the rclone sidecar, the tray.
- `tests/` runs the library on concrete values.
