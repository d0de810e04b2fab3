# ramag_tools

The logic behind the Redis and Git tool views of Ramag, written in Verus and
proved against its contracts.

- `src/` is the verified library. Redis side: the key tree and its visible
  rows (`key_tree`, `key_tree_view`), the command line (`cli`), key creation
  and the element forms (`key_create`, `forms`), key details and value
  display (`key_detail`, `value_display`), the monitor (`monitor`), Pub/Sub
  (`pubsub`) and the session tabs (`session`). Git side: history search
  (`vcs_search`), file tree (`file_tree`), diffs and hunk reverts (`diff`),
  file preview tabs (`vcs_files`), branch lists (`branches`), confirmation
  dialogs (`vcs_confirm`), repository operations (`vcs_ops`) and shared
  helpers (`vcs_common`). `text` holds the character-level primitives.
- `tests/` runs the library on concrete values.
- `app/` holds what stays outside the proofs: reading files from disk and
  the number formats computed on floating point.

Calls into `base64`, `flate2`, `serde_json`, `chrono` and a few `std` text
functions go through small trusted wrappers whose doc comments say what is
assumed of them.
