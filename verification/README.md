# LinuxSCP

A commander-style SFTP client for GNOME on top of the system OpenSSH. Its core
is a library verified with Verus: what a function returns or changes is stated
in its contract, over plain mathematical values, and proved.

- `src/` is the library. `text`, `paths`, `sizes` and `types` are the ground;
  `fsops`, `walks`, `scanning`, `copying`, `jobs` and `transfers` decide what is
  done to files, step by step; `settings`, `tree` and `tree_laws` hold the saved
  sites; `ssh` reads the configuration, speaks with the askpass helper and
  bootstraps elevated sessions; `ui` says what the windows show and do.
  Laws that hold across functions are the public proof functions whose names
  begin with `law_`.
- `app/` is the program around it: GTK windows, tokio tasks, SFTP, the keyring
  and the settings file. It performs what the library asks for, and hands back
  what came of it.
- `tests/` runs the library on concrete values.

A few functions of outside crates and of the standard library are taken at
their word. Each stands behind one item whose doc comment says what is claimed
of it: `shell_words::split` and `quote`, the file type of `russh_sftp`, random
ids of `uuid`, and from the standard library appending a character,
lower-casing, lossy UTF-8, the components of paths, and hashing of text.
