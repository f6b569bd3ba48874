# weasel_vision

The logic of WeaselVision, a configuration tool for the Rime input method
(Weasel on Windows, Squirrel on macOS), as a library whose behaviour is
stated in contracts and proved with Verus.

- `src/rime/`: the model of Rime's YAML documents (`yaml`), the patch
  language of `*.custom.yaml` files (`patch`: slash paths, `__delete__`,
  `__append__`, merging), colors and color schemes, schemas, grammar models,
  the layout of the user directory (`config`), and the rules for timestamped
  backups.
- `src/commands/`: what each command of the tool reads from and writes to
  the patches and the user dictionary snapshots: styles, schemas, key
  bindings, punctuation, general settings, grammar mounting, dictionaries,
  backups and sync.
- `app/`: the file system, YAML text, clocks and the input method's own
  programs around the library.
- `tests/`: the library's tests.

The public proof functions state the library's laws: what a save reads back
as, what a mount, an update or a deletion leaves in place, and what merging
a patch does.
