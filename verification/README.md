# ublock_installer

A small Windows installer that puts uBlock Origin Lite into Chrome (through
the `ExtensionInstallForcelist` policy key under HKCU) and opens full uBlock
Origin's add-on page in Firefox, and that takes both out again.

The decisions are a verified library (`src/`):

- `text` — whitespace, trimming, line splitting, substring search, `u32`
  parsing and decimal formatting, stated over `Seq<char>`.
- `forcelist` — reading what `reg query` lists for the policy key, choosing
  the slot to write or the value to delete, and the `reg` command lines.
- `listing` — what `reg query` prints, and the laws tying reading a listing
  to installing and uninstalling: no value is overwritten, and uninstall
  undoes install for any key whose values print on lines of their own, whose
  names hold no `REG_SZ`, and none of whose data reads back, trimmed, as the
  entry.
- `browsers` — the search for Chrome and Firefox below the install roots.
- `session` — one install or uninstall run as a state machine from result to
  next piece of work, with its laws (every run ends, success needs a browser,
  a run without Chrome never acts on Chrome).
- `installer` — the window's state: console lines, run outcome, what the
  window shows.

`app/` is the window (egui), the commands and the background thread.
