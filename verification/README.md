# dsh_desktop

The plugin store, version and path logic of the dsh desktop shell, as a
Verus-verified library, with a thin unverified layer for files, processes,
HTTP and JSON.

- `src/` — the verified library. Its contracts are stated over `Seq<char>`
  views of the strings involved:
  - `text`: the `str` operations the parsers use (trim, split, search,
    replace, integer parsing and rendering);
  - `version`, `ranking`: the semver shape test, the version ranking (a
    total preorder) and the newest-tag pick;
  - `install_spec`: install requests (npm names, git URLs, `owner/repo`)
    and filesystem-safe store ids;
  - `paths`: the data layout (store, kernels, profiles, logs) and the
    relative paths written into dependency specs, which lead back to
    their targets; separators are the host's, as `std::path` reports them;
  - `store`, `ops`: the plugin inventory and what install, update,
    uninstall and mode switches do to it;
  - `fetch`, `package`, `materialize`: choosing what to fetch, swapping a
    fetched copy into the store without losing the installed one, the load
    contract a plugin must meet, and materializing plugins into kernels;
  - `manifest`, `wiring`: reconciling a profile's `package.json` with the
    store, and the pnpm install around it (with the rollback of the
    manifest when the install fails);
  - `status`, `updates`, `catalog`, `node`, `process`, `commands`, `clock`,
    `settings`, `error`: the UI snapshot, update checks, the community
    catalog, the Node.js runtime, `PATH` merging and the UI commands.
- `tests/` — tests of the library on concrete values.
- `app/` — the I/O around it: reading and writing JSON, spawning git, tar
  and pnpm, HTTP fetches, symlinks and copies.
