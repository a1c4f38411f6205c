# url_launcher

The core of a desktop URL launcher (a tray-resident panel that opens saved
links), written in Verus with its behaviour stated as contracts and proved.

- `src/` — the verified library: URL normal forms (`normalize`), the
  `http`/`https` safety check (`error`), global-shortcut validation
  (`shortcut`), Netscape bookmark and page-metadata reading (`html`), drop
  resolution (`dragdrop`), favicon helpers (`fetch`), import planning and
  backup reading (`import`), settings rows and search patterns (`repo`), and
  the argument checks of the user-facing commands (`commands`). Calls into
  `url`, `regex`, `scraper`, `base64`, `percent-encoding`, `sha1`, `uuid` and
  `chrono` go through small trusted wrappers whose contracts are documented
  where they stand.
- `tests/` — tests of the library on concrete values.
- `app/` — the unverified shell: SQLite storage (`rusqlite`), HTTP fetching
  (`reqwest`, `tokio`), file reading, JSON forms (`serde`), and a `Desktop`
  trait for the windowing services the GUI toolkit provides.
