# Syncthing Select Sync

Select Sync lets a Syncthing user keep only chosen files and folders of a
shared folder on a machine. A server lists what each account may see; a
client, running next to the local Syncthing, keeps the selection, writes the
folder's `.stignore` from it and leaves placeholders for what is not kept.

## Layout

- `src/` is the library, verified with Verus:
  - `text.rs`: character-level text operations (search, trim, replace,
    decimal numbers) with their specifications.
  - `common.rs`: answer statuses and setting updates shared by both sides.
  - `server/`: accounts (salted password hashes), sessions, access rules of
    every endpoint, the HTML of the home page, the folder index schedule and
    the reading of Syncthing's `config.xml`.
  - `client/`: the selection (child and parent paths, consolidation), the
    `.stignore` text, the order of the folder browser, and the decisions
    about placeholder files.
- `app/` holds the two programs around the library: the HTTP servers, the
  SQLite databases, the requests to Syncthing, file-system watching and the
  Windows file attributes. Run it with no argument for the server and with
  `client` for the client.
- `tests/` exercises the library on concrete values.
