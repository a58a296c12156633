# league_replay

The rules of a League of Legends replay archive, verified with Verus: which client
connection to trust, which matches belong to which player and region, how a match document
becomes a summary or a review, how sessions, backups, followed players and replay downloads
evolve, and how replay containers are inspected.

## Layout

- `src/` — the verified library. Each module states its rules as `requires`/`ensures`
  contracts over spec functions, and the properties that relate several operations as
  public proof functions (`lemma_*`).
  - `text`, `json`: characters, decimal text, ordering, and JSON documents as plain values.
  - `regions`, `lcu`, `sgp`, `windows`, `sample`: the local client's command line and
    samples, platforms and servers, and the match-history gateway's requests and answers.
  - `matches`, `projection`, `review`, `library`, `following`: match documents, history
    pages, reviews, the review library and followed players.
  - `observe`, `sessions`, `play`, `sync`, `schema`: recording play, editing sessions,
    paging and searching play history, and the archive database.
  - `merge`, `backup`, `stream`, `package`: user state merges, backup rows, backup streams
    and packages.
  - `rofl`, `files`, `queue`, `resume`, `install`, `discovery`, `playback`: replay
    containers, managed replay files, the download queue, resumed downloads, local game
    installations and playback.
  - `resources`, `desktop`, `ipc`, `domain`: the champion and item catalog, desktop
    preferences, error codes and shared types.
- `tests/` — tests that run the library on concrete values.
- `app/` — the command-line program around the library: process discovery, files, SQLite,
  JSON decoding and backup archives.
