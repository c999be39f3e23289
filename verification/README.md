# dlsrv

A self-hosted download server: it takes URLs, magnets and `.torrent`
links, hands them to aria2 or yt-dlp, follows their progress, sorts
finished video files into a media library, polls RSS feeds and answers a
qBittorrent-compatible API for other tools.

## Layout

- `src/` is the library, written in Verus. Every function in it carries a
  `requires`/`ensures` contract that Verus proves:
  - `router` decides which back end downloads a URL and which URLs are
    accepted.
  - `manager` is the task state machine: starting, falling back from
    aria2 to yt-dlp, pausing and resuming, and applying what a poll of
    aria2 reports, including the magnet hand-off and seeding.
  - `aria2`, `ytdlp` and `version` cover the two back ends: their options,
    yt-dlp's progress lines and version checks.
  - `organize` and `filename` name files: parsing release names, TMDB
    matches, destination paths and safe file names.
  - `config`, `store`, `api`, `qbit` and `rss` hold the settings, the
    records, the rate limiter, the qBittorrent emulation and feed
    handling.
  - `text` and `paths` are the character and path models the contracts
    are written in.
- `app/` is ordinary Rust around the library: the HTTP server, SQLite
  storage, the aria2 RPC client, running yt-dlp, TMDB and Jellyfin calls
  and the background loops. It performs the actions that the library
  decides on.
- `tests/` runs the library on concrete inputs.

Calls into outside crates that the library makes (URL parsing, hashing,
base64, regular expressions, RSS parsing, random numbers) go through small
wrappers whose contracts state what those crates document.
