# ytdlp_ui

The backend of a desktop front end for the `yt-dlp` video downloader, as a
Verus-verified library (`src/`) and the application code around it (`app/`).

## Library modules (`src/`)

- `text`: searching, splitting, trimming and replacing text, specified over
  the characters of a string.
- `number_literal`: the grammar of decimal number literals that the standard
  library's real-number parser accepts, and a recognizer proved against it.
- `decimal`: decimal text of integers.
- `whole_number`: the whole part of a decimal number text (as JSON writes
  numbers), held to the range of `i64`.
- `progress`: the downloader's arguments, and reading its output: progress
  lines, the destination line, and the outcome of a finished download.
- `queue`: the download queue, the status rules of its tasks, and the
  downloads running within the concurrency limit.
- `history`: the download history (list, search, delete).
- `cookies`: browser cookie export: install layouts, the key in "Local
  State", cookie values (AES-256-GCM), the debugging protocol's replies,
  timestamp conversion and the Netscape cookie file.
- `crypto`, `ids`: the calls into `base64`, `aes-gcm`, `uuid` and `chrono`;
  `serde_json` is called from `cookies`.

## Application (`app/`)

Command handlers, the background download runner (one task per running
download, up to the limit), the downloader process,
history persistence, cookie database access (SQLite, DPAPI) and the
debugging-protocol client. Events go through the `EventSink` trait, which
the window shell implements.
