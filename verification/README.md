# youtubeopen

Looks up videos, downloads them in the formats that a site offers, and merges tracks with pictures
and with sound into one file. The library under `src/` is written in Verus: what each function does
stands in its contract, and is proved.

- `boxes`, `merge`, `merger`: the boxes of MP4 data, merging two fragmented files on the server, and
  merging bytes in a browser
- `types`, `backends`: what the two backends report, and the choice between them
- `ytdlp`, `json`, `utf8`: the backend that runs an external downloader, and reading what it writes
- `innertube`, `player`, `thumbnails`, `search`, `plans`, `tokens`, `cookies`, `fetch`: the backend
  that talks to the site itself
- `routes`: what the server answers
- `page`, `sizes`: what the page in the browser shows
- `text`, `decimal`, `urls`, `formats`, `best`: text, numbers, addresses, formats, and picking from
  lists

What the library takes on trust of other crates and of the standard library stands in the few
functions marked `external_body`, each with a comment that says what is claimed.

`app/` is the program around it: the server, running other programs, fetching, JSON, and the
bindings for the browser.
