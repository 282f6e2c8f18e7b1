# pt_rs

Scrapes the torrent listings (`torrents.php`) of NexusPHP private trackers into the
`resources` table of an SQLite database (`./data/pts.sqlite`), keeping one row per torrent.

- `src/` is the library, verified with Verus: reading a listing page (`table`, `parse`, on a
  page parsed by scraper in `dom`), sizes held exactly in gigabytes (`size`), the SQL text that
  keeps the table and the reading back of its rows (`db`), the plan that leaves one row per
  torrent (`upsert`), the walk over the listing pages (`scheduler`), the retry decision of a
  fetch (`client`) and the sites themselves (`ptsite`).
- `app/` is the command line program: HTTP with reqwest, SQLite, files and the main loop.
- `tests/` runs the library on sample pages and on an in-memory SQLite database.

Usage: `pt_rs <site> sample [name] [--url URL]` saves a page; `pt_rs <site> scrape START END`
reads the listing pages START..=END. Cookies are read from `./config/<site>.cookies`.
