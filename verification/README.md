# qbit_controller

A controller that keeps qBittorrent's torrents tagged, limited and
categorised according to a YAML configuration. The decisions are made by a
library verified with Verus; a small program around it talks to qBittorrent's
Web API, reads the configuration and logs.

## Layout

- `src/` — the verified library.
  - `text.rs`: characters and strings — white space and trimming, splitting
    into fields, substring search, the order of strings, joining, decimals.
  - `tags.rs`: tag lists read (`parse_tags`) and written
    (`sorted_tags_string`), with the laws that tie the two together.
  - `duration.rs`: durations such as `30d` or `1w3d2h32m`.
  - `config.rs`: the configuration, and the `IndexMap` operations it relies on.
  - `qbit_api.rs`: torrents, trackers and limits as the Web API reports them;
    the base URL (parsed, and joined with the API paths, by `reqwest::Url`)
    and the login reply.
  - `processes/`: one module per process — `share_limits`, `tracker_tags`,
    `tag_names`, `cat_moves` — plus what they share (`common`), the run
    counts and summary (`stats`), which processes run and in what order
    (`steps`), the changes sent to qBittorrent, none of them in a dry run
    (`requests`), and the law that a dry run decides as a live run does
    (`dry_run`).
- `app/` — the program: configuration file, HTTP client, logging, and the
  loops that carry out what the library decides. Floating-point ratios stay
  here; the library receives the comparisons it needs as booleans.
- `tests/` — tests of the library on concrete values.
