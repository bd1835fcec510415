# feed_rs

A news feed bot: it reads a few news sites and a subreddit, keeps the
articles it has seen in one YAML file per source, and announces new
articles on a Discord webhook.

The library under `src/` is verified with Verus:

- `text` — string and character helpers (trimming, tokens, searching,
  decimal numbers) with their specifications;
- `dom` — an HTML document as a flat list of nodes in document order, and
  the queries the sources make on it (elements by name, texts, attributes,
  classes, parents);
- `dates` — calendar dates and the calls into `chrono`;
- `source` — entries, the date-grouped entry store, the `Source` trait
  (new entries, what a commit stores) and one module per source;
- `integrations::discord` — the messages sent to Discord, including the
  ranked, five-to-a-message summary;
- `fetch` — the rule for asking a page again after a failed answer.

`app/` holds the program: arguments, HTTP requests, files and the serde
copies of the library's types.
