# discord-urls-extractor

Extracts URLs from Discord scrapes (Discord History Tracker databases, discard2
recordings, DiscordChatExporter exports, plain text) and keeps the list of URLs that
are already known, so that a URL is not extracted twice.

- `src/` is the verified library: where the URLs sit in the scraped data, which of
  them are new, and how the known URLs are stored one per line. Verus proves every
  function there against its contract, except the few small trusted wrappers around
  regex, tinyjson and std, whose contracts are believed.
- `app/` is the program around it: the command line, reading the scrape (files,
  SQLite), and writing `urls.url` and `ignores.url`. Called as
  `dht_urls_extractor`, it runs the attachment importer for DHT databases.
- `tests/` runs the library on concrete scrapes.
