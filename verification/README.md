# paramspider

Fetches the URLs that the Wayback Machine archived for a domain (or for each
domain of a list), drops static assets by extension, replaces every query
value with a placeholder, and saves the URLs that carry parameters under
`results/<domain>.txt`.

- `src/` is the verified library: text operations (`text`), what is read of a
  parsed URL through the `url` crate (`weburl`), first-occurrence
  deduplication (`unique`), URL cleaning (`url_clean`), the proxy, client and
  retry protocol of a fetch (`http`), the options (`cli`) and the work of a
  run (`app`).
- `app/` is the command-line program: argument parsing with clap, the HTTP
  requests, the waiting between retries, terminal output and the files.
- `tests/` runs the library on concrete values.
