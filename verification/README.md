# twitterapi_cli

A command-line client for the twitterapi.io service (search, user profiles,
followers, tweets by id, trends) with Markdown output and a local cache.

- `src/` is the library, with its contracts and proofs: Markdown rendering (`output`,
  `text`, `timestamp`), the cache's files, lifetimes and search keys
  (`cache`), the client's decisions (request spacing, retries, response
  checks, parameters, paging, trends; `api`), the commands' checks, steps and
  texts (`commands`), settings (`config`), the command line (`cli`), records
  (`model`) and errors (`error`).
- `app/` is the program around it: argument parsing, HTTP, files, JSON and
  printing.
- `tests/` exercises the library on concrete values.
