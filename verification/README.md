# Codex Usage Monitor

A desktop monitor for the Codex limits of several ChatGPT accounts. Each account
has its own home directory for the official `codex app-server`; the monitor asks
that service for the account and its limits, keeps the last answer, and can give
the Codex desktop application the credentials of another account.

## Layout

- `src/` is the library. The decisions stand there, verified with Verus, but for
  those that need floating point or serde's defaults:
  - `text`, `paths`, `time`, `ids`, `json`: texts, paths, points in time,
    identifiers and JSON values.
  - `logging`, `error`: what is told, without anything confidential.
  - `protocol`, `app_server`, `rate_limits`: the conversation with the service
    and what its answers say.
  - `account`, `storage`: accounts and the configuration.
  - `account_switch`, `desktop_host`, `worker`: whose credentials are whose, how
    the desktop application is ended and started again, and how work goes on.
  - `codex_locator`: where the program of the service is looked for.
  - `app`, `ui`: the state of the application, and what its window says and offers.
- `app/` is the program around the library: the window, the threads, files,
  processes and the network. What remains of a used percentage, and its colour,
  are computed there. So is the step between the configuration and its JSON, with
  the value that each missing field has.
- `tests/` runs the library.
