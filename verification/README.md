# Mousehole

Mousehole keeps MyAnonamouse (MAM) informed of the address that a seedbox or
VPN client is seen under. It contacts MAM at a fixed interval, stores what came
of it in one JSON file, and serves a small HTTP API and web page by which the
MAM cookie is set and the last contact is shown.

`src/` is the library: everything that Mousehole decides, with contracts that
Verus proves.

| Module | What it holds |
|---|---|
| `config` | environment variables, credentials, startup checks |
| `logger` | log lines and levels |
| `boundary` | host, authentication, origin and content type checks |
| `session` | login sessions and their cookies |
| `sse` | who is told of changes |
| `mam` | requests to MAM and what its answers mean |
| `scheduler` | the contact loop |
| `state` | the state file, its migration, and the state as clients see it |
| `api` | what each route answers |
| `assets` | which file of the web bundle is served |
| `error` | the error catalogue and its JSON envelope |
| `startup` | banner and health probe |
| `timefmt`, `json`, `number`, `numeral`, `text`, `call` | timestamps, documents, doubles, how numbers are spelled, texts, and calls that rest on the world outside |

Laws that span several functions are the proof functions named `law_*`.

`app/` is the program around it: environment, files, network, timers and output.
`tests/` runs the library on concrete values.
