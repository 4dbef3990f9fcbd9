# GatePup

Tiny watchdog for your web traffic: a reverse proxy whose rules are verified with
[Verus](https://github.com/verus-lang/verus).

## Layout

- `src/` is the library. It holds every decision of the proxy: which config is in force
  and what is wrong with it, which route and target a request takes, who is turned away,
  what is retried, how headers and paths are rewritten, when a target counts as healthy.
  Each function states what it returns in `requires` and `ensures`, and Verus proves it.
- `app/` is the program: command line, files, sockets, TLS, signals and logs. It takes
  what the library decides and carries it out.
- `tests/` runs the library on concrete values.

## Laws

Beside the contracts of single functions, the library proves what holds across them, as
public proof functions. Some of them:

| Law | Module |
|---|---|
| A full cycle of picks gives each healthy target its share | `schedule`, `upstream` |
| A retry goes to another target, while one in the schedule is healthy | `proxy` |
| A request is sent at most as often as its policy says; timeouts are never retried | `proxy` |
| The most specific route wins | `router` |
| A stripped path stays rooted and keeps its query | `router` |
| Hop-by-hop headers stay behind, all others pass | `rewrite` |
| A client passes no more than burst and rate allow | `rate_limit` |
| A target is ejected and recovers exactly at its thresholds | `health` |
| A header cannot override the address of an untrusted peer | `request` |
| Reloads are counted and shown by their outcome | `metrics` |
| A config without problems builds, and its routes lead to targets | `snapshot` |
| A config from usable environment variables has no problems | `resolve` |
| The admin token guards everything but `/health` | `admin` |

The laws on picks leave out the one pass in which the round-robin counter runs over.

## What is trusted

Calls into other crates (`http`, `url`, `ipnet`, `base64`, `prometheus`,
`rustls-pemfile`, `serde_json`) and into the system clock stand behind small functions
marked `external_body`, each with a comment that says what is taken from the crate. The
proofs rest on those statements.

## Usage

```bash
gatepup run          --config ./config.json
gatepup validate     --config ./config.json
gatepup print-config --config ./config.json
```

Without `--config` the configuration comes from `GATEPUP_*` environment variables.
