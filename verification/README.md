# frpc-client-app

The rules of a desktop client for [frp](https://github.com/fatedier/frp) tunnels, verified with
Verus: workspaces and their settings, the TOML configuration and its quick form, the services
that run for the proxies, their logs, the installed runtimes and the archives they come in.

- `src/` is the library. Its public functions state in their contracts what they return or
  change. Where that depends on the clock, the time zone or the platform, they state what holds on
  every machine. The functions whose names begin with `law_` state what holds of several functions
  together.
- `tests/` runs the library on concrete values, with the crates it calls.
- `app/` is the application around it: files, processes, downloads and the window.

What the library calls in other crates (`toml`, `zip`, `tar`, `flate2`, `chrono`) and in `std`
stands behind small functions whose contracts are believed, not proved. Each says in its comment
what is claimed.
