# webserver

A static-file and reverse-proxy web server configured by `webconfig.toml`,
with plugin calls into dynamic libraries and hot reload of watched folders.

- `src/` is the verified library (Verus): configuration types, the routing
  plan built from the configuration, path rewriting for proxies and `.aspx`
  requests, query and plugin-path parsing, response headers, error answers and
  the hot-reload decisions. Its contracts and laws are checked by Verus.
- `app/` is the program around it: argument parsing, reading and parsing the
  configuration file, building the `axum` router from the plan, the file
  watcher, the WebSocket loop, signals and loading plugin libraries.
- `tests/` exercises the library on concrete values.
