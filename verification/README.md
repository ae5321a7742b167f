# tc_otel

Telemetry intake for TwinCAT PLCs, verified with Verus: the AMS/ADS wire formats, the parsers
of log, registration, span and push-diagnostic messages, the router that answers every frame,
the dispatcher that matches requests and responses, the limits on connections, and the client
that polls symbols and keeps notification subscriptions.

## Layout

- `src/` is the library. Every function states what it returns for every input; the laws that
  span functions are the public proof functions named `law_..`.
  - wire formats: `wire`, `ams`, `frame`, `topics`, `ads_client`, `symbol`
  - messages: `reader`, `value`, `parser`, `protocol`, `models`; how messages stand in a buffer
    and what is read back of them: `encoding`, `message_laws`, `parser_laws`, `window_laws`,
    `buffer_laws`
  - diagnostics: `diagnostics`, `diagnostics_push`, `push_laws`, `diagnostics_observer`,
    `diagnostics_poller`
  - decisions: `router`, `registry`, `dispatcher`, `listener`, `connection_manager`, `transport`
  - health: `health_metrics`, `mqtt_health_metrics`
  - custom metrics: `config`, `custom_metric_notifier`, `custom_metric_poller`, `symbol_handle`
    and `client` with its symbol browser, cache, poller and notifier
  - helpers: `keymap`, `idmap`, `text`, `time`, `widen`, `error`, `fixtures`
- `tests/` runs the library on concrete values.
- `app/` is ordinary Rust around it: sockets, the MQTT client, clocks, channels and tasks.

## Conventions

Numbers with a fraction are kept by their bits (`Real`, `Lreal`) and ratios by their two
integers; `app/` turns them into floating point. Times are handed in by the caller, so that
each function is a function of its arguments. What is believed of the standard library and of
chrono is stated in `text` and `time` and nowhere else.
