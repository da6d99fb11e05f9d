# otterwatch-mqtt

An MQTT broker for the OtterWatch monitoring system, built around the
rumqttd engine, with API key authentication, Prometheus metrics, a
management HTTP API and an optional cluster mode (group sharding, peer
health checks, retained message sync).

## Layout

- `src/` — the verified library (Verus). Every decision the broker makes
  lives here with its contract:
  - `auth` — API key hashing (SHA-256, hex) and validation.
  - `config` — configuration schema, defaults, source selection and validation.
  - `cluster` — node records and health, the cluster message set and its
    length-prefixed framing, the retained message store with MQTT topic
    matching, and the coordinator that handles every peer message, join,
    heartbeat, health check and group (re)assignment.
  - `broker` — the engine settings derived from the configuration.
  - `metrics` — folding the engine's meter reports into metric updates.
  - `api` — response bodies and the rebalance decision.
- `app/` — the binary: command line, reading the configuration file and the
  environment, JSON (de)serialization, TCP networking for the cluster,
  the HTTP server, the Prometheus registry and the rumqttd engine.
- `tests/` — tests of the library.
