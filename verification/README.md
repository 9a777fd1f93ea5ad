# Sentinel

Alerting and console logic for a Monad validator node, with contracts checked
by Verus.

- `src/` is the verified library: the alert state machine and the rule engine
  (suppression between rules), the Prometheus text reader, the RPC reply
  reader, the notification text and retry schedule, and the console's
  decisions: sessions, login throttling, CSRF, TOTP (with replay protection and
  lockout), the restart gate with its audit rows, the read endpoints'
  parameters, the version guard, and the probe output readers.
- `app/` is the program around it: configuration files, HTTP (axum), SQLite,
  processes, the network, and the floating-point measurement of rule
  conditions.
- `tests/` exercises the library on concrete values.
