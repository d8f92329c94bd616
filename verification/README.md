# kubevent

Kubevent filters Kubernetes events, converts them to CloudEvents and hands them
to event brokers. `Rule`, `Broker` and `RuleBinding` custom resources configure
which events reach which broker.

The library in `src/` is verified with Verus:

- `keyed` — `NameMap`, an insertion-ordered map keyed by names, with its
  sequence model and lemmas.
- `crd` — the resource specifications and their models.
- `resource` — the `ResourceProcessor` that records reconciled resources, the
  transition function `process_spec`, the state invariant, and the laws of
  processing (idempotence, lookups after processing, the effect of a binding,
  nothing is forgotten); the reconcile decisions of `ResourceController`.
- `event` — the fields of a Kubernetes event that handling reads, and the
  library's CloudEvent.
- `rules` — the built-in CloudEvent rule (with the CloudEvents SDK's builder
  behind a trusted wrapper) and the type rule.
- `brokers` — broker instances.
- `watcher` — `EventWatcher::handle_event`, which plans the deliveries of one
  event, its specification `plan_from`, and the laws of handling.
- `config` — configuration, command-line decisions, and the log level parser
  (the `log` crate behind a trusted wrapper).

`app/` holds the daemon and the command: Kubernetes watches and controllers,
the HTTP server, logging, console output, and the conversions between the
outside crates' types and the library's.
