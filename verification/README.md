# vector

The verified core of a pipeline for logs, metrics and traces. `src/` is a Verus
library: its functions carry contracts, which Verus proves but for the wrappers
below. `app/` is a small program around it that reads files, watches them, and
moves events through channels.

## What is in the library

- `event`: log entries, measurements and trace spans, with their metadata and
  the duty to report what became of them; the data and times they hold; batches
  of events of one type; what a program of a condition sees of an event.
- `transform`: the output buffers of transforms, and what is sent downstream.
- `transforms`: conditions, `filter` and `route`, and what the text of a
  condition's program tells of it: whether it always comes to an end.
- `source_sender`: cutting events into batches, marking them with the output
  they leave through, and counting those that were not sent.
- `config`: from what configuration files say to a validated configuration.
  Variables and patterns are replaced, names, shapes, resources, outputs and
  values are checked, inputs are resolved to outputs, and the graph is checked
  for types and cycles. Also: what differs between two configurations, which
  paths are read, how files are watched, and whether disk buffers have room.
- `sinks`, `sources`, `configurable`: what the sinks decide, and how types
  describe themselves.

## Laws

Properties that span several functions are public proof functions next to the
functions they are about, such as `valid_configurations_compile`,
`flipping_twice_undoes`, `event_goes_where_conditions_are_met`,
`batches_send_all_events` and `no_change_is_lost`.

## What is trusted

Calls into `indexmap`, `glob`, `serde_json`, `chrono`, `regex`, `vrl` and a few
functions of the standard library go through small wrappers marked
`external_body`. The comment above each says what is claimed of the function
behind it.
