# winperf_relay

A relay for Windows performance metrics. Messages arrive on a named pipe, wait in
a redb table, and leave in batches over HTTP.

- `src/` is the verified library: what the relay decides. It never waits and
  touches no file or socket.
  - `record`, `clock`, `bytes`: queue keys and values, and arrival stamps
  - `ingest`, `egress`, `disk_guard`, `startup`: the tasks, as state machines
  - `intake`: ingestion over a store, and what it promises of the records in it
  - `relay`, `delivery`, `ordering`, `drain`: the tasks around one queue, and what
    they promise together
  - `audit`, `text`: audit records
  - `config`: the configuration
- `app/` is the program: it performs what the library asks for.
- `tests/` run the library on concrete values.

While the server takes what it is sent and removals take effect, the queue drains,
and messages leave in the order in which they arrived. A message leaves the queue
only after the server has answered a request that carried it with a 2xx status. A
removal that fails sends the batch again: delivery is at least once, and still no
message is sent before one that the queue took earlier.

Keys are made of the system time, and a restart starts the clock anew. So, besides a
run of fewer than 2^64 messages, this takes a clock that goes forward over a restart:
the first message after it must be stamped with a time strictly later than that of
every message still in the queue. At a time equal to one of theirs it can get the
same key, and then replaces that message unsent. At an earlier time it is sent before
them, and a later one may still meet one of their keys.
