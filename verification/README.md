# katana_messaging

The messaging service of a local chain that relays messages to and from its
settlement chain (Ethereum or Starknet), as a verified library.

- `src/service.rs`: the service's state machine: when a tick starts gathering
  or sending, and how the gathering and sending cursors move when that work
  ends.
- `src/gather.rs`: what a gathering round does with the L1 handler
  transactions it received: which go to the pool, and what is recorded in the
  configuration file.
- `src/send.rs`: the messages a local block sends, and what a sending round
  reports and records.
- `src/config_file.rs`: the edits of the JSON configuration file, through
  `serde_json`.
- `src/sent_log.rs`: what is logged of the messages sent.
- `src/hash.rs`: 32-byte hashes.

`app/` holds the runtime around it: the timer, the chains, the pool, the file
I/O and the logs.
