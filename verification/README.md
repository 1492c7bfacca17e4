# shield_rpc

A shield in front of an Ethereum JSON-RPC node. Raw transactions
(`eth_sendRawTransaction`) are decoded; one whose recipient is on the alert
list, or whose recipient looks like an address the user sent to before
(same first and last hex digits, different address), is refused with a
JSON-RPC error. Otherwise the recipient is remembered and the request is
forwarded. Other calls are forwarded as they are.

Layout:

- `src/` is the verified library.
  - `encoding.rs`: hex, UTF-8 and whitespace-trimming specifications and the
    calls into `hex` and `std` that they describe.
  - `address.rs`: addresses, their stored text, reading it back, the
    look-alike test and the set of cached addresses.
  - `transaction.rs`: decoding a raw transaction to its recipient.
  - `alert_list.rs`: reading the tab-separated alert list.
  - `types.rs`: JSON-RPC requests and answers.
  - `shield.rs`: the per-request decisions as a state machine, and the
    properties of complete runs.
- `app/` is the server: warp, SQLite, HTTP forwarding, and the serde forms
  of the messages. It performs the actions that the library decides.
- `tests/` runs the library on concrete values.
