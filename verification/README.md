# rotor_redis

A client-side implementation of the Redis wire protocol, verified with Verus.

`src/` is the verified library:

- `message` decodes replies (`:` integers, `+` status text, `-` errors,
  `$` bulk strings) from the start of a byte buffer, with laws that bytes
  after a reply do not change it and that every incomplete reply asks for
  more input;
- `conversion` encodes commands as arrays of bulk strings into a netbuf
  `Buf`, and proves that a bulk string it writes decodes back to the same
  bytes;
- `decimal` and `search` hold the number spelling and byte search that both
  directions use, `text` the UTF-8 borrowing, `buffer` the output buffer;
- `port` and `proto` pair replies with the requests waiting for them and
  make the decisions of a connection: select the database, wait for its
  acceptance, send commands, and hand each decoded reply, together with the
  port of the oldest waiting request, back to the caller, refusing replies
  larger than the configured limit. Laws over whole runs of events state
  that the `i`-th reply goes to the `i`-th request and that the start-up
  only moves forward.

`app/` drives a connection on the rotor event loop with these decisions.
