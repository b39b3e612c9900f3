# qualisys

A client library for the Qualisys Track Manager (QTM) real time protocol,
verified with Verus. It speaks RT protocol 1.28 and negotiates down to 1.22.

## Layout

- `src/` is the verified library. It holds every decision a connection
  makes, each with a contract:
  - `cursor`: bounds-checked reading of little- and big-endian fields.
  - `components`: the decoders of every data component QTM streams.
    Single precision floats are kept as their 32 bit patterns.
  - `packet`: packet framing and decoding, data frames and their accessors.
  - `commands`: command texts, the replies that acknowledge them, and how a
    reply is judged.
  - `protocol`: configuration, the version ladder and its negotiation, the
    connection's state, packet size checks and read failures.
  - `discover`: the discovery request, parsing of server responses, and the
    list of servers found.
  - `error`: the error type and its messages.
  - `simple`: a minimal client that only waits for QTM's welcome.
  - `packets`: fixed-size records read from raw bytes.
  - `text`, `records`: text building and the framing of repeated records,
    with the lemmas the proofs use.
- `app/` is the command line client and the socket side of a connection:
  TCP and UDP I/O, timeouts, logging, and floating point views of the
  decoded values.
- `tests/` runs the library on concrete values, including connection
  scenarios against a scripted QTM.
