# rbtl_steamsockets

A reliability layer over Steam networking sockets. Every message gets a sequence
id; reliable messages are acknowledged by the peer in the header of its next
messages, which also serve to measure the ping.

* `src/` is the verified library (Verus): the message header codec
  (`raw_msg`), the wrapping order of sequence ids (`common`), the ping tracker,
  the protocol state of a connection (`socket`), the listener's decisions
  (`listener`), the byte form of connection info and the error type. The set of
  awaited acknowledgements lives in a `hashbrown::HashSet` (`ack_set`).
* `app/` owns the Steam handles: it opens connections and listen sockets, polls
  messages and state changes and hands them to the library, and sends the bytes
  that the library prepares.
* `tests/` runs the library on concrete values.
