# Arifa

A realtime publish/subscribe engine on Redis for applications that run on several nodes. Its
decisions are written in Verus, each with a contract that is proved.

## Layout

- `src/` is the verified library.
  - `routing_table`: which sessions want which channels, and what becomes of them when a
    message is put to their queues.
  - `router`, `router_laws`: what the router of a node does on each event, and what holds of it
    over time, connections lost and opened again included.
  - `arifa`: what the handle of a node decides when sessions come and go.
  - `forwarder`: what carries the messages of a session to its client does next.
  - `presence`, `presence_laws`, `store`: the commands that keep track of who is online, what
    they do to the store, and what the store then says.
  - `metrics`: counters, and why increments to them can be added in any order.
  - `naming`: the channels of a client.
  - `event`, `queue`, `name_map`: messages, the queues of Tokio, and a map keyed by names.
- `app/` holds the sockets, timers and tasks around the library, the JSON form of messages, and
  two example servers, one on Axum and one on Actix Web.
- `tests/` runs the library with the real queues.

## What is taken on trust

`queue`, `event` and `arifa` hold a few declarations of what Tokio, `serde_json` and `uuid` do:
that a queue has the limit it was made with, that the two ends of a queue belong together, that
a handle to a queue carries a record of what was put through it, that a clone is the same JSON
value, and that a random id has the shape of one. What a queue answers to a message is left
open, and every proof holds whatever it answers.
