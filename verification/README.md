# keli-core

The core of a proxy node, written in Verus: the wire formats of SOCKS5, Shadowsocks, Trojan and
TUIC, the users of a node and how they change, the traffic that is counted for them, the plans of
the listeners, and the decisions of the relays between two streams. Every function of the library
states in its contract what it returns or changes, and Verus proves it.

## Layout

`src/` is the verified library.

- Text and numbers: `text`, `numeral`, `address`, `ipv6`, `wire`, `target`.
- Collections: `table` (keys with values, no key twice), `order` (sorting).
- Users: `user`, `delta` (changes of the users), `fingerprints`; their laws are in `user_laws`,
  `delta_laws`, `keyed_laws` and `keyed_delta_laws`.
- Traffic: `traffic`.
- Protocols: `socks5`, `shadowsocks`, `shadowsocks_server`, `trojan`, `trojan_server`,
  `trojan_outbound`, `tuic`, `tuic_fragments`, `tuic_server`, `tls`, `reality`.
- Relays and sockets: `relay`, `stream`, `socket_bind`, `route`.
- The node: `config`, `service_config`, `listener_binds`, `listener_plan`, `connection_workers`,
  `backoff`, `service`, `service_error`; its laws are in `service_laws`.
- `crypto` calls the ciphers and digests of other crates. What is believed of them stands there,
  and next to the few other such calls in `text`, `wire`, `user` and `tls`.

`app/` opens the sockets, runs the threads and the runtimes, and asks the library what to do.
What it needs from the program around it (routes, names, limits, web sockets and the like) is the
trait `Host`.

`tests/` runs the library on given values.

## Names

A proof function whose name begins with `law_` states what holds of several functions together,
such as that a packet reads back, or that a change of the users leaves other nodes alone. A spec
function gives the model: what a value is, or what a reader makes of a stream of bytes (`Tape`).
