# headless_client

Console clients for RustDesk: a terminal, and port forwarding with `-L` forwards
and a `-D` SOCKS5 proxy.

`src/` holds what the clients decide, verified with Verus. It reads, writes and
waits for nothing: it takes what was read as plain values and says what comes
next.

- `text`, `colons`, `arguments`: characters, decimal numbers, `host:port` texts
  with IPv6 literals in brackets, options with values.
- `targets`, `tunnel_args`, `terminal_args`: the two command lines.
- `terminal`, `trace`: a terminal session event by event, and what holds of every
  run of one.
- `login`, `tunnel`: a login's message boxes and result; listeners and
  connections of the port forwarding client.
- `socks`, `dialogue`: a SOCKS5 client step by step, and its conversation as a
  whole.
- `address`, `address_reading`: the text of IP addresses, and that it names one
  address only.
- `debug_log`: the lines of the debug log.

`app/` is the program around it: sockets, standard input and output, the local
terminal, and RustDesk's own client. It builds inside RustDesk's tree, which
provides `hbb_common` and `librustdesk`.
