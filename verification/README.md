# vnts

The relay server of a virtual network. Clients join a network by token and send each other packets
through the server.

- `src/` is the library. It does no I/O. It decides how command line, configuration file and
  token file resolve to a configuration (`config`, `tokens`, `wg_key`, `ipv4`, `subnet`),
  whether, when and to whom a packet is forwarded (`client`, `net_packet`), how many bytes may pass
  (`rate_limiter`, and `traffic` for all packets together), and how the sockets and the logger are set up (`listen`, `log_setup`). Every
  function states what it does, and Verus proves it. Functions whose names start with `law_` state
  what holds of the library as a whole.
- `app/` is the program around it: it reads the command line and the files, opens the sockets,
  keeps the time, turns it into tokens at the rate of the
  limiter, which is a floating-point number, and runs what the library decides.
- `tests/` runs the library.

The library calls `base64`, `boringtun` and `rand` in `wg_key`. The functions that do so say what is
taken for granted of these calls.
