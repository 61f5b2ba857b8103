# relay

A proxy manager: local HTTP, SOCKS4 and SOCKS5 servers that forward through
the fastest working public proxy (or a chain of proxies, or Tor), with
rotation, a firewall kill switch, split tunnelling, schedules, profiles and
plugins.

- `src/` is the library, verified with Verus: the protocol parsers and
  replies of the local servers and of upstream handshakes, the instance
  manager and its state machine, choosing and rotating upstreams, the proxy
  cache and lists, the Tor configuration file, the kill switch's firewall
  commands, credential encryption, schedules, split-tunnel rules, profiles
  and the plugin bookkeeping. Calls into outside crates (base64, ChaCha20-
  Poly1305, HMAC-SHA-256, SHA-256, UUIDs, URL parsing, random numbers, the
  clock) go through small trusted wrappers whose contracts say what the
  library relies on.
- `app/` is the program around it: the command-line `autoproxy`, the
  desktop service without its window (`autoproxy desktop`: saved instances,
  schedules, instances started with the application), the network servers
  and clients, the files, the operating-system commands and
  the plugins' downloads. The decisions are the library's, save a few small ones noted where they stand.
- `tests/` runs the library on concrete values.
