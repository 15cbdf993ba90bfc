# clash_ui

The logic of a desktop client for the Mihomo/Clash proxy core, written in Verus and
proved against its contracts.

- `src/` is the verified library:
  - `clash/`: the runtime configuration (YAML documents read, merged in order with the
    array instructions `key::^`, `key::$` and `key::N` acting in objects at any depth and
    never written, as long as each names an ordinary key, and written back as YAML), the
    core session
    (secret, control port, arguments, when to start, restart or stop), the values of the
    control interface, and the live streams with the decisions of their reconnecting loop.
  - `controller/`: the state of each page (configurations, overrides, proxies, rules,
    connections, logs, settings, home, tray) and its transitions: a request starts under
    a token, and a reply under a stale token changes nothing.
  - `platform/`: proxy bypass lists, TUN device names, the system proxy port, and the
    decisions around the loopback exemption of UWP applications (which containers are
    listed and which exemptions change, how a batch of changes is passed to an elevated
    helper and read back); the Windows calls themselves are not part of this crate.
  - `app/config.rs`, `json.rs`, `text.rs`, `order.rs`: the configuration types, the document
    tree, text helpers and orders.
- `app/` is a command-line front end: it reads and writes the files, starts the core,
  and shows the configuration; file and process work stays there.
- `tests/` runs the library on concrete values.
