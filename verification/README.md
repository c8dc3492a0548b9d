# mappr

A network mapper: it lists what the local machine exposes (services,
firewall front ends, interfaces) and discovers hosts on the LAN with ARP and
ICMPv6 echo requests, or with TCP handshakes where it lacks privileges.

## Layout

- `src/` is the library, written and proved with Verus. It holds the
  address types and their text forms, target parsing, IPv4 ranges and
  address collections, the choice of the LAN interface, the routing of
  targets to interfaces, Ethernet/ARP/IPv6/ICMPv6 framing and the reading
  of replies, the grouping of listening sockets into services, and the
  decisions of the discovery flow. Every function there carries a contract
  over mathematical models (`Seq`, `Set`, integers), and the properties that
  span functions (a frame read back gives what was written, a range holds
  exactly its addresses, routing puts each address where the rules say) are
  stated as proof functions or in the contracts themselves.
- The calls into `pnet` (checksums), `rand` and `mac_oui` that the logic
  needs are made through small trusted wrappers in `src/`, each with a doc
  comment that says what its contract claims.
- `app/` is the command-line program around the library: argument handling,
  reading interfaces, sockets and routes from the operating system, sending
  and receiving frames, TCP probes, and terminal output.
- `tests/` exercises the library from outside, on concrete values.
