# MetalBond

Route exchange between virtual networks. Nodes connect to each other, subscribe
to virtual networks and tell each other which prefixes are reached through which
next hops.

- `src/` is the library. It is written in Verus: every function has a contract,
  and what holds of the library as a whole is stated in proof functions beside it.
  - `wire`, `pb`, `codec`, `convert`: messages, their protobuf encoding and their
    frames
  - `peer`: the state machine of one connection
  - `routetable`: the routes of a node and who announced them
  - `metalbond`: the node, which ties these together
  - `netlink`, `client`: which routes are installed on the host
  - `cli`, `http_server`: what the command line says and what the dashboard shows
  - `net`, `types`, `collections`, `sorting`, `text`: what the others are made of
- `app/` is the program around it: sockets, timers, netlink, HTTP and the command
  line.
- `tests/` runs the library.

The library performs no input or output. Each component takes a command or an
event, changes what it knows, and returns what is to be done.
