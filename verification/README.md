# Rolling Drones

A simulator of a drone network: clients and servers talk through drones that
carry their messages in 128-byte fragments along source routes, answer floods
that discover the topology, and report lost fragments with nacks.

The library (`src/`) is verified with Verus. Its modules:

- `packet`: packets, fragments, routes, acks and nacks.
- `drone`: what a drone does with each packet it receives (forward, drop,
  nack, flood), as a list of actions.
- `assembler`: cutting messages into fragments and putting them back.
- `client`: the state of a client: the topology it learnt from floods, the
  cheapest routes through it, resending lost fragments, collecting incoming
  fragments.
- `chat`, `web`: what chat clients and web browsers do with complete answers.
- `topology`: the connectivity rules a network configuration must meet.
- `editing`: crashing drones and cutting or adding connections, checked
  against those rules first.
- `network`: roles and drone kinds of a configuration, its nodes, and the
  nodes and layers of the butterfly layout.
- `diagnosis`: comparing the links a node found with the configured ones,
  a node's last session, what was lost in a session, and the message log
  split into clients and other nodes.
- `windows`: the decisions of the chat and browser windows: who can chat,
  when a message is sent, what clicking a client, a server or a media does.
- `report`: the outcome of the checks as the set-up screen shows it.
- `text_pages`: paging through received texts, by turning or by a typed page.
- `files`: node ids typed by the user, file names, received files.
- `controller`: the commands of the simulation controller.
- `graph`, `ids`: the topology graph and lists of node ids.

`app/` runs a network from a TOML configuration: it checks it, then starts a
thread per drone, chat client and web browser, with the library deciding
what each does. `tests/` runs the library on concrete cases.

The fragments received for a message are kept in a `Vec` sorted by fragment
index (an invariant of `ClientCore`), where a map keyed by index would do;
keyed by session and source, the messages themselves sit in a `HashMap`
with an integer key.
