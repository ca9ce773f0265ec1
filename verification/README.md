# netman

A passive network monitor. Frames are decoded once and counted in two
conversation tables: by pair of Ethernet addresses (Etherman) and by pair of IP
addresses (Interman). Browsers are sent the tables as two graphs, first whole,
then change by change.

- `src/` is the library, verified with Verus.
  - `model`: frames, addresses, conversation tables, nodes.
  - `resolve`: vendor names of Ethernet addresses; reverse lookups of IP
    addresses as decisions.
  - `capture`: selection of the interface; the capture loop as decisions.
  - `json`, `wsproto`, `server`: messages as JSON, snapshots, the loop of one
    client.
  - `npcap`: where Npcap keeps its libraries on Windows.
  - `text`, `bytes`: what the others share.
- `app/` is the program around it: capture, lookups, web server, and a reader of
  messages in any JSON.
- `tests/` run the library with the real outside crates.

The vendor register is Wireshark's `manuf` file, read from `data/manuf`.
