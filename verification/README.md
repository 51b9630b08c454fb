# csgo_scanner

A terminal scanner for legacy CS:GO servers. It harvests `ip:port` addresses from
public server lists, queries each server over UDP with A2S_INFO, badges which servers
run the client's build, looks up their countries, and shows them in a table or an
interactive view with favourites and a blocklist.

The library under `src/` is verified with Verus: every function there carries a
contract, and the properties that span functions are stated as proof functions.

| module | what it holds |
|--------|---------------|
| `model` | badges, the server record, IPv4 socket addresses and their order key |
| `classify`, `mode` | the build badge and the game-mode heuristic |
| `addr`, `text` | the `a.b.c.d:port` grammar, decimal text, trimming and splitting |
| `addrset`, `ordered`, `favourites`, `blocklist` | address sets kept as text files, one address per line |
| `a2s`, `master` | the A2S_INFO request, challenge handshake and reply format; the master-server page format |
| `source`, `geo` | the harvested candidates and the geo-IP batches and replies |
| `sort`, `scan` | the stable relevance order and the steps of a scan |
| `table`, `tui` | the static table's text; the interactive view's state and key handling |

`app/` is the program around it: the network, the files, the terminal, and the
concurrency of a scan. It runs `--once` for a static table, `--spike` for a raw probe
of the known-good server and the master server, and the interactive view otherwise.
