# sqlite_server

A small TCP server that offers SQLite databases over a length-prefixed JSON
protocol: a client sends a 4-byte little-endian length and that many bytes of
JSON, and gets its answer framed in the same way. The commands are `QUERY`,
`LIST` and `DELETE_DB`.

The library under `src/` holds the server's rules, written in Verus with their
contracts and proofs. The program under `app/` does the input and output around
it: command line, files, sockets, and SQLite itself.

| Module | What it holds |
|--------|---------------|
| `text` | texts as character sequences: numerals, white space, case, order, splitting |
| `address` | IP addresses and their text form |
| `cidr` | networks: parsing, membership, canonical form |
| `config` | settings from flags or a file, the whitelist |
| `json` | JSON values and reading them from text |
| `sql` | SQLite values, rows and errors as JSON |
| `database` | safe database names, listing |
| `handler` | requests: repair, password, commands step by step, the connection cache |
| `connection` | frames and the course of a connection |
| `server` | the decisions of the accept loop |

Floating-point numbers pass through the library by their IEEE 754 bits.
