# steven

Core logic of the Steven Minecraft client, written in Verus and verified.

The library (`src/`) holds the parts of the client that compute rather than
draw or talk to the network:

- `protocol`: the wire encodings (fixed-width integers, VarInt/VarLong,
  strings, UUIDs, positions, length-prefixed lists, packet records), the
  packets of the handshaking, status and login states and the steps of a
  login, packet framing with zlib compression, the server status answer,
  and the session-server hash of a login.
- `format`: chat components, colours, legacy `§` formatting codes and the
  JSON form of chat text (`json` holds the JSON document model).
- `chunk_builder`: which faces of a chunk section can be seen from which,
  by flood fill.
- `console`, `settings`, `auth`: console variables, the config file's text
  and lines, the log history, and the key bindings.
- `ecs`: the entity manager's bookkeeping (slots and generations, the
  components each entity has, filters, change processing) and the per-type
  component storage.
- `protocol::mojang`: the bodies sent to the authentication and session
  servers and the reading of their answers.
- `screen`: the stack of screens and when each is set up, shown, hidden
  and torn down; the list of saved servers in `servers.json` (adding,
  editing, deleting and listing entries).
- `bit`, `hash`, `entity`, `render`, `gl`, `model`, `server`, `shared`: bit
  sets and bit-packed maps, the FNV hasher, movement and flight state, the
  texture atlas packer, shader source assembly, liquid heights and face
  rotation, game modes, Forge plugin messages, the Forge handshake and the
  player list.

Each public function states its behaviour in `requires`/`ensures`; laws that
relate several functions (encode/decode round trips, colour name round trip,
config value round trip, two's complement negation, symmetric visibility)
are proof functions next to them.

`app/` is the command-line front end: it keeps `conf.cfg`, logs in to a
Mojang account over HTTPS, pings a server for its status or logs in to it
over TCP (with AES/CFB8 encryption for servers in online mode), and logs to
the terminal.
