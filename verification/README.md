# llamesh

A mesh of nodes that run `llama.cpp` servers: each node builds the server, runs models from a
cookbook, gossips with its peers and answers an HTTP API.

- `src/` is the library: the rules of a node, each with a contract that Verus proves. It reads no
  file, opens no socket and starts no process. What it needs of the world comes in as plain values,
  and what is to be done goes out as plain values.
- `app/` is the program around it: the configuration files, the HTTP server, gossip and mDNS on the
  wire, builds and child processes. Started under the name `mock_llama_server` it is a stand-in for
  the model server.
- `tests/` runs the library on concrete values, with the outside crates linked.

| Module | What it decides |
|---|---|
| `config`, `cookbook` | defaults, validation, derived paths, profiles and their flags, API keys |
| `cluster`, `gossip` | addresses and versions of peers, what a message changes, whom to tell |
| `circuit_breaker` | when a peer is asked, and when it is left alone |
| `discovery` | which endpoint stands for a node that was found |
| `build_manager`, `command_output` | steps of an update, swap of the live link, cleanup, output of commands |
| `instance`, `memory_sampler` | identity of an instance, readiness, its memory |
| `metrics`, `prometheus` | counters, snapshots, the text exposition |
| `server`, `health`, `errors`, `connection` | connections, Noise, health, replies |
| `startup`, `mock_server` | retries, reloads, the stand-in server |
| `text`, `string_map`, `paths`, `net`, `sort`, `clock` | what the others are built from |

Functions named `law_..` state what holds of several functions together. Calls into outside crates
stand behind small functions marked `external_body`, each with a comment that says what is taken
for granted of the call.
