# lspd

A daemon that keeps one language server alive per language and answers, over a local
socket, who calls what and where things are declared. It has no model of the project:
it takes a file, a line and a column, and gives back places.

`src/` is the library, verified with Verus: what the daemon and its client decide.

| Module | What it holds |
|---|---|
| `language` | the table of languages: markers, executables, arguments, readiness |
| `census` | what runs, as a model: one place per language, and the laws of it |
| `lsp_manager` | the manager of the servers of a workspace |
| `lsp_client` | the dealings with one server: launch, handshake, notifications, answers |
| `documents` | the documents open in a server |
| `types`, `ipc` | the messages of the protocol, and what is done about each |
| `client`, `transport` | where the daemon listens, how it is asked and how its answer is read |
| `wait` | waiting until the servers of a daemon are ready |
| `cli` | what the commands say |
| `json`, `url` | the calls into `serde_json` and into the URLs of `lsp-types` |
| `text`, `path`, `text_map`, `seqs` | texts, paths, a map from texts, facts on sequences |

`app/` is the program around it: the command line, the sockets, the processes and the
LSP connections. `tests/` runs the library.

Times are milliseconds of the clock of whoever calls. Paths are texts, read the way
the system they are of reads them: Unix or Windows. The files of a workspace, the
executables in `PATH` and the canonical path of a workspace are given by the program,
which reads them.
