# plumbrs

An HTTP load generator whose logic is verified with Verus.

`src/` is the library. It decides and computes; it opens no socket and reads no
file. Each function states in its contract what it returns, and the public proof
functions whose names start with `law_` state what holds of several of them
together.

| Module | What it holds |
| --- | --- |
| `options`, `check`, `client` | the settings of a run, and whether they go together |
| `uri`, `headers`, `body`, `request` | the request that a task sends, and where to |
| `http1` | responses in a receive buffer, requests on the wire |
| `worker` | one task: when it connects, sends, waits, counts and stops |
| `dial`, `net`, `tls` | source addresses, and the settings of a connection |
| `rss` | receive queues: the Toeplitz hash, port lists, source ports |
| `mcp`, `sse`, `schema`, `json` | sessions with tool servers, and the calls of their tools |
| `stats`, `engine`, `metrics` | what is counted, shared out, added up and reported |
| `text` | characters, lines, words and numbers |

What the library has from other crates goes through small wrappers, each of which
says in its doc comment what is believed of the crate.

`app/` is the program around the library: the command line, the runtimes, the
sockets and what is printed. Numbers with a fraction are computed there.

`tests/` runs the library on given values.
