# herdr: endpoint supervision and link benchmarks

A Verus library with the decisions behind herdr's remote connections, and
ordinary Rust around it that does the I/O.

`src/` is the library. It reads no clock, opens no socket and starts no task:
callers hand in instants, messages and results as plain values, and get back what
to do next. Every function is proved against its contract.

- `supervisor`, `supervisor_laws`, `table`, `profile`: which endpoints are under
  supervision, when each is tried again, and whose reports are heard.
- `connect`, `failure`: one attempt to connect, step by step, and what a failure
  means for the next one.
- `supervised`, `idle`, `outage`, `outage_laws`: one supervised endpoint, held idle or taken
  through a full outage.
- `relay`: a shaped hop that counts, drops and delays datagrams.
- `screen`, `metrics`, `measure`, `script`: what a terminal frame shows, how a
  keystroke is timed, and in which order an arm types and loses its path.
- `network`, `sockets`, `flap`: a change of addresses on a real network stack.
- `bench`: settings, bootstrap and verdicts.
- `clock`, `text`: instants and spans as nanoseconds; numbers read and written.

`app/` holds the tasks, threads, sockets, processes, files and reports. Its `Host`
trait is what the rest of herdr provides: the server, the bridge and the protocol.

The one thing taken on trust in `src/` is `PathBuf`: paths are carried through
unread, and a clone is a duplicate.
