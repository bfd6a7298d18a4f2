# agora

The decision core of a daemon that manages coding agents running in terminals, verified with Verus, and
the program round it.

- `src/` decides: what an agent's hooks mean, which requests for permission are held and when they are let
  go, how a session is started again, who may ask over HTTP and over the local socket, what those who watch
  are told, how hooks are installed and taken out, how the daemon begins and how it is replaced. Each public
  function states its result exactly, and the promises that span functions stand beside them as public proof
  functions.
- `app/` does: files, sockets, processes, the database, HTTP. It asks `src/` what comes next.
- `tests/` runs the library on concrete values.

The agent that is told by its own name has its name, the words by which its version text is known, and the
file that holds its hooks handed in as a value; the program reads them from `agent.json` below its home.

Where a function rests on an outside crate (JSON, hashing, random bytes, base64, media types), the call
stands in one small trusted function whose contract says what is relied on.
