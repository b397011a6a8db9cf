# navetted

The decisions of the Navette host daemon, verified with Verus. Navette keeps
graphical applications running as named sessions on a host and carries their
windows to whatever device asks for them.

- `src/` is the library. It holds no lock, opens no file and reads no clock: what
  the outside world says comes in as an argument or through a function that the
  caller hands in, and what has to be done goes out as a value.
  - `registry`, `supervisor`: the sessions and the processes behind them
  - `api`, `sockets`, `routes`, `guard`, `http`, `downloads`, `wake`, `config`:
    the control interface
  - `media`, `encode`, `frame`, `bridge`, `clipboard`, `thumbnails`: what goes
    between a guest and its clients
  - `blobs`, `file_transfers`: bounded storage for a session
  - `app_index`, `desktop_entry`, `icons`: the applications of the machine
  - `text`, `paths`, `lists`, `sorted_map`, `protocol`: what the others share
- `app/` is the daemon around it: the command line, the server, files, processes
  and threads.
- `tests/` runs the library on concrete values.

Contracts speak of views: a registry is a map from names to sessions, a queue is a
sequence, a path is a sequence of characters. The properties that relate several
functions are the public proof functions whose names begin with `law_`.
