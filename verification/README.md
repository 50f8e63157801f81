# SSH Workspace

A desktop workspace for SSH: saved hosts, terminals, file transfer, port
forwards, forwarded X displays and serial consoles.

The core is a library in which every decision is verified with Verus; the
application around it does the input and output.

## Layout

- `src/` is the library. Of the world outside it only asks for the user's
  directories, for the separator of paths and for the keyring. Loops that
  alternate between the outside and decisions are state machines: `next` says
  what to do, `step` takes in what came of it, and the contract of `step` is one
  spec function, `after`.
  - `text`, `order`, `paths`, `waits`: characters, sorting, places of files, and
    how long to wait for what
  - `hosts`, `secrets`, `vault`, `ssh_config`: saved hosts, their secrets, what
    the keyring is asked, and what can be imported
  - `connect`, `known_hosts`, `auth`: setting a connection up, host keys, logins
  - `sessions`, `ssh`, `pump`, `recording`: terminal sessions
  - `files`, `sftp`, `transfer`, `progress`: file sessions and transfers
  - `tunnels`, `socks`, `splice`, `x11`: forwarded connections
  - `serial`, `fonts`: serial consoles and the fonts to choose from
- `tests/` runs the library on concrete values.
- `app/` is the application: commands of the user interface, sockets, files and
  processes.

Properties that relate several functions stand as public proof functions whose
names begin with `law_`.

## What is not proved

Calls into other crates go through wrappers and specifications whose doc
comments say what is taken for granted. They are in `text` (the standard
library's decoding, quoting and lower case), `paths` (`dirs`, and which
separator the system has), `vault` (`keyring`) and `recording` (`serde_json`).

Paths are runs of bytes and written as on Unix or as on Windows, by the system
that the program runs on.
