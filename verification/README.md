# ftp-server

A small FTP server whose logic is verified with Verus.

The library under `src/` is what the server decides and computes:

- `cmd`: request lines and the commands that they stand for
- `ftp`, `codec`: replies, and the framing of both connections
- `path`: Unix paths as byte strings
- `listing`: the lines of a directory listing
- `session`: the rules of a session, as a transition system
- `client`: the session itself, which follows these rules
- `line_laws`, `request_laws`, `session_laws`: what holds of lines, of requests and of sessions
- `buffer`, `text`: the byte buffer, and text and numerals

A session does no input or output. `Client::handle_cmd` takes a command and returns the first
action that it asks for; `Client::resume` takes the outcome of an action and returns the next
one, until the request is done. Apart from resolving a path, no action looks or acts at a place
outside the directory that the server serves, but for the file that `STOR` writes: its path is
used as it was given.

The program under `app/` owns the sockets and the disk and performs the actions. It runs on Unix
and serves its working directory on port 1234 of the local machine.
