# supervisor

A supervisor for actors: it holds a declared roster of services, brings them up,
restarts the ones that crash as long as they do not crash too often, records what
happens to them, and lets the roster be edited while it runs.

`src/` decides; it is verified with Verus. `app/` carries out: it holds the command
line, files, sockets, TLS, the actor's host functions and the runtime.

| module | what it decides |
| --- | --- |
| `roster` | what is declared, what is known of each service, and how one comes up |
| `boot` | how the roster comes up |
| `reconcile` | what an event leads to: recording, restarting, blocking |
| `control` | what a request on the control surface does to the roster |
| `reply` | the replies of the control surface |
| `wire` | why all that is written by hand is JSON, one document a line |
| `ops` | the requests that a client sends |
| `session` | one connection, from activation to its end |
| `auth` | challenges, answers and identities |
| `line` | lines out of chunks |
| `client` | where a client connects, as whom, and what it says |
| `manifest` | the supervisor's own manifest, around a roster |
| `bootstrap` | the files of an authenticated supervisor |
| `release` | self-update: nothing is installed that was not verified |
| `render` | what is printed of a chain |
| `datum` | values from and for the host |
| `graph` | whether an encoded value can be decoded within bounds |
| `json`, `hex`, `text` | the notations all of this is written in |
| `collector`, `delegate` | companions to try a supervisor with |

In the replies to `list` and `status` an entry is `{handle, spec, status}`: what is
declared (`manifest`, `max`, `window_ms`, `recording`, `keep_chain`) in `spec`, and what
is observed (`blocked`, `current_id`, and the number of `restarts` in the window) in
`status`.

What the host does (spawning, stopping, sending, reading) is not decided here: a
function of the library says what is to be done, and takes the answer as an argument.
The state that these functions need, such as `control::Job` or `session::Session`, is
handed out by the library and handed back unchanged.

The functions of other crates that the library calls are wrapped in small functions
marked `external_body`; the comment above each says what is claimed of it without
proof.
