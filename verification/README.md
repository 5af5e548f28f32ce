# Authority fabric

Processes that talk over capabilities. An endpoint is one end of a
conversation, and holding it is the authority to use it. Peers never see each
other: a host routes every message, keeps the only record of who holds what,
and holds in escrow whatever is on its way from one peer to another.

- `src/` is the library. It is written in Verus, and its functions are verified
  against their contracts; what is taken on trust are three calls, into
  `getrandom` and into std's UTF-8 check and error texts. Nothing in it does
  I/O: each part is a value that is told what arrived and says what to do.
- `app/` is the program around it: processes, pipes, sockets, threads, clocks,
  kernel objects and mapped memory.
- `tests/` runs the library on concrete values, up to a whole fabric in one
  process.

## The library

| module | what it holds |
| --- | --- |
| `id`, `native`, `shared` | identities of endpoints, transfers, kernel objects and regions; who may write to a region |
| `frame`, `frame_laws` | the wire format |
| `proto` | the messages of the service |
| `queue`, `memstream` | bounded queues, in-memory streams |
| `router`, `router_model`, `router_inv`, `router_laws` | who holds what; transfers with escrow, commit and abort; deaths |
| `host` | what the host does about each frame |
| `peer`, `peer_model`, `peer_laws`, `delivery_laws` | the peer's side: calls, replies, transfers, and when a message with endpoints is delivered |
| `data_pipe` | byte pipes with a fixed capacity, their transfer, and their record protocol |
| `service`, `script`, `drill` | the service, the client's scripts and the host's drills |
| `bench` | the transport benchmark: its arithmetic and its commands |
| `bytes`, `table`, `text`, `limits`, `fabric_error` | what the others share |

The `*_model` modules say what each step does, as functions on mathematical
state; the `*_laws` modules prove what holds over many steps.

Identities are drawn from the operating system's entropy source. A draw that
fails is reported as an error.
