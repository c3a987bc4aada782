# holepunch

Lets two programs behind address translators talk UDP to each other. A server
on a public address brings together clients that share a name; each client
opens some ports, sends empty packets towards the ports of the other one, and
relays the traffic of a local program through the ports that turn out to work.

`src/` is the library, verified with Verus. It holds the decisions and no I/O:
what was received goes in, what is to be sent comes out.

| module     | what it does                                                    |
|------------|-----------------------------------------------------------------|
| `options`  | what a command line asks for                                    |
| `addr`     | socket addresses as integers                                    |
| `wire`     | control messages and the masks under which addresses travel     |
| `cache`    | the `ttl_cache` types and what is relied on about them          |
| `registry` | what an announcement does to the server's registry              |
| `metrics`  | the server's counters                                           |
| `server`   | sorting packets, passing control messages on                    |
| `history`  | what holds of the server over any history of packets            |
| `expiry`   | who is told of an announcement as time passes                   |
| `limiter`  | keeping error reports apart                                     |
| `random`   | the `rand` calls and what is relied on about them               |
| `ports`    | the search for local ports                                      |
| `stun`     | asking the server under which numbers the ports are seen        |
| `advert`   | what a client announces, and what comes in from both sides      |
| `actor`    | the relay                                                       |

`app/` is the program: sockets, clock, command line, CBOR and YAML.
