# lau_port_v2

Message ports for asynchronous programs: paired channels, broadcast, multiplexing and buffering.

| Type | Description |
|------|-------------|
| `AsyncPort` | What every port answers at once |
| `ChannelPort` | Ports connected in pairs by bounded `tokio::sync::mpsc` channels |
| `BroadcastPort` | Fan-out to multiple subscribers |
| `MultiplexPort` | Unified receive across multiple ports |
| `BufferedPort` | Overflow-protected buffer in front of a port |

`src/` is verified with Verus. It decides everything and waits for nothing: an operation that may
have to wait is offered in steps, and a step either gives the result or names what has to be
awaited first. Each step that reads the clock has a twin whose name ends in `_at` and which takes
the time as an argument.

`app/` awaits. It runs the steps on tokio's channels and timers, and offers them as an `async`
trait for ports in boxes.

The laws of the library are the public proof functions whose names begin with `law_`, each in the
module of the type that it is about.
