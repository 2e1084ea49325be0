# proxy_tunnel

Tunnels through HTTP CONNECT and SOCKS5 proxies: local ports that forward to a
remote host behind a proxy, and a probe that tests whether a proxy works.

`src/` holds the decisions and does no input or output. A conversation hands out
an `Action`, the caller performs it and answers with an `Event`, until
`Action::Finish`. Every step has a contract, and the laws beside the steps speak
of whole conversations.

| Module       | What it holds                                             |
| ------------ | --------------------------------------------------------- |
| `text`       | lines, prefixes, trimming, decimal numbers                |
| `encoding`   | lossy UTF-8 and Base64, the two calls that are trusted    |
| `endpoint`   | the proxy and the remote host                             |
| `wire`       | actions, events and courses of conversations              |
| `http`       | the CONNECT request, the response, the exchange           |
| `socks5`     | the SOCKS5 messages and the conversation                  |
| `retry`      | operations on a connection that may not be ready yet      |
| `connection` | connecting through a proxy, and serving clients           |
| `probe`      | testing a proxy                                           |
| `manager`    | the running tunnels, and starting and stopping them       |

`app/` runs the decisions on Tokio: sockets, tasks and clocks.
