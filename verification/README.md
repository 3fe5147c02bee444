# shadow_proxy

A transparent proxy for single programs on Windows: a program is started with a library inside it that
redirects its connections to a local relay, and the relay sends each one on to a SOCKS5 proxy, directly
to its target, or nowhere, as the rules say.

`src/` is the library. It holds every decision, format and table, each function with a contract that
Verus proves. `app/` is the program around it: sockets, processes, files and windows. `tests/` runs the
library on concrete values.

| Module | What it decides |
| --- | --- |
| `protocol` | the frame that announces a connection's target to the relay |
| `socks5` | the client's side of a SOCKS5 handshake |
| `router` | the rules, and what they say of a target |
| `relay` | the life of one connection through the relay |
| `session` | the sessions that are open and those that have ended |
| `fakeip`, `pending` | addresses that stand for names; frames that wait for a connection |
| `hook`, `hooks`, `iat`, `config` | what the redirected functions do; which imports of a module are redirected |
| `injector`, `launch`, `processes`, `shortcut` | starting a program with the library inside it |
| `console`, `base64` | the state of the window and its commands; icons |
| `net`, `text`, `utf16`, `bytes` | addresses, text and bytes |

What is stated of std without proof: `String::push`, `String::from_utf8`, `str::to_lowercase` and
`Formatter::write_str` in `text`, `char::from_u32` in `utf16`, and the two clocks in `session`.
