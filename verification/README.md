# zellij_client

The input side of a terminal multiplexer's client, verified with Verus.

Keys come in from the terminal, and what they ask for goes to the server. When
the loop starts, it asks the terminal emulator for its pixel geometry. The
answers arrive among the user's keys: a whole report is sent to the server in
its own message, and keys that only looked like one are handled as keys.

| module | what it holds |
| --- | --- |
| `commands` | the bytes of the known keys and of the pixel queries |
| `keys` | key events and input instructions |
| `messages` | actions, messages to the server, and their extraction from a record |
| `os_api` | a client API that records what is sent to the server and written to standard output |
| `pixel_report` | the grammar of pixel reports and a reader for them |
| `session` | what the loop does, as a state that each key press changes, and its laws |
| `input_handler` | the loop |

`app/` wraps the library in handles that several threads can share.
