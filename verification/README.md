# slack_channel

A Slack channel for a chat bot, as a library verified with Verus. Over a socket the bot is
handed the messages that mention it, with the recent messages of their thread in front;
without an app token the conversations that it can read are polled instead.

| module | what it holds |
| --- | --- |
| `channel` | the configuration, the allowlist, mentions, thread context, channel lists |
| `message` | inbound and outbound messages and their ids |
| `reply` | what the replies of the Slack API confirm, refuse and carry |
| `listing` | the list of conversations, page by page |
| `socket`, `socket_loop` | envelopes and the session in Socket Mode, and the loop around it |
| `polling`, `poller` | how far polling has come, and the loop that asks in turn |
| `clock` | timestamps as Slack writes them |
| `json`, `table`, `text` | what the others are built on |

Each function states in `ensures` what it returns. What holds across functions, such as that
no page is handed on twice, stands in public proof functions at the end of each module.
What is taken on trust is marked where it is declared: a few functions of `serde_json` in
`json`, and of the standard library in `text` and `clock`.

`app/` is the code around the library: requests, the socket, and the loops that carry out
what the library asks for.
