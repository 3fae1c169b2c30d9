# Wire

Wire is a chat and calling program that needs no server: peers reach each other by
their public keys. Conversations are replicated documents, presence is exchanged
between contacts, and calls carry voice and shared screens.

This crate holds what the program decides, with contracts that Verus proves:

- `src/`: the verified library.
  - `text`, `digits`, `node`, `table`, `sort`, `clock`: values that the rest is built from.
  - `message`, `records`, `keys`, `conversation`, `invite`, `timeline`: what a conversation holds,
    and how replicas of it agree.
  - `delivery`, `service`, `inputs`, `sessions`, `framing`: how messages reach peers.
  - `client_status`, `group_calls`, `calls`, `streams`, `call_view`: presence and calls.
  - `contacts`, `roster`, `chat_board`, `chat_view`, `attachments`, `panels`,
    `notifications`: what is shown, and what presses do.
  - `settings`, `window`, `session`, `hotkeys`, `host`, `persistence`, `autostart`,
    `launch`, `dev_pair`: the program around it.
- `tests/`: tests of the library.
- `app/`: the program: its files, sockets, threads and windows. It asks the library what
  to do and does it.

Laws that relate several functions are public proof functions whose names begin with
`law_`. Calls into other crates stand behind small functions marked
`#[verifier::external_body]`, whose comments say what they claim.
