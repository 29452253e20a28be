# comail_core

The decisions of a desktop mail client, verified with Verus.

A mail client is mostly waiting: for a server, for a database, for the user.
What it decides in between is what this library holds, as functions on plain
values with contracts that Verus proves. The code that waits stands in `app/`
and only carries out what the library says.

## Layout

- `src/` is the library.
  - `models`, `error`, `text`, `bytes`, `json`, `lists`, `sort`, `dict`: data and tools.
  - `actions`, `store`, `queue`, `queue::outgoing`: what the user does to mail,
    what is written at once, how it is undone, and how it is replayed on the
    server.
  - `sync`: the account actor, one cycle, folders and UIDs, headers, bodies.
  - `messages`, `attachments`, `mime`, `files`, `reading`, `compose`,
    `unsubscribe`: messages, from the server to the screen and back.
  - `calendar`, `automation`, `routing`, `ai`, `accounts`, `host`, `startup`: the
    rest of the client.
- `tests/` runs the library on concrete mail.
- `app/` is ordinary Rust around it: SQLite, IMAP and HTTP behind traits, the
  loops that perform an action and hand back what happened.

## What is proved

Every function says what it returns for every input, and what it changes. Where
the clock or the machine's time zone decides, it says what holds whatever they
are, and a function beside it takes their answer as an argument and is exact.

What holds across several functions stands as a public proof function next to
them: that undo gives back what an action took, that scans leave no gap, that
mail which is archived offline leaves the inbox and waits in the queue, that a
start keeps the queue, that a body is claimed by one reader, that migrations
reach the latest version, that a cycle ends. That a broken connection loses no
download is a clause of the function that takes the work back
(`sync::pool::WorkQueue::take_back`).

## What is trusted

A few calls into `std`, `base64`, `chrono`, `serde_json` and `url` stand behind functions
whose contracts say what is claimed of them; each names the call in its comment.
