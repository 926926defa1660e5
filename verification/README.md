# agent_backend

The backend of a campus assistant: a web and terminal chat front to a
language model that can call tools (files, shell, Canvas courses, mail,
PDFs, the browser). The logic is a Verus library; the program around it
does the I/O.

## Layout

- `src/` — the verified library.
  - `text.rs` — text over characters: trimming, lines, searching, decimal
    numbers, ordering, UTF-8 byte counts, joining.
  - `sessions.rs` — session ids, records and their revisions, starting and
    finishing a turn, listing order.
  - `skills.rs` — reading a skill's front matter and the skills section of
    the system prompt.
  - `server.rs` — the system prompt, ports and directories, and what the
    server does with a client's message.
  - `chat.rs` — the progress events of a turn and the decisions on each
    reply of the model.
  - `tools.rs` — which tool a name selects and the text each tool answers
    (clipping, edits, reading, PDFs, courses, Canvas files, mail requests).
  - `canvas.rs` — Canvas statuses, the walk through a file list's pages,
    and the reports on assignments and files.
  - `mail.rs` — the mail reports, each mail read with mail-parser.
  - `tui.rs` — the terminal client's state, key handling and layout.
- `tests/` — tests of the library.
- `app/` — the program: HTTP and WebSocket server (axum), plain TCP
  interface, session storage, tool I/O (reqwest, imap, pdf-extract), the
  model calls (async-openai) and the terminal client (ratatui).
