# agent_slint

The verified core of the Easy Agent desktop client.

- `src/navigation.rs`: two side tabs, each with its own page stack
  (`NavStore`), the page-key to view table, and the laws of push/pop.
- `src/timestamp.rs`: reading `YYYY-MM-DDTHH:MM:SS(.fff)?Z` into Unix epoch
  milliseconds (`DateTime`), with the proof that the day count agrees with the
  Gregorian calendar.
- `src/sessions.rs`: session recency and the most-recent-first session order.
- `src/messages.rs`: stored messages rendered into transcript lines.
- `src/agent.rs`: error texts of refused requests, labels, mailbox rows.
- `src/transcript.rs`: starting a prompt turn and streaming events into the
  transcript.
- `src/text.rs`: character-level string helpers.
- `app/`: the Slint window and the RPC facade that sends requests and decodes
  replies; it hands plain values to the library.
