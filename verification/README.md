# lau-a2a-protocol

Agent-to-agent communication layer: agents advertise `AgentCard`s, exchange
`A2AMessage`s signed with HMAC-SHA256, keep multi-turn `A2ASession`s, and an
`A2ARouter` delivers messages directly to a registered agent or to the
subscribers of a topic, and searches the directory.

The library in `src/` is written in Verus; its functions carry contracts that
the verifier checks, and the few calls into `hex`, `hmac`/`sha2` and
`str::to_lowercase` stand behind small trusted wrappers whose contracts state
what those crates do.

- `card.rs` — agent cards, endpoints, authentication schemes, and copying them.
- `message.rs` — message types, payloads, the canonical signing string,
  signing and constant-time verification.
- `hexcodec.rs` — the hexadecimal transport form of binary payloads and of
  signatures (the `hex` crate, specified by its exact behaviour).
- `session.rs` — session lifecycle.
- `router.rs` — registration, subscriptions, routing and discovery, modelled
  as a list of cards and a map from topics to subscriber lists.
- `text.rs` — substring search, decimal rendering and lowercasing.
- `error.rs` — the error type and its text.

`app/` holds what the verifier does not see: serde mirrors of the types for
JSON (agent cards, messages, sessions, typed JSON payloads) and helpers that
sign and verify a message with the JSON texts of its type and payload.
