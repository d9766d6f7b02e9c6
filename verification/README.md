# tradingview

A TradingView client whose protocol logic is verified with Verus.

- `src/` is the verified library: the websocket wire format (`frame`), the
  JSON model packets carry (`json`), the messages that open quote and chart
  sessions and what is read from received packets (`packet`), the reader
  loop's state machine (`listen`), session identifiers (`session`), the
  instruments and options (`market`), and the account helpers (`account`).
- `app/` holds the network side: HTTP sign-in with `reqwest`, the websocket
  connection with `tokio-tungstenite`, the serde-enabled copies of the
  library's types, and the parts that read prices as floating point.
- `tests/` runs the library on sample server messages and on concrete
  instances of its laws.
