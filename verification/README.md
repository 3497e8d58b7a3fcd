# gurk

The drawing logic of a terminal messenger, verified with Verus. From the state of the user
interface and the size of the screen it calculates what is on the screen: a search box and a list of
channels on the left, the messages of the selected channel and a box to answer them on the right, or
the list of keyboard shortcuts.

- `src/draw.rs` splits the screen and draws its parts; `src/channels.rs` and `src/chat.rs` draw
  those with the channels and the messages.
- `src/message.rs` lays out one message, `src/viewport.rs` chooses those that fit on the page, and
  `src/receipts.rs` tells their senders that they were read.
- `src/input.rs` wraps the text that is being edited and moves the cursor along with it.
- `src/data.rs`, `src/names.rs` and `src/widgets.rs` hold the state and what is put on the screen.
- The modules whose names end in `_laws` prove what holds across several of these functions.
- `src/columns.rs`, `src/text.rs`, `src/clock.rs` and `src/layout.rs` hold the calls into other
  crates, with what is taken on trust of each.

`app/` renders the result with `tui` and connects the state with the rest of the messenger, which
fills in the names of users and channels, leaves the channels that match the search, and sends the
queued receipts.
