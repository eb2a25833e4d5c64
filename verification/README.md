# toxxi

The model and logic of a terminal chat client for the Tox network, written
in Verus: every function in `src/` carries a contract that Verus proves.

- `src/domain.rs`, `src/model.rs`: the client's state (contacts,
  conversations, windows, input) and its invariant.
- `src/update.rs`, `src/reconcile.rs`: how network, disk and timer events
  change the state and what they ask of the outside.
- `src/keys.rs` and the modules it calls (`overlay_keys`, `nav_keys`,
  `enter_key`, `chat_keys`, `input_keys`, `send`, `blocked`): the way of a
  key through the client.
- `src/input_box.rs`, `src/input_layout.rs`, `src/history.rs`: the input
  box, its layout, undo and history.
- `src/message_list.rs`, `src/sidebar_list.rs`, `src/log_view.rs`,
  `src/export.rs`, `src/svg.rs`: what the windows show and how a screen is
  exported.
- `src/log_cleaner.rs`, `src/bootstrap.rs`, `src/config.rs`,
  `src/utils.rs`: log cleaning, bootstrap nodes, settings, hex and message
  splitting.
- `app/`: the program around the library (argument handling, files, the
  terminal).
- `tests/`: tests run against the compiled library.
