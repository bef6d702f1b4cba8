# widget_container

A Matrix widget container: it logs in, joins a room and hosts the Element Call
widget in a window, passing widget-API messages between the widget and the
widget driver of matrix-sdk (`matrix_sdk::widget`).

Run it with four parameters: homeserver URL, user name, password and the room
id for the widget driver. With fewer, it prints the usage line and exits with
status 1.

- `src/` is the verified library (Verus): the command line (`cmd`), JSON
  documents as plain values with their well-formedness, read from and written
  to JSON text through serde_json (`json`), the replies and join requests the
  container writes, from message text to reply text (`custom_messages`), the Element Call
  address and its percent-encoding (`element_call_url`), and the widget
  driver's rules (`widget_driver`): the capabilities granted to Element Call,
  the routing of widget messages, the hang-up reply, and the post-message
  script, which is only built for a message that is JSON text.
- `app/` is the program around it: login and sync with `matrix-sdk`, the
  `tauri` window, the async tasks, logging, and the conversion of the library's
  capability types into those of `matrix-sdk`. The capability provider
  grants Element Call exactly the capabilities that `widget_driver` lists,
  whatever it asks for.
