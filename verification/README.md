# bluetooth

The decisions of a desktop applet for Bluetooth, verified with Verus, and the
thin layer that connects them to BlueZ.

- `src/` is the verified library. It does no I/O: it takes what BlueZ, `rfkill`
  and the channels delivered, and says what to do next.
  - `address`, `property`, `device`: a device as it is read and shown.
  - `order`, `listing`: the sorted list of devices.
  - `state`, `power`, `changes`: what to publish and which devices to reconnect.
  - `request`, `active`, `rfkill`: how a request runs, and what it is answered.
  - `agent`, `passkey`: what the user is asked while devices pair.
  - `session`, `listening`, `backoff`: setting up a session and passing on its
    events.
- `app/` performs the steps: D-Bus through `bluer`, tasks and channels through
  `tokio`, the subscription through `iced_futures` (the crate behind the
  subscriptions of iced and of `cosmic`; `cosmic` itself is not used).
- `tests/` runs the library on concrete values.

`dbus` is listed for its `vendored` feature, which builds libdbus with the crate.
