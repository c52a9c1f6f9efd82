# pool_controller

Talks to a Pentair pool controller over its RS-485 bus: reads its packets, and sends the orders
that arrive over MQTT.

The worker looks for a message in the body of each packet, and takes it for one only where a frame
of its own, with start byte and checksum, stands in the body. A status message found there is
reported over MQTT, and an acknowledgement ends the order under way. The body of an ordinary packet
holds no frame, so such a packet is read, checked and discarded.

- `src/` is the library, verified with Verus. It touches no hardware.
  - `pentair`: packets and messages, how they are encoded and decoded, and what holds between the
    two (`pentair/laws.rs`).
  - `pool_worker`: the state machines of the bus worker. `scanner` finds a header, `reader` reads
    the packet behind it, `link` sends orders and repeats them, up to a limit, until an
    acknowledgement is decoded, `queue` holds the messages that wait, and `worker` puts them
    together. `orders` states what holds of an order until it is done with, and `run` what holds of
    the worker's loop.
  - `mqtt`: reports and orders.
  - `parse_log`: reads packets back from a log of the bus.
  - `text`: numbers in text.
- `app/` is the program around it: the firmware on an ESP32, and on a computer the tool that
  extracts the packets from `pool.log`.
- `tests/` runs the library on concrete values.

Proof functions whose names start with `law_` state what the library promises as a whole.
