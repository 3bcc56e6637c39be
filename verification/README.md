# gpiodemo

A routed, newline-delimited ASCII protocol for driving the GPIO pins of
microcontroller boards over a serial link, with the host session logic and
the board firmware logic, written in Verus and proved against their
contracts.

What the firmware does to a board is stated over a model that each board
gives through the `GpioHal` trait: its pin map, the mode of each pin (an
input with or without pull-up, or an output driving a level) and the input
bits of each bank. The handler's contract says how each request changes the
modes, and every level the firmware reports is the bit of the pin's bank that
the board presents. Boards that are not verified, such as the test boards,
are trusted to keep their model as the trait's contracts describe; in
particular, a board's input bits stand still while the firmware only reads it.

## Layout

- `src/` — the verified library.
  - `ascii`, `tokens`, `words`, `numbers`, `values`, `pins`, `request_id`:
    the protocol's vocabulary: bytes, tokens, identifiers, pins and values.
  - `line`: reassembling packets from a byte stream.
  - `message`, `request`, `response`: encoding and decoding routed lines.
  - `round_trip`: what decoding an encoded packet gives back.
  - `connection`: the host side: request identifiers, pending requests,
    pin-map discovery, listeners, and what each answer means.
  - `io_state`: the serial worker's state: queued writes, line framing,
    coalesced listener updates and which serial failures are retried.
  - `serial_log`: the batched log the user reads.
  - `gpio`, `lpc`, `router`: the firmware side: the pin map, the request
    handler, the LPC1115 pin table and routing.
- `tests/` — tests against the compiled library.
- `app/` — a terminal front end: it opens the serial port, runs the serial
  worker thread and forwards typed requests.

Run it as `app PORT`, then type requests such as `SAM HAI`, `SAM MAP`,
`SAM DIR PA00 IN OK?` or `LPC GET PIO2_3 OK?`.
