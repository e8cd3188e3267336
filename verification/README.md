# gm65_scanner

Driver logic for GM65 / M3Y QR barcode scanner modules, written in Verus and
verified: every function in `src/` carries a contract that Verus proves.

- `protocol` — command frames of the GM65 serial protocol and response parsing.
- `buffer`, `scanner_core` — scan buffering and the sans-I/O core: the
  initialization state machine (proved to terminate) and scan-byte handling.
- `settings`, `policy`, `state_machine` — the Settings register as typed
  fields or flags, and the supported scan policies.
- `decoder` — payload classification and UR multi-part reassembly.
- `hid` — USB HID keyboard-wedge and POS barcode reports.
- `display_util`, `text` — line wrapping and centred-label layout for
  fixed-width screens, and the byte/UTF-8 helpers they rest on.
- `driver`, `scanner` — the blocking drivers over a polled UART, the state of
  the async driver, and the decisions of the multi-baud recovery ladder.

`app/` holds what is not verified: the `embedded-hal` UART adapter, the async
driver loop over `embedded-io-async` with `embassy-time` timeouts, the
multi-baud runner, `Display` for the error types and the hardware-in-the-loop
sequences of the async driver (those of the blocking driver are in
`driver::sync::hil_tests`).
