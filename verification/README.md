# split_keyboard

Firmware logic of a split keyboard built on two RP2040 boards joined by a
TRS cable, verified with Verus.

Each half has 17 switches in one matrix row. Both halves share one keymap of
four rows of ten keys; the left half fills columns 0..4 of each row
(mirrored), the right half columns 5..9. The right half talks USB to the
host; the left half sends its key events over the serial line, one byte per
event (bit 6: press, bits 5..0: layout column, bit 7 on the last byte of a scan).

The keyberon release this crate builds on (0.1.1) has no chording, no custom actions and
no hold-tap options: the chords Q+W (Escape), C+V (Tab) and L+O (Enter) are
gone, so Escape cannot be typed; hold-taps have no permissive hold; and the
layout never asks for the UF2 or reset restarts.

- `src/keys.rs`: key events and the column transform of each half, with the
  proofs that the halves never share a key and that the transform is
  one-to-one.
- `src/link.rs`: the serial byte protocol and its round-trip proofs.
- `src/scan.rs`: one matrix scan (debounce with keyberon, transform, route),
  with the debouncer's state law and its proofs.
- `src/handle.rs`: the keymap model, building the keyberon layout from it,
  feeding and ticking the layout.
- `src/usb.rs`: the state machine that decides when a report goes to the host.
- `app/main.rs`: the RTIC firmware: hardware set-up, interrupts, USB, UART.
