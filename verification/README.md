# zerowire

Share a USB device over the LAN: a sender (a phone, or a Linux machine with
`/dev/hidraw` devices) exposes devices, a receiver attaches one of them as a
virtual mouse or keyboard, or through the kernel's `vhci-hcd`.

The library under `src/` is the logic, verified with Verus; `app/` is the
program around it: sockets, TLS sessions, sysfs, `/dev/uinput`, JSON, the
command line and the window.

| Module | What it holds |
| --- | --- |
| `bytes`, `text`, `scan` | big-endian integers, formatting, scanning |
| `protocol::envelope` | the frame that everything on the wire travels in |
| `protocol::usbip` | USB/IP frames and URB headers |
| `protocol::hid` | frames of the HID fast lane |
| `protocol::control` | control messages and device summaries |
| `protocol::discovery`, `protocol::psk` | TXT records, key derivation |
| `desktop::client`, `desktop::sender` | both sides of the handshake |
| `desktop::receiver`, `desktop::report`, `desktop::uinput`, `desktop::key_state` | reports to input events |
| `desktop::urb_pump`, `desktop::urb_driver`, `desktop::loopback` | answering and issuing URBs |
| `desktop::usbip`, `desktop::usbip_receiver` | `vhci-hcd` and its stand-in |
| `desktop::discovery`, `desktop::hidraw`, `desktop::hid_descriptor`, `desktop::tls`, `desktop::wire`, `desktop::cli` | the rest of the desktop side |
| `gui` | pairing payload, QR picture, daemon status |

Functions state in their contracts what they return. Facts that relate several
functions are public proof functions named `lemma_*`: frames and headers read
back as what was written, a handshake between matching sides completes on every
device list from which the receiver can choose, a virtual keyboard holds down
exactly what the last report says, and the default URB script succeeds against
the pump as long as its bytes fit the pump's counter.
