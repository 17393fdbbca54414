# PowerPico client core

The backend of the PowerPico desktop client: it lists the device's serial
ports, records its measurement stream, flashes firmware over YMODEM, fetches
official firmware and checks for client updates.

- `src/` is the verified library. Every function there carries a contract
  proved by Verus: the wire protocol (`protocol`), the YMODEM sender and its
  CRC (`ymodem`), bootloader detection and the flashing decisions
  (`firmware`), device listing and rediscovery (`device`), the capture
  session (`capture`), settings rules (`types`), recording file layout
  (`storage`, `paths`), download and update rules (`network`), storage
  accounting (`maintenance`) and error reporting (`error`).
- `app/` holds what runs around it: serial ports, files, HTTP, threads, the
  JSON shapes the user interface exchanges, and the floating-point
  measurement arithmetic.
- `tests/` exercises the library on concrete values.
