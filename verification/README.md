# universal_camera

The verified core of a camera application that captures stills and movies,
keeps an index of what it captured, shares media with nearby devices over an
encrypted local-network transfer, and describes imaging pipelines with film,
lens and sensor profiles.

Every function in `src/` carries a Verus contract and is proved against it.

## Layout

- `src/` — the library, verified with Verus.
  - Capture: `camera` (lifecycle state machine, capability checks), `asset`
    (captured assets, frame-rate arithmetic, format validation), `probe`
    (JPEG and ISO-BMFF structure), `media_index` (record validation, listing,
    orphan and recovery rules), `settings` (per-device stored formats).
  - Sharing: `transfer` (session state machine), `session` (key agreement,
    confirmation codes, chunk sealing), `wire` (framed messages, with a
    round-trip law), `transport` (chunk exchange and resumption), `bundle`
    (originals before derivatives), `outgoing` (manifests), `sanitize`
    (metadata stripping, idempotent), `nearby` and `discovery` (peer labels,
    keys, failure reporting, mDNS service records).
  - Imaging: `pipeline` (signal-domain checks), `profiles`,
    `profile_fields`, `snapshot` (catalog and profile resolution),
    `migration` (schema steps), `sensor` (sensor-profile checks), `media`
    (frame geometry, focus peaking), `film`, `lut` (LUT naming and `.cube`
    structure).
  - Shared: `text`, `bytes`, `crypto` (digest wrappers).
- `tests/` — tests of the library on concrete values.
- `app/` — the program around the library: files, sockets, JSON records,
  floating-point image analysis and LUT parsing, and a small probe command.
