# xplane-gdl90

An X-Plane plugin that sends the aircraft's position to electronic flight
bags over UDP in the GDL90 format, with a settings window and a dataref
browser.

- `src/` is the verified library (Verus):
  - `addr` — socket addresses as plain integers, and their order;
  - `targets` — the devices found by discovery, a `BTreeMap` keyed by the
    address as a tuple of integers, iterated in address order;
  - `socket` — the socket settings and the decisions of each send cycle
    (record a discovery broadcast, drop devices gone quiet, throttle, choose
    the targets);
  - `state` — the saved settings and the payload of one send;
  - `input` — the settings window's text fields and how they become settings
    (durations are parsed and formatted by `humantime`);
  - `viewer` — the dataref browser's type selection, refresh period and
    rendering of arrays.
- `app/` is the plugin around it: X-Plane entry points, window drawing,
  simulator data (floating point), the UDP socket, GDL90 encoding, saving
  settings and logging.
- `tests/` runs the library on concrete values.
