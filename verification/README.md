# rebotarm_control_rt

Control library for the reBot Arm B601: configuration reading, command-line
options, CSV trajectories and identification datasets, URDF text edits, the
per-vendor motor rules and the control-loop decisions.

## Layout

- `src/` is the verified library. Every function there carries a contract
  over spec functions of `Seq<char>`, `Seq`, integers and the library's own
  enums, and Verus proves it. The laws of the library (headers read back as
  written, deadlines without drift, a confirmed motor stays confirmed, and
  others) are public proof functions beside the code they speak of.
  YAML documents are parsed by `serde_yaml` behind one trusted wrapper;
  everything read from the document is verified.
- `tests/` runs the library on concrete values.
- `app/` holds what the verifier does not take: the Python binding (PyO3),
  threads and timing, file and device I/O, floating-point kinematics and
  dynamics, and the calls into the motor vendor crates. It asks the library
  for every decision: which mode to switch to, which register to write,
  whether a vendor supports an operation, when a control tick is due.

Offsets into text that the URDF functions take and give are byte offsets of
the UTF-8 encoding, so they index a `str` directly.
