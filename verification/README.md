# cpu_pin

Cross-platform CPU core type detection and thread pinning, with the detection logic
verified by Verus.

- `src/` is the verified library. `linux`, `macos` and `windows` turn what each
  operating system reports (the text of sysfs files, `sysctl` values, the record buffer
  of `GetLogicalProcessorInformationEx`) into a list of `CpuInfo`; `topology` builds the
  `CpuTopology`; `laws` holds the properties proved across functions; `text` holds the
  character-level parsing helpers.
- `app/` reads those values from the system, caches the topology, makes the pinning
  system calls and implements `PinnedCommand` for `std` and `tokio` commands.
- `tests/` exercises the library on concrete inputs.
