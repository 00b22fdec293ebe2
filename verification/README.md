# udev_hid_bpf

A verified library for loading HID-BPF programs for HID devices, and the
`udev-hid-bpf` command line around it.

- `src/` is the library, written and proved with Verus: command line path
  splitting, udev properties and their precedence, the grouping of BPF
  objects by stem and priority, the lookup of objects and of the devices
  they declare, bpffs paths, the generated udev rules and install layout,
  the injection of udev properties and of the report descriptor (in its
  C layout) into BPF data sections, BTF layout validation, and the
  decisions of the loaders (probe and attach arguments, return values,
  pinning, the order of the load stages and where a failure stops them,
  which object of a group is tried next).
- `app/` is the program: argument parsing, sysfs, udev, bpffs and libbpf
  calls, JSON output.  It runs the library's functions on what it reads.
- `tests/` exercises the library on concrete values.
