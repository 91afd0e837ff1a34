# acer-profile

Power profiles (`eco`, `normal`, `performance`) for the Acer Swift SFG14-73
(Intel Core Ultra 9 185H) on Linux, and a stand-in for power-profiles-daemon
on the DBus system bus.

## Layout

- `src/` is the library, verified with Verus. It decides what is written to
  which sysfs file and in which order (governor, then EPP, then RAPL PL1/PL2,
  then the i915 maximum and boost frequency; no EPP write under the
  `performance` governor), how sysfs values are read back, how a busy file is
  retried, what the state file records, what the DBus interface answers, how
  the PL2 probe proceeds and how `sensors` output is read.
- `app/` is the program around it: command-line handling, file and process
  I/O, the DBus service (zbus) and the configuration file (TOML via serde).
- `tests/` runs the library on concrete values.

## Main properties proved

- Profile writes come lever by lever in the order above
  (`levers::lemma_plan_order`), and none touches the EPP under the
  `performance` governor (`levers::lemma_performance_skips_epp`).
- After a profile's writes, the files the readouts are taken from give the
  profile's values back, PL1 and PL2 never swapped
  (`levers::lemma_profile_reads_back`); a file that is busy, whether on
  opening or on writing, is tried at most three times
  (`levers::lemma_write_retries_bounded`).
- Setting a profile succeeds only when the state file was written
  (`controller::set_succeeded`).
- Setting a profile records it in the state file, and reading the state file
  gives it back (`controller::lemma_set_profile_records`).
- Every accepted name maps to a canonical profile, canonical names map to
  themselves, and a profile set over DBus reads back under the name it was
  set by (`profiles`, `dbus::lemma_set_then_get`).
- Every path a sysfs pattern walk returns matches the pattern, and the list
  is sorted (`glob::GlobWalk::finish`).
- The PL2 probe never recommends less than 64 W nor more than 115 W
  (`probe::lemma_probe_within_limits`); over a whole run it offers a rising
  prefix of 64, 80, 100, 115 W and, once ended, never moves again
  (`probe::lemma_probe_run`).
