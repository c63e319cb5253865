# avcscope

A **read-only** terminal interface for triaging SELinux AVC denials. It parses
denials, de-duplicates them, shows the enforcing mode, and points to the root
cause (mislabel, port, boolean) instead of a policy module to apply blindly.

It changes nothing: no `setenforce`, `setsebool`, `semanage`, `semodule` or
`restorecon`. It reads logs and runs read-only query commands. Remediations are
shown as text to review and run.

## Layout

- `src/` is the library, written in Verus. Every function states what it returns
  over sequences of characters, and the laws of the library are proof functions.
  - `avc` parses audit lines and groups them; `laws` says what holds of that as a
    whole.
  - `hints` diagnoses a group.
  - `selinux` says what to read to learn the mode and the denials.
  - `ranking` and `order` sort; `state` says what each key does; `screen` and
    `layout` say what is drawn where.
  - `args` reads the command line; `text`, `number` and `time` are the basics.
- `app/` is the program around it: reading, running query commands, drawing.
- `tests/` runs the library on concrete values.

## What is trusted

- `String::push`, `String::pop` and `str::to_lowercase` of the standard library,
  in `src/text.rs`.
- `Layout::split` of ratatui, in `src/layout.rs`: its parts lie inside the area
  that is divided, one for each constraint; a few constraints that fit are met;
  and the rows of a screen of one, three or four rows are stated. How the space is
  shared out elsewhere where the constraints do not fit is not stated.

Timestamps are carried by the bits of a double. Reading one off its text is left
to the program.
