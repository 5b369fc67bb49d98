# textspec

Collects a machine's hardware specs and prints them as a clean plain-text report,
ready to paste into a forum post or a chat.

## Layout

- `src/` — the library, verified with Verus:
  - `text.rs`: the string operations the parsers use (trim, split, words, lines,
    number parsing and printing), each with its meaning as a spec function.
  - `rounding.rs`: binary64 rounding worked out on integers, for the clock and disk
    size figures of the report.
  - `models.rs`: the snapshot of the machine and its parts.
  - `output.rs`: the report; `format_snapshot` is proved to produce exactly the text
    that the spec function `report` describes.
  - `headings.rs`: where the section titles can stand in the report.
  - `collectors/`: what each part's platform listings (WMI rows, `dmidecode`,
    `lspci`, `xrandr`, `lsblk`, `system_profiler`, `sysinfo`) are turned into.
  - `session.rs`: how the program was started, read from the process listing.
- `tests/` — tests of the library on concrete inputs.
- `app/` — the command-line program: runs the platform queries, hands their output
  to the library, prints, saves or copies the report.
