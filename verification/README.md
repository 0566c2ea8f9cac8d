# tz_offset_fmt

Turns the many ways people write a UTC offset (`+5:30`, `UTC+05:30`,
`utc+5`, `-0800`, `Z`, `PST`) into one canonical form, `+HH:MM` or
`-HH:MM`, and pulls such an offset out of the end of a datetime text.
Offsets outside `-12:00..+14:00` are refused.

The library is written in Verus and proved against its contracts.

- `src/offset.rs`: `Offset` (signed minutes, kept in range by a type
  invariant), `OffsetError`, and their canonical texts.
- `src/text.rs`: the character-level model (Unicode whitespace, trimming,
  ASCII upper case, decimal digits) and the loops over it.
- `src/zones.rs`: the table of fixed-offset abbreviations.
- `src/parse.rs`: `parse_numeric`, `normalize`, `extract_offset`, and what
  each returns on every text.
- `src/batch.rs`: the decisions of the stdin batch mode: what each line
  reports, and how the run ends.
- `src/laws.rs`: properties that span the functions.
- `app/main.rs`: the command line tool, which normalizes its arguments, or
  reads stdin line by line and carries out what `src/batch.rs` decides.
