# timebomb

Structured expiry annotations for source code — `TODO[2026-06-01]: message`
or `FIXME[2026-03-15][alice]: message` — found by a sweep that fails once a
deadline has passed.

- `src/` is the library, verified with Verus: the fuse grammar and the
  scanner, the classification of fuses, planting, delaying and removing
  fuses in a file's text, the hook block, reports and their comparison,
  statistics, and the text every command shows. Its laws (planting then
  sweeping finds the fuse, delaying moves only the date, removing from the
  bottom up takes out exactly the lines listed, and others) are proof
  functions beside the code they speak of.
- `app/` is the command around it: argument parsing, walking the tree,
  files, git, prompts, colour and JSON.
- `tests/` runs the library on concrete inputs.
