# ms_licenses

How Windows and Office are activated on this machine: the part of the
`licenses.ms` Limen module that decides what is read back from the licensing
query, what order licences are shown in, what is remembered between calls, what
each screen shows and what other modules are answered — written in Verus, with
each function's behaviour stated in its contract and proved.

- `src/` — the library. `store` reads back the query's line format, `order`
  and `sorting` give the display order and prove what it keeps, `license`
  names status codes, `catalog` holds the English and Ukrainian texts,
  `widget`/`view`/`report` describe the screens and the report, and `handler`
  is the module's state machine: each call takes what the host did and decides
  the next state and the screen.
- `tests/` — the module's scenarios, run against the compiled library.
- `app/` — the Limen side: running PowerShell, the elevated read and its file,
  the report provider call, and turning screens into the host's widgets.
