# acis_append

Writes boundary-representation bodies into ACIS SAT documents as fresh sets of
records, beside whatever the documents already hold.

- `src/` is the library. `layout` says what a body looks like as records,
  `append` writes it, `laws` and `reading` state what follows, and `document`
  states what is taken from the `acadrust` crate.
- `app/` turns floating-point geometry into the form that the library writes.
- `tests/` runs the library on whole bodies and on single records.

The document is `acadrust`'s `SatDocument`: that crate holds the records and the
header, knows the token layout of spline curves, spline surfaces and
parameter-space curves, and reads and writes the text and binary forms. Which
records a body becomes and what they point at is this library's own work; none
of it comes from `acadrust`.
