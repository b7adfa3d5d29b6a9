# loggle

A terminal log viewer. It reads lines from standard input or from commands that
it runs, makes events of them, and lets them be filtered, searched, marked and
copied. Each session keeps its lines as a page that other programs can query.

- `src/` is the library: reading lines into events (`model`), the bounded buffer
  (`buffer`), filters (`filter`), facets (`facet`), the viewer's state and what
  keys do to it (`app`, `runtime::keys`), starting and ending commands
  (`runtime`), pages (`page_log`), configurations (`config`), the command line
  (`cli`) and what is shown (`ui`). Every function states what it does, and Verus
  proves it. Functions named `law_...` state what holds across functions.
- `tests/` runs the library.
- `app/` is the program around it: processes, files, the terminal.
