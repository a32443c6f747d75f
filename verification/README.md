# lsc

A colored directory listing in the manner of `ls`, with its logic verified by
Verus.

- `src/` is the library: how each entry is shown (`file`), the colors and the
  color scheme (`colors`), sorting (`order`), the column and long layouts
  (`cli`), the whole run from the entries read to the printed text
  (`listing`), and decimal and padded text (`text`).
- `app/` is the command line: it parses the options, reads the directory and
  the terminal width, calls `lsc::run`, and prints.
- `tests/` runs the library on concrete listings.

Usage: `lsc [-a] [-l | -ll] [-s] [-n N] [PATH]`.
