# file_explorer

The verified core of a small graphical file explorer.

- `src/` is the library, checked by Verus:
  - `text`: decimal digits and zero padding;
  - `format`: file sizes ("1.5KB") and modification times ("2023-12-26 22:13");
  - `entry`: the row shown for a file, and whether a file is executable;
  - `order`: the stable order of a listing (directories first, then by name);
  - `pattern`: the literal, case-insensitive search pattern, compiled with `regex`;
  - `search`: the breadth-first search over directories;
  - `session`: the search state and the directory being shown, as steps.
- `app/` is the program: the Slint window, file system access and the
  background search thread.
- `tests/` runs the library on concrete values.
