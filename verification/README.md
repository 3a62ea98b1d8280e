# ui_designer

A designer for the screens of ittyOS: a screen is a list of items (fills,
rectangles, texts, images), kept as JSON in a comment at the top of a
generated C file, and turned into C code that draws the 480x320 screen in
horizontal bands of 40 rows.

- `src/` is the verified library (Verus):
  - `model` — fonts, items, the canvas;
  - `chunks` — which bands an item reaches;
  - `codegen` — the C drawing code, with the table of code per band range;
  - `files` — the `.c` and `.h` files and reading the items back;
  - `textops`, `text` — searching, replacing and trimming text, numbers;
  - `color`, `pixels` — display colours and preview pixels.
- `app/` is the program around it: the window and preview (macroquad), the
  file watcher (notify), reading and writing files, image decoding, and the
  JSON (serde) forms of the library's types.
- `tests/` runs the library on concrete screens.
