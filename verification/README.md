# mcface

Shows Minecraft skin faces in the terminal: players by name or UUID (through the
Mojang API) and built-in characters, drawn with coloured blocks, half blocks or
background colours, or written out as PNG files or JSON.

- `src/` is the library, verified with Verus: images (cropping, compositing,
  scaling, PNG decoding and encoding through the `png` crate), cutting a face out of
  a skin texture, terminal rendering and colour matching, the layout of faces in rows,
  the Mojang API's names, UUIDs, documents and cache keys, the built-in characters,
  and the steps that resolve a command-line target.
- `app/` is the command-line program around it: argument parsing, HTTP requests,
  the file cache, environment variables and terminal output.
- `tests/` holds the tests of the library.
