# ui_render

The decisions behind drawing a user interface, verified with Verus: which nodes of an interface are
drawn and to which camera, into which rectangles their borders and outlines are cut, in what order
nodes are drawn, where they are cut off, and how they are grouped into batches of vertices.

- `src/` is the library. It holds single precision numbers as bit patterns, compares them, and never
  computes with them.
- `app/` are the systems of a Bevy application around it. They compute with floating point numbers
  and talk to the graphics card.
- `tests/` run the library on examples.
