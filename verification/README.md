# Endless Sketch

The rules of a drawing program whose canvas has no end: a camera that zooms and
pans without limit, strokes and filled areas on layers, an eraser that cuts what
it crosses, selections, bookmarks, and the tiles that show what lies far away.

- `src/` is the library. Every function states what it does, and Verus proves it.
- `tests/` run the library on given values, with floating-point arithmetic where
  the canvas needs it.
- `app/` is the window around the library: the toolkit, the files and the
  floating-point arithmetic.

Numbers of the screen and of the camera are held by their bit patterns. What is
computed with them is asked of functions that the caller hands over; the library
proves what it does with the answers. Where a promise rests on how exact an answer
is, such as that zooming keeps what is under the pointer, `src/precision.rs` says
what is asked of it: no more than arithmetic gives that rounds to the nearest
number. The tiles of the canvas have indices of any
size, which `num-bigint` adds and multiplies.
