# webshotd

Web screenshot server: an HTTP service that captures full-page screenshots
with a persistent Chromium instance, resizes them, and slices them into
vertical frames.

- `src/` is the verified library: the screenshot endpoint's decisions as a
  state machine (`routes::screenshot`), how a screenshot is resized and
  the geometry of its frames (`image`), frame file names (`text`), the sorted listing of written
  frames (`order`), replies and errors.
- `app/` is the server around it: command line, axum routes, the browser
  worker (chromiumoxide), libvips calls (no libvips library can be
  linked on the build machine, so they cannot stand in the library), the
  floating-point scale factors, and file I/O. It performs the
  actions the state machine asks for and reports back what came of them.
- `tests/` exercises the library on concrete values.
