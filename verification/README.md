# alloy

A small WebGL2 demo (instanced cubes under a skybox, with an orbit and a
free-flight camera), split into a verified library and the browser code
around it.

- `src/` is the library, written in Verus and verified:
  - `hdr`, `header`, `text`: the Radiance (`.hdr`) decoder — the text
    header, run-length and uncompressed scanlines, and the orientation of
    the pixels;
  - `encoding`: the laws that both storage forms decode to the pixels they
    store;
  - `cubemap`: the byte layout of cubemap faces;
  - `skybox`: skybox descriptions;
  - `input`: the keyboard and mouse rules of the camera;
  - `canvas`: the settings an app is built with.
- `app/` is the browser side: WebGL and DOM calls, the floating-point
  camera and sampling code, and the animation loop, which acts on the
  library's decisions.
- `tests/` exercises the library on concrete inputs.

Build the browser package with `wasm-pack build --target web`.
