# glyph_wave

A full-window field of glyphs that ripple around the pointer, with click
pulses and a cursor trail, rendered by a WebGL fragment shader.

- `src/` is the verified library (Verus): bounded histories of pulses and
  trail points (`history`), their packing into the shader's uniform arrays
  (`uniforms`), the glyph ramp (`glyphs`) and atlas layout (`atlas`), and the
  pointer and viewport decisions (`input`).
- `app/` is the browser program (Dioxus + WebGL): event handling, the
  floating-point animation state, and all GPU and DOM calls. It reads the
  GLSL sources from the page's `#wave-vert` and `#wave-frag` script elements.
- `tests/` runs the library on concrete values.
