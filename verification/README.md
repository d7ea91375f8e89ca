# death_maze

A ray-casting maze game. The verified library (`src/`) holds the parts that
decide what ends up on screen:

- `framebuffer`: the pixel buffer, its background and drawing colours, point
  plotting and text pixels;
- `texture`: textures of packed `0xRRGGBB` colours, made from an image
  file's bytes (decoded by the `image` crate) or from RGBA8 pixels, channel
  packing and the texel reads used by sampling;
- `maze`: the maze file's rows and collision of a pixel with the maze;
- `caster`: one step of a top-down or first-person ray, the rows of a wall
  column and its painting;
- `render`: the top-down map, the minimap cells and marker, the welcome
  screen;
- `game`: the frame-rate counter.

`app/` is the program around it: the window, keyboard, sound, reading the
image, maze and font files, and the floating-point geometry (ray angles and distances, texture
coordinates, minimap scaling, glyph coverage), which hands integer pixels and
colours to the library.
