# raycaster

The drawing and game rules of a small maze game rendered in 2D and 3D,
verified with Verus.

- `src/framebuffer.rs`: the pixel buffer, points, rectangles and spans, and the
  `paint` model that every drawing contract is stated in; the operations'
  abstract effect (`apply_op`, `run_ops`) and their laws.
- `src/glyphs.rs`: the 5x5 bitmap font, the frame counter and the success screen.
- `src/scene.rs`: maze cells seen from above (2D view, minimap), floor and wall
  columns of the 3D view, and the vertex order of the triangle filler.
- `src/caster.rs`: what a ray meets at each point of the maze grid.
- `src/player.rs`: which cells the player may enter, and the keyboard commands.
- `src/maze.rs`: the maze file's text split into rows of cells.
- `src/game.rs`: what each frame draws, and the view and minimap toggles.
- `src/texture.rs`: RGBA textures decoded with the `image` crate.
- `app/main.rs`: the game itself: window (`minifb`), file reading and the
  floating-point geometry (`nalgebra-glm`) of the player, the rays and the
  triangle interpolation.
