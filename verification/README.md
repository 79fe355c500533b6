# cubes

A voxel world drawn isometrically, a slice at a time: terrain from a noise image with
craters blasted into it, lanterns that light the cubes around them, and workers that find
their way across the world to plough, dig and build. The library also models water that
runs down and levels out (`Grid::update_active_water`); the game loop does not run it yet.

The library in `src/` holds the rules, each function with its contract proved by Verus:

- `grid`: cubes, light and the grid of the world;
- `water`: how water reacts to changes of the grid, and how it flows;
- `agents`: path finding, workers and their tasks;
- `game`: one tick of the game loop for each worker, and requests to the loop;
- `animation`, `resources`: named animations and sprites built from decoded images;
- `render`, `frame`: rasterising faces and sprites, and drawing the view;
- `view`, `input`: the camera, the player's keys and mouse, and what a selection does;
- `world_generation`: terrain, craters and placing the workers;
- `laws`: properties that span several operations.

`app/main.rs` is the program around it: it reads the image files, opens the window and
runs the game loop in a thread of its own.
