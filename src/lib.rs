// Procedural dungeon levels on a tile grid, and what can be seen on them.
//
// A level is built by a chain of stages (`chain`): one stage draws a first
// map (cellular caves, drunkard's walks, aggregation, Voronoi cells, mazes,
// partitioned rooms), and meta stages then rework it (start and exit
// placement, culling of unreachable ground, corridors, doors, spawns,
// decoration, set pieces, waveform collapse). `biome` holds the chains used
// at each depth. `reach` computes walking distances and `fov` computes field
// of view by recursive shadowcasting.

pub mod tiletype;
pub mod map;
pub mod fov;
pub mod reach;
pub mod random;
pub mod cellular;
pub mod rect;
pub mod builder;
pub mod area;
pub mod cull;
pub mod exit;
pub mod drunkard;
pub mod lines;
pub mod dla;
pub mod prefab;
pub mod bsp;
pub mod rooms;
pub mod sorter;
pub mod doors;
pub mod voronoi;
pub mod maze;
pub mod wfc;
pub mod spawning;
pub mod decorator;
pub mod chain;
pub mod biome;
pub mod themes;
pub mod lighting;
pub mod demo;
