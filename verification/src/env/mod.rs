pub mod grid_world;
