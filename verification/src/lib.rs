//! The simulation core of a team-based arena game for networked players.
//!
//! The world advances in ticks, sixty to the second. A tick is a function
//! of the world before it and the inputs it holds, in exact integer
//! arithmetic, so the server and every client that replays it reach the
//! same state bit for bit.
//!
//! * `math`, `vec2`, `angle`: fixed-point geometry.
//! * `components`, `protocol`, `world`: the data.
//! * `movement`, `ai`, `collision`, `respawn`: the systems; `systems`: the
//!   tick that runs them in order.
//! * `enemies`, `waves`: the spawner and the wave director.
//! * `prediction`: a client's prediction and its reconciliation with the
//!   server.
//! * `replication`: the server's bookkeeping of clients, ships and updates.
//! * `presentation`: what there is to draw.
//! * `sim`: a world with the calls to set up and run a scene.

pub mod math;
pub mod vec2;
pub mod angle;
pub mod protocol;
pub mod components;
pub mod world;
pub mod movement;
pub mod ai;
pub mod collision;
pub mod respawn;
pub mod systems;
pub mod enemies;
pub mod waves;
pub mod sim;
pub mod prediction;
pub mod replication;
pub mod presentation;
