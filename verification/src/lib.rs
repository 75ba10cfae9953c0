//! Verified core of a city simulation: occupancy bitboards, a frame bump
//! allocator, the software render backend, colour and style tables, save-data
//! encodings, the simulation clock, the design tool and the map it edits,
//! and parking.

pub mod bitboard;
pub mod bump_alloc;
pub mod platform;
pub mod gpu_backend;
pub mod ecs;
pub mod persistence;
pub mod render_cache;
pub mod customization;
pub mod sim;
pub mod simd_render;
pub mod politics;
pub mod judicial;
pub mod tax_system;
pub mod financial_market;
pub mod audio;
pub mod supply_chain;
pub mod input;
pub mod interactive;
pub mod design_world;
pub mod parking;
pub mod labor_market;
pub mod render;
pub mod rng_pool;
pub mod terrain;
