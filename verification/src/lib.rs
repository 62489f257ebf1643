//! A generational population simulation over symbolic genomes.
//!
//! `evol_prim` holds the genome alphabet, the mutation operator and the
//! decoding helpers; `random` is the boundary to the random source; `sim` is
//! the engine that steps a population; `e0` .. `e6` are small rule sets;
//! `vis` rasterises a recorded history.

pub mod e0;
pub mod e1;
pub mod e2;
pub mod e3;
pub mod e4;
pub mod e5;
pub mod e6;
pub mod evol_prim;
pub mod random;
pub mod sim;
pub mod vis;
