pub mod rng;
pub mod rng_laws;
pub mod text;
pub mod text_laws;
