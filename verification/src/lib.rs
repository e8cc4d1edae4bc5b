pub mod text;
pub mod command;
pub mod legacy;
pub mod packs;
pub mod mental_math;
pub mod fuzzy;
pub mod hashing;
pub mod exec;
pub mod speech;
pub mod recorder;
