pub mod bezier;
pub mod color;
pub mod controls;
pub mod geometry;
pub mod obj;
pub mod swp;
pub mod text;
