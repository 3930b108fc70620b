//! Board-game catalog library: name matching against the Board Game Arena
//! catalog, the BoardGameGeek data model, and HTML catalog rendering.
pub mod text;
pub mod bga_match;
pub mod bgg;
pub mod render;
pub mod cache;
pub mod flaresolverr;
pub mod popular;
pub mod bga_catalog;
pub mod clock;
