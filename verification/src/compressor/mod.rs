pub mod compressed_data;
pub mod inlining;
pub mod is_final;
pub mod literals;
pub mod osm_tags;
pub mod tags;
pub mod types;
pub mod topn;
