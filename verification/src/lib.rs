//! Extraction pipeline for a university course catalog: turns raw HTML
//! catalog pages, listing pages and XML schedule feeds into normalized
//! course records (listings, course pages, instructor assignments,
//! requirements, schedule blocks).

pub mod extract;
pub mod instructors;
pub mod listings;
pub mod model;
pub mod query;
pub mod requirements;
pub mod text;
pub mod user;
