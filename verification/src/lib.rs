//! Reading and editing player records of a running baseball game.

pub mod abil;
pub mod abil_laws;
pub mod agreement;
pub mod balls;
pub mod bytes;
pub mod cheats;
pub mod digits;
pub mod edit;
pub mod edit_laws;
pub mod fields;
pub mod growth;
pub mod growth_laws;
pub mod json;
pub mod koshien;
pub mod library;
pub mod library_file;
pub mod library_laws;
pub mod number_laws;
pub mod offsets;
pub mod order;
pub mod overall;
pub mod overall_laws;
pub mod pattern;
pub mod pattern_laws;
pub mod pitches;
pub mod player;
pub mod player_laws;
pub mod process;
pub mod rating_laws;
pub mod recruit;
pub mod research;
pub mod roster;
pub mod roster_laws;
pub mod scan;
pub mod scan_laws;
pub mod search;
pub mod session;
pub mod show;
pub mod skills;
pub mod special_laws;
pub mod sweep;
pub mod sync_laws;
pub mod table_laws;
pub mod teams;
pub mod text;
pub mod text_laws;
pub mod training;
pub mod traits;
pub mod unicode;
