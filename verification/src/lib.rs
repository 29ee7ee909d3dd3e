pub mod cli;
pub mod json;
pub mod engine;
pub mod match_structs;

pub use cli::Args;
pub use cli::FlagArgs;
pub use engine::CompiledPattern;
pub use engine::PatternError;
pub use engine::build_regex;
pub use engine::get_matched_items;
pub use engine::match_multiregex;
pub use match_structs::RegexMap;
pub use match_structs::ResultObject;
pub use match_structs::SearchResult;
