pub mod line;
pub mod markdown;
pub mod package_json;
