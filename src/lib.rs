pub mod argparse;
pub mod help;
pub mod listing;
pub mod orchestrate;
pub mod output;
pub mod package;
pub mod query;
pub mod text;
