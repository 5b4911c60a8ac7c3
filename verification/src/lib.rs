pub mod archive;
pub mod calendar;
pub mod entry;
pub mod eval;
pub mod highlight;
pub mod highlight_table;
pub mod http;
pub mod json;
pub mod order;
pub mod overview;
pub mod panel_slugs;
pub mod query;
pub mod source;
pub mod spike;
pub mod summary;
pub mod text;
pub mod timestamp;
pub mod tool_defs;
pub mod trace;
pub mod view_history;
pub mod viewer;
pub mod transcript;
pub mod wiki;
pub mod wiki_corpus;
pub mod wiki_page;
pub mod wiki_search;
