//! Rule and document parsers.

pub mod path_guard;
pub mod pattern_guard;
pub mod quote_laws;
pub mod rule_analyzer;
pub mod rule_engine;
pub mod rule_laws;
pub mod script;
pub mod source_regex;
pub mod source_rule;
pub mod book_laws;
pub mod chain_laws;
pub mod context;
pub mod field;
pub mod field_laws;
pub mod html;
pub mod java_codec;
pub mod java_laws;
pub mod java_net;
pub mod java_rules;
pub mod java_state;
pub mod java_time;
pub mod js;
pub mod js_run;
pub mod js_shims;
pub mod json_laws;
pub mod jsonpath;
pub mod list_laws;
pub mod markup;
pub mod node_laws;
pub mod script_laws;
pub mod text_laws;
pub mod time_laws;
pub mod value_laws;
pub mod xpath;
pub mod xpath_laws;
