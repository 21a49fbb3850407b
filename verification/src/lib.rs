//! A small templating engine: a template with variables, conditionals, loops
//! and comments is parsed once and rendered against a context of values.

pub mod context;
pub mod error;
pub mod grammar;
pub mod laws;
pub mod margin;
pub mod parser;
pub mod printing;
pub mod render;
pub mod template;
pub mod text;
pub mod value;
pub mod whole;

pub use context::{escape_str, Context, ContextTrait};
pub use error::ParserError;
pub use margin::trim_margin;
pub use parser::{parse, parse_str, Parser};
pub use render::WriteTo;
pub use template::{Template, VarOpt};
pub use value::{
    make_map_value, make_vec_value, ContextValue, Float, MapValue, SetValue, SetValueForVecValue,
    VecValue,
};
