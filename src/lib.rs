pub mod emit;
pub mod hack;
pub mod machine;
pub mod syntax;
pub mod text;
pub mod translate;

pub use emit::CodeWriter;
pub use hack::{render, Comp, Cond, Dest, Instr, Line, Symbol};
pub use syntax::{parse_command, parse_index, parse_segment, Command, ErrorKind, Segment, MAX_INDEX};
pub use text::{chars_of, normalize, strip, tokenize};
pub use translate::{translate_file, Parser, TranslateError};
