//! A library to declaratively implement parsers that are based on packrat parsing.
pub mod parse;
pub mod render;
pub mod span;
pub mod components;
pub mod memo;
pub mod text;

pub use self::parse::Parse;
pub use self::parse::ParseError;
pub use self::parse::Parser;
pub use self::span::Position;
pub use self::span::Span;
