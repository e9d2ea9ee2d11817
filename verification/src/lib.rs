//! Reading and writing of BVH (Biovision Hierarchy) motion-capture text.
//!
//! A document is a sequence of whitespace-separated words. `parse` builds a
//! joint tree and a flat buffer of motion samples from those words;
//! `serialize` renders such a value as canonical text. Numbers are carried as
//! their decimal literals, so both directions are exact.

pub mod ascii;
pub mod grammar;
pub mod literal;
pub mod model;
pub mod parser;
pub mod reading;
pub mod round_trip;
pub mod serializer;
pub mod soundness;
pub mod spelling;
pub mod text;
pub mod traversal;
pub mod validity;
pub mod vocabulary;

pub use grammar::ParseError;
pub use model::{Bvh, EndSite, Hierarchy, Joint, JointChildren, Motion, Number, Offset};
pub use parser::{parse, parse_bytes};
pub use serializer::serialize;
pub use text::{locate, split_words, Span};
pub use vocabulary::{Channel, Keyword};
