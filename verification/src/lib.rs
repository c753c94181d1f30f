//! Etymology extraction from wiki-style article text, and the rotation engine
//! that cycles through the extracted entries under an auto-dismiss countdown.

pub mod text;
pub mod parser;
pub mod rotation;
pub mod request;
pub mod session;
