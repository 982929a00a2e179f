//! A reader for grammar description files: rules such as `Expr => Literal | Binary;`,
//! made of identifiers, quoted terminals, groupings, alternatives and repetitions.
pub mod tokens;
pub mod parse;
pub mod semantic;
pub mod report;
