//! An INI reader: raw lines are split into tokens, and the tokens are assembled
//! into a document of sections, properties and comments.
//!
//! ```text
//! lines  --lexer-->  tokens  --parser-->  document
//! ```
//!
//! The caller brings the lines, already parted at the line ends, and the options to read
//! them under. Nothing here touches a file.

pub mod config;
pub mod document;
pub mod laws;
pub mod lexer;
pub mod machine;
pub mod number;
pub mod parser;
pub mod text;
pub mod value;

pub use crate::config::{Config, Delimiter, ParseStrategy};
pub use crate::document::{
    get_all_comments, get_all_sections, get_property, Document, Property, Section, INI,
};
pub use crate::lexer::{lex, Lexer, Token};
pub use crate::machine::ParseError;
pub use crate::parser::{parse, INIContext};
pub use crate::value::INIValueType;

use crate::lexer::tokens_of;
use crate::machine::assemble;
use vstd::prelude::*;

verus! {

/// The document that `lines` make under `config`, or the error that stops the parser.
pub open spec fn read(config: Config, lines: Seq<Seq<char>>) -> Result<Document, ParseError> {
    assemble(config, tokens_of(config, lines))
}

/// Whether `outcome` is what reading `lines` under `config` comes to: the document that
/// they make, with the lines and the options it was read from, or the parser's error.
pub open spec fn reads(
    outcome: Result<INI, ParseError>,
    config: Config,
    lines: Seq<Seq<char>>,
) -> bool {
    match read(config, lines) {
        Ok(document) => outcome matches Ok(ini) && ini@ == document && ini.options() == config
            && ini.source() == lines,
        Err(error) => outcome matches Err(e) && e == error,
    }
}

impl INI {
    /// Reads `lines` under `config`.
    pub fn parse_ini_with(config: Config, lines: Vec<String>) -> (outcome: Result<INI, ParseError>)
        ensures
            reads(outcome, config, lines.deep_view()),
    {
        let tokens = Lexer::new(config).lex_lines(&lines);
        let mut ini = INI::new(lines, config);
        match parse(&mut ini, tokens) {
            Ok(()) => {
                assert(ini@ =~= read(config, lines.deep_view()).unwrap()) by {
                    let document = read(config, lines.deep_view()).unwrap();
                    assert(Document::empty().followed_by(document).sections
                        =~= document.sections);
                    assert(Document::empty().followed_by(document).comments
                        =~= document.comments);
                }
                Ok(ini)
            },
            Err(error) => Err(error),
        }
    }

    /// Reads `lines` under the standard options.
    pub fn parse_ini(lines: Vec<String>) -> (outcome: Result<INI, ParseError>)
        ensures
            reads(outcome, Config::standard(), lines.deep_view()),
    {
        INI::parse_ini_with(Config::default(), lines)
    }
}

} // verus!
