//! The options a document is read under. They are chosen once, before reading, and the
//! tokenizer and the parser only ever look at them.

use vstd::prelude::*;

verus! {

/// The character that parts a key from its value. Exactly one is in force.
#[derive(Clone, Copy, Debug, PartialEq, Eq, Structural)]
pub enum Delimiter {
    /// `key=value`
    Equals,
    /// `key value`
    Space,
    /// `key:value`
    Colon,
}

/// What becomes of a key that is declared a second time within one section.
#[derive(Clone, Copy, Debug, PartialEq, Eq, Structural)]
pub enum ParseStrategy {
    /// The second declaration is dropped, key and value.
    IgnoreDuplicates,
    /// The earlier property leaves the section and the new one is appended.
    OverwriteDuplicates,
    /// Both properties stay, in the order of their declaration.
    AllowDuplicates,
}

/// One immutable set of options.
#[derive(Clone, Copy, Debug, PartialEq, Eq, Structural)]
pub struct Config {
    /// Whether `#` opens a comment as `;` always does.
    pub hash_comments: bool,
    /// The key/value delimiter.
    pub delimiter: Delimiter,
    /// Whether a property may stand before the first section header.
    pub allow_global_properties: bool,
    /// Whether a property may have the empty value.
    pub allow_blank_values: bool,
    /// Whether a dotted section name opens a child of the section before it.
    pub enable_subsections: bool,
    /// The duplicate-key policy.
    pub duplicate_policy: ParseStrategy,
}

impl Delimiter {
    /// The delimiter as a character.
    pub open spec fn symbol(self) -> char {
        match self {
            Delimiter::Equals => '=',
            Delimiter::Space => ' ',
            Delimiter::Colon => ':',
        }
    }

    /// The delimiter as a character.
    pub fn character(self) -> (c: char)
        ensures
            c == self.symbol(),
    {
        match self {
            Delimiter::Equals => '=',
            Delimiter::Space => ' ',
            Delimiter::Colon => ':',
        }
    }
}

impl Config {
    /// The options in force where nothing is chosen: `;` comments only, `=` as delimiter,
    /// no global properties, no blank values, no sub-sections, duplicates allowed.
    pub open spec fn standard() -> Config {
        Config {
            hash_comments: false,
            delimiter: Delimiter::Equals,
            allow_global_properties: false,
            allow_blank_values: false,
            enable_subsections: false,
            duplicate_policy: ParseStrategy::AllowDuplicates,
        }
    }

    /// Whether a line that starts with `c` is a comment.
    pub open spec fn opens_comment(self, c: char) -> bool {
        c == ';' || (self.hash_comments && c == '#')
    }

    /// Whether a line that starts with `c` is a comment.
    pub fn is_comment_marker(&self, c: char) -> (b: bool)
        ensures
            b == self.opens_comment(c),
    {
        c == ';' || (self.hash_comments && c == '#')
    }
}

impl Default for Config {
    fn default() -> (config: Config)
        ensures
            config == Config::standard(),
    {
        Config {
            hash_comments: false,
            delimiter: Delimiter::Equals,
            allow_global_properties: false,
            allow_blank_values: false,
            enable_subsections: false,
            duplicate_policy: ParseStrategy::AllowDuplicates,
        }
    }
}

} // verus!
