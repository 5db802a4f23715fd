//! The tokenizer: each line, looked at on its own, becomes zero or more tokens.
//!
//! A line is a comment, a section header, a property, or nothing. No line makes the
//! tokenizer fail: what it cannot classify it passes over.

use crate::config::Config;
use crate::text::{
    after_first, ascii_alphanumeric, before_first, chars_of, find, is_ascii_alphanumeric,
    string_of, strip_quotes, trim, trimmed, unquoted,
};
use vstd::prelude::*;

verus! {

/// One piece of a line.
#[derive(Debug, PartialEq, Eq)]
pub enum Token {
    /// A comment, without its marker and trimmed.
    Comment(String),
    /// The name in a section header, without quotes and trimmed.
    Section(String),
    /// The delimiter between a key and its value.
    MapsTo,
    /// A key, or a value.
    Name(String),
}

/// A token as a mathematical value.
pub enum TokenView {
    Comment(Seq<char>),
    Section(Seq<char>),
    MapsTo,
    Name(Seq<char>),
}

impl View for Token {
    type V = TokenView;

    open spec fn view(&self) -> TokenView {
        match self {
            Token::Comment(text) => TokenView::Comment(text@),
            Token::Section(name) => TokenView::Section(name@),
            Token::MapsTo => TokenView::MapsTo,
            Token::Name(text) => TokenView::Name(text@),
        }
    }
}

impl DeepView for Token {
    type V = TokenView;

    open spec fn deep_view(&self) -> TokenView {
        self@
    }
}

/// The character that opens a section header.
pub open spec fn section_open() -> char {
    '['
}

/// The character that closes a section header.
pub open spec fn section_close() -> char {
    ']'
}

/// The name that a section header declares: what stands between the opening bracket and
/// the first closing one (or the line's end), its quotes removed, then trimmed.
pub open spec fn header_name(line: Seq<char>) -> Seq<char> {
    trimmed(unquoted(before_first(line.skip(1), section_close())))
}

/// The key of a property line: what stands before the first delimiter, trimmed.
pub open spec fn key_text(config: Config, line: Seq<char>) -> Seq<char> {
    trimmed(before_first(line, config.delimiter.symbol()))
}

/// The value of a property line: what stands after the first delimiter, trimmed, and
/// then without its quotes.
pub open spec fn value_text(config: Config, line: Seq<char>) -> Seq<char> {
    unquoted(trimmed(after_first(line, config.delimiter.symbol())))
}

/// The tokens of a property line: its key, the delimiter, its value. A line without a
/// delimiter has none.
pub open spec fn property_tokens(config: Config, line: Seq<char>) -> Seq<TokenView> {
    if line.contains(config.delimiter.symbol()) {
        seq![
            TokenView::Name(key_text(config, line)),
            TokenView::MapsTo,
            TokenView::Name(value_text(config, line)),
        ]
    } else {
        Seq::empty()
    }
}

/// The tokens of one line.
pub open spec fn line_tokens(config: Config, line: Seq<char>) -> Seq<TokenView> {
    if line.len() == 0 {
        Seq::empty()
    } else if config.opens_comment(line[0]) {
        seq![TokenView::Comment(trimmed(line.skip(1)))]
    } else if line[0] == section_open() {
        seq![TokenView::Section(header_name(line))]
    } else if ascii_alphanumeric(line[0]) {
        property_tokens(config, line)
    } else {
        Seq::empty()
    }
}

/// The tokens of a sequence of lines: those of each line, in the lines' order.
pub open spec fn tokens_of(config: Config, lines: Seq<Seq<char>>) -> Seq<TokenView>
    decreases lines.len(),
{
    if lines.len() == 0 {
        Seq::empty()
    } else {
        tokens_of(config, lines.drop_last()) + line_tokens(config, lines.last())
    }
}

/// A tokenizer with its options.
pub struct Lexer {
    config: Config,
}

impl Lexer {
    /// A tokenizer that works under `config`.
    pub fn new(config: Config) -> (lexer: Lexer)
        ensures
            lexer.config() == config,
    {
        Lexer { config }
    }

    /// The options this tokenizer works under.
    pub closed spec fn config(&self) -> Config {
        self.config
    }

    /// The name declared by a section header, given as the characters of its line.
    fn section_name(chars: &Vec<char>) -> (name: String)
        requires
            chars.len() > 0,
        ensures
            name@ == header_name(chars@),
    {
        let end = match find(chars, 1, chars.len(), ']') {
            Some(k) => k,
            None => chars.len(),
        };
        assert(chars@.subrange(1, chars.len() as int) =~= chars@.skip(1));
        assert(chars@.subrange(1, end as int) =~= before_first(chars@.skip(1), section_close()));
        let inner = strip_quotes(chars, 1, end);
        let (a, b) = trim(&inner, 0, inner.len());
        assert(inner@.subrange(0, inner.len() as int) =~= inner@);
        string_of(&inner, a, b)
    }

    /// Appends the tokens of a property line, given as its characters, to `tokens`.
    fn property(&self, chars: &Vec<char>, tokens: &mut Vec<Token>)
        ensures
            final(tokens).deep_view() == old(tokens).deep_view() + property_tokens(
                self.config(),
                chars@,
            ),
    {
        let ghost before = tokens.deep_view();
        proof {
            assert(chars@.subrange(0, chars.len() as int) =~= chars@);
            chars@.index_of_first_ensures(self.config.delimiter.symbol());
        }
        match find(chars, 0, chars.len(), self.config.delimiter.character()) {
            Some(i) => {
                let (a, b) = trim(chars, 0, i);
                let key = string_of(chars, a, b);
                let (c, d) = trim(chars, i + 1, chars.len());
                let kept = strip_quotes(chars, c, d);
                let value = string_of(&kept, 0, kept.len());
                proof {
                    assert(chars@.subrange(0, i as int) =~= chars@.take(i as int));
                    assert(chars@.subrange(i + 1, chars.len() as int) =~= chars@.skip(i + 1));
                    assert(kept@.subrange(0, kept.len() as int) =~= kept@);
                }
                tokens.push(Token::Name(key));
                tokens.push(Token::MapsTo);
                tokens.push(Token::Name(value));
                assert(tokens.deep_view() =~= before + property_tokens(self.config(), chars@));
            },
            None => {
                assert(tokens.deep_view() =~= before + property_tokens(self.config(), chars@));
            },
        }
    }

    /// Appends the tokens of `line` to `tokens`.
    pub fn lex_line(&self, line: &str, tokens: &mut Vec<Token>)
        ensures
            final(tokens).deep_view() == old(tokens).deep_view() + line_tokens(
                self.config(),
                line@,
            ),
    {
        let ghost before = tokens.deep_view();
        let chars = chars_of(line);
        if chars.len() == 0 {
        } else if self.config.is_comment_marker(chars[0]) {
            let (a, b) = trim(&chars, 1, chars.len());
            assert(chars@.subrange(1, chars.len() as int) =~= chars@.skip(1));
            tokens.push(Token::Comment(string_of(&chars, a, b)));
        } else if chars[0] == '[' {
            tokens.push(Token::Section(Self::section_name(&chars)));
        } else if is_ascii_alphanumeric(chars[0]) {
            self.property(&chars, tokens);
        }
        assert(tokens.deep_view() =~= before + line_tokens(self.config(), line@));
    }

    /// The tokens of `lines`, under this tokenizer's options.
    pub fn lex_lines(&self, lines: &Vec<String>) -> (tokens: Vec<Token>)
        ensures
            tokens.deep_view() == tokens_of(self.config(), lines.deep_view()),
    {
        let mut tokens: Vec<Token> = Vec::new();
        let mut i: usize = 0;
        assert(lines.deep_view().take(0) =~= Seq::empty());
        assert(tokens.deep_view() =~= Seq::empty());
        while i < lines.len()
            invariant
                0 <= i <= lines.len(),
                tokens.deep_view() == tokens_of(self.config(), lines.deep_view().take(i as int)),
            decreases lines.len() - i,
        {
            self.lex_line(lines[i].as_str(), &mut tokens);
            proof {
                let all = lines.deep_view();
                assert(all.take(i + 1).drop_last() =~= all.take(i as int));
                assert(all.take(i + 1).last() == lines[i as int]@);
            }
            i += 1;
        }
        assert(lines.deep_view().take(lines.len() as int) =~= lines.deep_view());
        tokens
    }
}

/// The tokens of `lines`, under the standard options.
pub fn lex(lines: &Vec<String>) -> (tokens: Vec<Token>)
    ensures
        tokens.deep_view() == tokens_of(Config::standard(), lines.deep_view()),
{
    Lexer::new(Config::default()).lex_lines(lines)
}

} // verus!
