//! The parser: the state that runs, and the moves it makes.
//!
//! `INIContext` holds what a parse carries from one token to the next. Each of its methods
//! is proved to make the move that the machine's definition prescribes, so that `parse`
//! returns what `assemble` says.

use crate::config::{Config, ParseStrategy};
use crate::document::{Document, Property, Section, INI};
use crate::lexer::Token;
use crate::machine::{
    assemble, law_documents_are_well_formed, lemma_error_stays, separator, Machine, ParseError,
};
use crate::text::{chars_of, find, string_of};
use crate::value::INIValueType;
use vstd::prelude::*;

verus! {

/// The state of a parse: everything the machine carries from one token to the next.
pub struct INIContext {
    sections: Vec<Section>,
    comments: Vec<String>,
    current_section: Option<Section>,
    nested: bool,
    current_property: Option<Property>,
    discard: bool,
}

impl View for INIContext {
    type V = Machine;

    closed spec fn view(&self) -> Machine {
        Machine {
            sections: self.sections.deep_view(),
            comments: self.comments.deep_view(),
            current: match self.current_section {
                Some(section) => Some(section@),
                None => None,
            },
            nested: self.nested,
            pending: match self.current_property {
                Some(property) => Some(property@.key),
                None => None,
            },
            discard: self.discard,
        }
    }
}

impl INIContext {
    /// The state before the first token.
    pub fn new() -> (context: INIContext)
        ensures
            context@ == Machine::start(),
    {
        let context = INIContext {
            sections: Vec::new(),
            comments: Vec::new(),
            current_section: None,
            nested: false,
            current_property: None,
            discard: false,
        };
        assert(context.sections.deep_view() =~= Seq::empty());
        assert(context.comments.deep_view() =~= Seq::empty());
        context
    }

    /// Finishes the section under construction, if there is one.
    fn close_section(&mut self)
        ensures
            final(self)@ == (Machine {
                sections: old(self)@.closed_sections(),
                current: None,
                ..old(self)@
            }),
    {
        let ghost before = self.sections.deep_view();
        match self.current_section.take() {
            None => {},
            Some(section) => {
                if self.nested && self.sections.len() > 0 {
                    let mut parent = self.sections.pop().unwrap();
                    assert(self.sections.deep_view() =~= before.drop_last());
                    parent.insert_child(section);
                    self.sections.push(parent);
                    assert(self.sections.deep_view() =~= before.drop_last().push(
                        before.last().with_child(section@),
                    ));
                } else {
                    self.sections.push(section);
                    assert(self.sections.deep_view() =~= before.push(section@));
                }
            },
        }
    }

    /// The move for a comment.
    fn comment(&mut self, text: &String)
        ensures
            final(self)@ == old(self)@.comment(text@),
    {
        if !text.as_str().is_empty() {
            let ghost before = self.comments.deep_view();
            self.comments.push(text.clone());
            assert(self.comments.deep_view() =~= before.push(text@));
        }
    }

    /// What follows the first separator in `name`, if `name` has a separator.
    fn after_separator(name: &String) -> (rest: Option<String>)
        ensures
            match name@.index_of_first(separator()) {
                Some(dot) => rest matches Some(text) && text@ == name@.skip(dot + 1) && 0 <= dot
                    < name@.len(),
                None => rest.is_none(),
            },
    {
        let chars = chars_of(name.as_str());
        assert(chars@.subrange(0, chars.len() as int) =~= name@);
        match find(&chars, 0, chars.len(), '.') {
            Some(dot) => {
                assert(chars@.subrange(dot + 1, chars.len() as int) =~= name@.skip(dot + 1));
                Some(string_of(&chars, dot + 1, chars.len()))
            },
            None => None,
        }
    }

    /// The move for a section header.
    fn header(&mut self, config: &Config, name: &String) -> (outcome: Result<(), ParseError>)
        ensures
            match old(self)@.header(*config, name@) {
                Ok(machine) => outcome.is_ok() && final(self)@ == machine,
                Err(error) => outcome == Err::<(), ParseError>(error),
            },
    {
        if name.as_str().is_empty() {
            return Err(ParseError::MalformedSection);
        }
        self.close_section();
        let rest = if config.enable_subsections && self.sections.len() > 0 {
            Self::after_separator(name)
        } else {
            None
        };
        let nested = rest.is_some();
        let own_name = match rest {
            Some(rest) => if rest.as_str().is_empty() {
                name.clone()
            } else {
                rest
            },
            None => name.clone(),
        };
        self.current_section = Some(Section::create_section(own_name));
        self.nested = nested;
        Ok(())
    }

    /// The move for a key inside the section under construction.
    fn key_in_section(&mut self, config: &Config, key: &String)
        requires
            old(self)@.current.is_some(),
        ensures
            final(self)@ == old(self)@.key_in(*config, old(self)@.current.unwrap(), key@),
    {
        let found = match &self.current_section {
            Some(section) => section.position_of(key),
            None => None,
        };
        self.current_property = Some(Property::new_with_key(key.clone()));
        self.discard = false;
        match found {
            None => {},
            Some(earlier) => match config.duplicate_policy {
                ParseStrategy::AllowDuplicates => {},
                ParseStrategy::IgnoreDuplicates => {
                    self.discard = true;
                },
                ParseStrategy::OverwriteDuplicates => {
                    match &mut self.current_section {
                        Some(section) => {
                            section.remove_property(earlier);
                        },
                        None => {},
                    }
                },
            },
        }
    }

    /// The move for a key.
    fn key(&mut self, config: &Config, key: &String) -> (outcome: Result<(), ParseError>)
        ensures
            match old(self)@.key(*config, key@) {
                Ok(machine) => outcome.is_ok() && final(self)@ == machine,
                Err(error) => outcome == Err::<(), ParseError>(error),
            },
    {
        if self.current_section.is_none() {
            if !config.allow_global_properties {
                return Err(ParseError::DisallowedGlobalProperty);
            }
            self.current_section = Some(Section::create_section("martini_global".to_owned()));
            self.nested = false;
        }
        self.key_in_section(config, key);
        Ok(())
    }

    /// The move for the value of `property`, the key that was awaited.
    fn value(&mut self, config: &Config, property: Property, text: &String) -> (outcome: Result<
        (),
        ParseError,
    >)
        requires
            old(self)@.pending.is_none(),
        ensures
            match (Machine { pending: Some(property@.key), ..old(self)@ }).value(
                *config,
                property@.key,
                text@,
            ) {
                Ok(machine) => outcome.is_ok() && final(self)@ == machine,
                Err(error) => outcome == Err::<(), ParseError>(error),
            },
    {
        if self.discard {
            self.discard = false;
            return Ok(());
        }
        if text.as_str().is_empty() && !config.allow_blank_values {
            return Err(ParseError::DisallowedBlankValue);
        }
        let mut property = property;
        property.set_value(INIValueType::to_ini_type(text));
        match &mut self.current_section {
            Some(section) => {
                section.insert_property(property);
            },
            None => {},
        }
        Ok(())
    }

    /// The move for `token`. After an error the context is of no further use.
    pub fn step(&mut self, config: &Config, token: &Token) -> (outcome: Result<(), ParseError>)
        ensures
            match old(self)@.step(*config, token@) {
                Ok(machine) => outcome.is_ok() && final(self)@ == machine,
                Err(error) => outcome == Err::<(), ParseError>(error),
            },
    {
        match token {
            Token::Comment(text) => {
                self.comment(text);
                Ok(())
            },
            Token::Section(name) => self.header(config, name),
            Token::MapsTo => Ok(()),
            Token::Name(text) => match self.current_property.take() {
                Some(property) => self.value(config, property, text),
                None => self.key(config, text),
            },
        }
    }

    /// The sections and comments at the end of the tokens.
    pub fn finish(self) -> (outcome: Result<(Vec<Section>, Vec<String>), ParseError>)
        ensures
            match self@.finish() {
                Ok(document) => outcome matches Ok(parts) && document == Document::of(
                    parts.0,
                    parts.1,
                ),
                Err(error) => outcome matches Err(e) && e == error,
            },
    {
        if self.current_property.is_some() {
            return Err(ParseError::DanglingProperty);
        }
        let mut context = self;
        context.close_section();
        Ok((context.sections, context.comments))
    }
}

/// Reads `tokens` into `ini`, under the options of `ini`.
///
/// The tokens make a document of their own, which is then appended to `ini`: its sections
/// after the sections of `ini`, its comments after the comments. Where the tokens are no
/// document, the error says why and `ini` is as it was.
pub fn parse(ini: &mut INI, tokens: Vec<Token>) -> (outcome: Result<(), ParseError>)
    ensures
        final(ini).options() == old(ini).options(),
        final(ini).source() == old(ini).source(),
        final(ini)@.well_formed(final(ini).options()),
        match assemble(old(ini).options(), tokens.deep_view()) {
            Ok(document) => outcome.is_ok() && final(ini)@ == old(ini)@.followed_by(document),
            Err(error) => outcome == Err::<(), ParseError>(error) && final(ini)@ == old(ini)@,
        },
{
    proof {
        use_type_invariant(&*ini);
    }
    let config = ini.config();
    let ghost all = tokens.deep_view();
    let mut context = INIContext::new();
    let mut i: usize = 0;
    assert(all.take(0) =~= Seq::empty());
    while i < tokens.len()
        invariant
            0 <= i <= tokens.len(),
            all == tokens.deep_view(),
            Machine::start().run(config, all.take(i as int)) == Ok::<Machine, ParseError>(
                context@,
            ),
            *ini == *old(ini),
            config == ini.options(),
            ini@.well_formed(config),
        decreases tokens.len() - i,
    {
        proof {
            assert(all.take(i + 1).drop_last() =~= all.take(i as int));
            assert(all.take(i + 1).last() == tokens[i as int]@);
        }
        match context.step(&config, &tokens[i]) {
            Ok(()) => {},
            Err(error) => {
                proof {
                    lemma_error_stays(Machine::start(), config, all, i + 1);
                }
                return Err(error);
            },
        }
        i += 1;
    }
    proof {
        assert(all.take(tokens.len() as int) =~= all);
        law_documents_are_well_formed(config, all);
    }
    match context.finish() {
        Ok((sections, comments)) => {
            ini.extend(sections, comments);
            proof {
                use_type_invariant(&*ini);
            }
            Ok(())
        },
        Err(error) => Err(error),
    }
}

} // verus!
