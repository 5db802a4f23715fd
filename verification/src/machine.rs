//! The machine: what the parser does, as a mathematical definition.
//!
//! A state, a move for each kind of token, and the document at the end. Nothing here runs;
//! the parser is proved against it, and the laws are proved about it.

use crate::config::{Config, ParseStrategy};
use crate::document::{Document, PropertyView, SectionView};
use crate::lexer::TokenView;
use crate::value::inferred;
use vstd::prelude::*;

verus! {

/// Why a sequence of tokens is no document.
#[derive(Clone, Copy, Debug, PartialEq, Eq, Structural)]
pub enum ParseError {
    /// A section header without a name.
    MalformedSection,
    /// A property before the first section header, where that is not allowed.
    DisallowedGlobalProperty,
    /// A property with the empty value, where that is not allowed.
    DisallowedBlankValue,
    /// The tokens end after a key, before its value.
    DanglingProperty,
}

/// The character that parts a parent's name from a child's in a section header.
pub open spec fn separator() -> char {
    '.'
}

/// The name of the section that takes the properties standing before the first header.
pub open spec fn global_name() -> Seq<char> {
    "martini_global"@
}

/// The state of the machine between two tokens.
pub struct Machine {
    /// The top-level sections that are finished, in order.
    pub sections: Seq<SectionView>,
    /// The comments read so far.
    pub comments: Seq<Seq<char>>,
    /// The section under construction, once a header or a global property has opened one.
    pub current: Option<SectionView>,
    /// Whether the section under construction belongs under the last finished one.
    pub nested: bool,
    /// The key whose value is awaited.
    pub pending: Option<Seq<char>>,
    /// Whether the awaited value is to be dropped with its key.
    pub discard: bool,
}

impl Machine {
    /// The state before the first token.
    pub open spec fn start() -> Machine {
        Machine {
            sections: Seq::empty(),
            comments: Seq::empty(),
            current: None,
            nested: false,
            pending: None,
            discard: false,
        }
    }

    /// The finished sections once the section under construction, if there is one, has
    /// joined them: as the last child of the last finished section where it is nested,
    /// as the last top-level section otherwise.
    pub open spec fn closed_sections(self) -> Seq<SectionView> {
        match self.current {
            None => self.sections,
            Some(section) => if self.nested && self.sections.len() > 0 {
                self.sections.drop_last().push(self.sections.last().with_child(section))
            } else {
                self.sections.push(section)
            },
        }
    }

    /// What holds of the machine between any two tokens: the finished sections are well
    /// formed, the section under construction is plain, and a key that awaits a value to
    /// keep is new to its section unless duplicates are allowed.
    pub open spec fn sound(self, config: Config) -> bool {
        &&& forall|i: int| 0 <= i < self.sections.len() ==> self.sections[i].well_formed(config)
        &&& self.current matches Some(section) ==> {
            &&& section.plain(config)
            &&& self.pending matches Some(key) ==> self.discard || config.duplicate_policy
                == ParseStrategy::AllowDuplicates || !section.keys().contains(key)
        }
    }

    /// A comment: kept unless it is empty.
    pub open spec fn comment(self, text: Seq<char>) -> Machine {
        if text.len() > 0 {
            Machine { comments: self.comments.push(text), ..self }
        } else {
            self
        }
    }

    /// A section header. The section under construction is finished and a new one begins.
    /// With sub-sections enabled, a name with a separator, after at least one finished
    /// top-level section, begins a child of the last of them. The child is named by what
    /// follows the first separator, or by the whole name where nothing follows it. A header
    /// without a name is an error, and no other header is.
    pub open spec fn header(self, config: Config, name: Seq<char>) -> Result<Machine, ParseError> {
        let sections = self.closed_sections();
        let dot = name.index_of_first(separator());
        let nested = config.enable_subsections && dot.is_some() && sections.len() > 0;
        let own_name = if nested && dot.unwrap() + 1 < name.len() {
            name.skip(dot.unwrap() + 1)
        } else {
            name
        };
        if name.len() == 0 {
            Err(ParseError::MalformedSection)
        } else {
            Ok(Machine { sections, current: Some(SectionView::named(own_name)), nested, ..self })
        }
    }

    /// A key inside the section `section`. A key that the section already holds is treated
    /// as the duplicate-key policy says; any other key awaits its value.
    pub open spec fn key_in(self, config: Config, section: SectionView, key: Seq<char>) -> Machine {
        match section.position(key) {
            None => Machine { pending: Some(key), discard: false, ..self },
            Some(earlier) => match config.duplicate_policy {
                ParseStrategy::AllowDuplicates => Machine {
                    pending: Some(key),
                    discard: false,
                    ..self
                },
                ParseStrategy::IgnoreDuplicates => Machine {
                    pending: Some(key),
                    discard: true,
                    ..self
                },
                ParseStrategy::OverwriteDuplicates => Machine {
                    current: Some(section.without_property(earlier)),
                    pending: Some(key),
                    discard: false,
                    ..self
                },
            },
        }
    }

    /// A key. Before any section it opens the global section, where that is allowed.
    pub open spec fn key(self, config: Config, key: Seq<char>) -> Result<Machine, ParseError> {
        match self.current {
            Some(section) => Ok(self.key_in(config, section, key)),
            None => if config.allow_global_properties {
                let section = SectionView::named(global_name());
                Ok(
                    Machine { current: Some(section), nested: false, ..self }.key_in(
                        config,
                        section,
                        key,
                    ),
                )
            } else {
                Err(ParseError::DisallowedGlobalProperty)
            },
        }
    }

    /// The value for the awaited key `key`. The pair is dropped where the key was a duplicate
    /// to ignore. Otherwise an empty value is an error unless blank values are allowed, and
    /// the typed property joins the section under construction.
    pub open spec fn value(self, config: Config, key: Seq<char>, text: Seq<char>) -> Result<
        Machine,
        ParseError,
    > {
        if self.discard {
            Ok(Machine { pending: None, discard: false, ..self })
        } else if text.len() == 0 && !config.allow_blank_values {
            Err(ParseError::DisallowedBlankValue)
        } else {
            let property = PropertyView { key, value: Some(inferred(text)) };
            Ok(
                Machine {
                    current: match self.current {
                        Some(section) => Some(section.with_property(property)),
                        None => None,
                    },
                    pending: None,
                    ..self
                },
            )
        }
    }

    /// The state after `token`, or the error that `token` is.
    pub open spec fn step(self, config: Config, token: TokenView) -> Result<Machine, ParseError> {
        match token {
            TokenView::Comment(text) => Ok(self.comment(text)),
            TokenView::Section(name) => self.header(config, name),
            TokenView::MapsTo => Ok(self),
            TokenView::Name(text) => match self.pending {
                Some(key) => self.value(config, key, text),
                None => self.key(config, text),
            },
        }
    }

    /// The state after `tokens`, or the first error among them.
    pub open spec fn run(self, config: Config, tokens: Seq<TokenView>) -> Result<
        Machine,
        ParseError,
    >
        decreases tokens.len(),
    {
        if tokens.len() == 0 {
            Ok(self)
        } else {
            match self.run(config, tokens.drop_last()) {
                Ok(machine) => machine.step(config, tokens.last()),
                Err(error) => Err(error),
            }
        }
    }

    /// The document at the end of the tokens. A key that still awaits its value is an error.
    pub open spec fn finish(self) -> Result<Document, ParseError> {
        if self.pending.is_some() {
            Err(ParseError::DanglingProperty)
        } else {
            Ok(Document { sections: self.closed_sections(), comments: self.comments })
        }
    }
}

/// The document that `tokens` make under `config`, or the error that stops the machine.
pub open spec fn assemble(config: Config, tokens: Seq<TokenView>) -> Result<Document, ParseError> {
    match Machine::start().run(config, tokens) {
        Ok(machine) => machine.finish(),
        Err(error) => Err(error),
    }
}

/// An error among the first tokens is the error of the whole sequence.
pub proof fn lemma_error_stays(machine: Machine, config: Config, tokens: Seq<TokenView>, n: int)
    requires
        0 <= n <= tokens.len(),
        machine.run(config, tokens.take(n)).is_err(),
    ensures
        machine.run(config, tokens) == machine.run(config, tokens.take(n)),
    decreases tokens.len() - n,
{
    if n < tokens.len() {
        assert(tokens.take(n + 1).drop_last() =~= tokens.take(n));
        lemma_error_stays(machine, config, tokens, n + 1);
    } else {
        assert(tokens.take(n) =~= tokens);
    }
}

/// Finishing the section under construction of a sound machine leaves well-formed
/// sections.
proof fn lemma_closing_keeps_sound(machine: Machine, config: Config)
    requires
        machine.sound(config),
    ensures
        (Document { sections: machine.closed_sections(), comments: machine.comments }).well_formed(
            config,
        ),
{
    let closed = machine.closed_sections();
    assert forall|i: int| 0 <= i < closed.len() implies closed[i].well_formed(config) by {
        if i < machine.sections.len() - 1 || machine.current.is_none() {
            assert(closed[i] == machine.sections[i]);
        }
    }
}

/// A section that loses its first property with `key`, and held no key twice, holds
/// `key` no more.
proof fn lemma_overwriting_keeps_plain(
    section: SectionView,
    config: Config,
    key: Seq<char>,
    earlier: int,
)
    requires
        section.plain(config),
        section.distinct_keys(),
        section.position(key) == Some(earlier),
    ensures
        section.without_property(earlier).plain(config),
        section.without_property(earlier).distinct_keys(),
        !section.without_property(earlier).keys().contains(key),
{
    section.keys().index_of_first_ensures(key);
    let rest = section.without_property(earlier);
    let shifted = |i: int|
        if i < earlier {
            i
        } else {
            i + 1
        };
    let left = rest.properties;
    assert forall|i: int| 0 <= i < left.len() implies left[i].complete()
        && #[trigger] rest.keys()[i] != key by {
        assert(left[i] == section.properties[shifted(i)]);
        assert(section.keys()[earlier] == section.properties[earlier].key);
    }
    assert forall|i: int, j: int| 0 <= i < j < left.len() implies left[i].key != left[j].key by {
        assert(left[i] == section.properties[shifted(i)]);
        assert(left[j] == section.properties[shifted(j)]);
    }
}

/// A section that takes a property with a key it does not hold yet, and held no key
/// twice, holds no key twice.
proof fn lemma_new_key_keeps_distinct(section: SectionView, property: PropertyView)
    requires
        section.distinct_keys(),
        !section.keys().contains(property.key),
    ensures
        section.with_property(property).distinct_keys(),
{
    let grown = section.with_property(property);
    let all = grown.properties;
    assert forall|i: int, j: int| 0 <= i < j < all.len() implies all[i].key != all[j].key by {
        if j == section.properties.len() {
            assert(section.keys()[i] == section.properties[i].key);
        }
    }
}

/// Each move of the machine keeps it sound.
pub proof fn law_step_keeps_sound(machine: Machine, config: Config, token: TokenView)
    requires
        machine.sound(config),
    ensures
        machine.step(config, token) matches Ok(next) ==> next.sound(config),
{
    let strict = config.duplicate_policy != ParseStrategy::AllowDuplicates;
    match token {
        TokenView::Comment(text) => {},
        TokenView::MapsTo => {},
        TokenView::Section(name) => {
            lemma_closing_keeps_sound(machine, config);
            name.index_of_first_ensures(separator());
        },
        TokenView::Name(text) => match (machine.pending, machine.current) {
            (Some(key), Some(section)) => {
                if strict && !machine.discard {
                    lemma_new_key_keeps_distinct(
                        section,
                        PropertyView { key, value: Some(inferred(text)) },
                    );
                }
            },
            (Some(key), None) => {},
            (None, current) => {
                let section = match current {
                    Some(section) => section,
                    None => SectionView::named(global_name()),
                };
                reveal_strlit("martini_global");
                assert(section.plain(config));
                section.keys().index_of_first_ensures(text);
                if let Some(earlier) = section.position(text) {
                    if config.duplicate_policy == ParseStrategy::OverwriteDuplicates {
                        lemma_overwriting_keeps_plain(section, config, text, earlier);
                    }
                }
            },
        },
    }
}

/// The machine is sound after any run that it gets through.
pub proof fn law_run_keeps_sound(machine: Machine, config: Config, tokens: Seq<TokenView>)
    requires
        machine.sound(config),
    ensures
        machine.run(config, tokens) matches Ok(end) ==> end.sound(config),
    decreases tokens.len(),
{
    if tokens.len() > 0 {
        law_run_keeps_sound(machine, config, tokens.drop_last());
        if let Ok(middle) = machine.run(config, tokens.drop_last()) {
            law_step_keeps_sound(middle, config, tokens.last());
        }
    }
}

/// Every document that the parser makes is well formed: each section has a name, each
/// property has its value, sections are nested one level deep at most, and no key occurs
/// twice in a section unless duplicates are allowed.
pub proof fn law_documents_are_well_formed(config: Config, tokens: Seq<TokenView>)
    ensures
        assemble(config, tokens) matches Ok(document) ==> document.well_formed(config),
{
    law_run_keeps_sound(Machine::start(), config, tokens);
    if let Ok(end) = Machine::start().run(config, tokens) {
        lemma_closing_keeps_sound(end, config);
    }
}

} // verus!
