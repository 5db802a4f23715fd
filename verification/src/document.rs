//! The document: sections of properties, and the comments that stand beside them.
//!
//! Every type here has a mathematical view, and every method says what it does in terms of
//! the views. The fields are private: a finished document can be read, not changed.

use crate::config::{Config, ParseStrategy};
use crate::value::{INIValueType, ValueView};
use vstd::prelude::*;

verus! {

/// A property as a mathematical value: a key, and a value once it has been read.
pub struct PropertyView {
    pub key: Seq<char>,
    pub value: Option<ValueView>,
}

/// A section as a mathematical value.
pub struct SectionView {
    pub name: Seq<char>,
    pub children: Seq<SectionView>,
    pub properties: Seq<PropertyView>,
}

/// A document as a mathematical value.
pub struct Document {
    pub sections: Seq<SectionView>,
    pub comments: Seq<Seq<char>>,
}

impl PropertyView {
    /// A property that has its value.
    pub open spec fn complete(self) -> bool {
        self.value.is_some()
    }
}

impl SectionView {
    /// The section `name` with nothing in it.
    pub open spec fn named(name: Seq<char>) -> SectionView {
        SectionView { name, children: Seq::empty(), properties: Seq::empty() }
    }

    /// This section with `property` after its properties.
    pub open spec fn with_property(self, property: PropertyView) -> SectionView {
        SectionView { properties: self.properties.push(property), ..self }
    }

    /// This section without its property at `index`.
    pub open spec fn without_property(self, index: int) -> SectionView {
        SectionView { properties: self.properties.remove(index), ..self }
    }

    /// This section with `child` after its children.
    pub open spec fn with_child(self, child: SectionView) -> SectionView {
        SectionView { children: self.children.push(child), ..self }
    }

    /// Whether no two properties of this section have the same key.
    pub open spec fn distinct_keys(self) -> bool {
        forall|i: int, j: int|
            0 <= i < j < self.properties.len() ==> self.properties[i].key
                != self.properties[j].key
    }

    /// Whether this section is as a finished section without children is: it has a name,
    /// each of its properties has its value, and its keys are distinct unless duplicates
    /// are allowed.
    pub open spec fn plain(self, config: Config) -> bool {
        &&& self.name.len() > 0
        &&& self.children.len() == 0
        &&& forall|i: int| 0 <= i < self.properties.len() ==> self.properties[i].complete()
        &&& config.duplicate_policy != ParseStrategy::AllowDuplicates ==> self.distinct_keys()
    }

    /// Whether this section is as a finished top-level section is: as a plain one, but
    /// that plain sections may be nested under it.
    pub open spec fn well_formed(self, config: Config) -> bool {
        &&& self.name.len() > 0
        &&& forall|i: int| 0 <= i < self.children.len() ==> self.children[i].plain(config)
        &&& forall|i: int| 0 <= i < self.properties.len() ==> self.properties[i].complete()
        &&& config.duplicate_policy != ParseStrategy::AllowDuplicates ==> self.distinct_keys()
    }

    /// The keys of this section's properties, in order.
    pub open spec fn keys(self) -> Seq<Seq<char>> {
        self.properties.map_values(|p: PropertyView| p.key)
    }

    /// The index of the first property with `key`, if there is one.
    pub open spec fn position(self, key: Seq<char>) -> Option<int> {
        self.keys().index_of_first(key)
    }
}

impl Document {
    /// The document with nothing in it.
    pub open spec fn empty() -> Document {
        Document { sections: Seq::empty(), comments: Seq::empty() }
    }

    /// Whether each section of this document is as a finished top-level section is.
    pub open spec fn well_formed(self, config: Config) -> bool {
        forall|i: int| 0 <= i < self.sections.len() ==> self.sections[i].well_formed(config)
    }

    /// The document made of `sections` and `comments`.
    pub open spec fn of(sections: Vec<Section>, comments: Vec<String>) -> Document {
        Document { sections: sections.deep_view(), comments: comments.deep_view() }
    }

    /// This document followed by `other`: sections after sections, comments after comments.
    pub open spec fn followed_by(self, other: Document) -> Document {
        Document {
            sections: self.sections + other.sections,
            comments: self.comments + other.comments,
        }
    }
}

/// Two well-formed documents, one after the other, are a well-formed document.
pub proof fn lemma_followed_by_is_well_formed(first: Document, second: Document, config: Config)
    requires
        first.well_formed(config),
        second.well_formed(config),
    ensures
        first.followed_by(second).well_formed(config),
{
    let both = first.followed_by(second);
    assert forall|i: int| 0 <= i < both.sections.len() implies both.sections[i].well_formed(
        config,
    ) by {
        if i < first.sections.len() {
            assert(both.sections[i] == first.sections[i]);
        } else {
            assert(both.sections[i] == second.sections[i - first.sections.len()]);
        }
    }
}

/// A key with the value that was read for it.
#[derive(Debug, PartialEq, Eq)]
pub struct Property {
    key: String,
    value: Option<INIValueType>,
}

impl View for Property {
    type V = PropertyView;

    closed spec fn view(&self) -> PropertyView {
        PropertyView {
            key: self.key@,
            value: match self.value {
                Some(value) => Some(value@),
                None => None,
            },
        }
    }
}

impl DeepView for Property {
    type V = PropertyView;

    open spec fn deep_view(&self) -> PropertyView {
        self@
    }
}

impl Property {
    /// A property with `key` whose value is still to come.
    pub fn new_with_key(key: String) -> (property: Property)
        ensures
            property@ == (PropertyView { key: key@, value: None }),
    {
        Property { key, value: None }
    }

    /// Gives the property its value.
    pub fn set_value(&mut self, value: INIValueType)
        ensures
            final(self)@ == (PropertyView { key: old(self)@.key, value: Some(value@) }),
    {
        self.value = Some(value);
    }

    /// The key.
    pub fn key(&self) -> (key: &String)
        ensures
            key@ == self@.key,
    {
        &self.key
    }

    /// The value, once it has been read.
    pub fn value(&self) -> (value: Option<&INIValueType>)
        ensures
            match value {
                Some(v) => self@.value == Some(v@),
                None => self@.value.is_none(),
            },
    {
        self.value.as_ref()
    }
}

/// A named group of properties, with the sections nested under it.
#[derive(Debug, PartialEq, Eq)]
pub struct Section {
    name: String,
    children: Vec<Section>,
    properties: Vec<Property>,
}

/// The view of a section: its name, and the views of its children and its properties.
pub closed spec fn section_view(section: Section) -> SectionView
    decreases section,
{
    SectionView {
        name: section.name@,
        children: Seq::new(
            section.children@.len(),
            |i: int|
                if 0 <= i < section.children@.len() {
                    section_view(section.children@[i])
                } else {
                    arbitrary()
                },
        ),
        properties: section.properties.deep_view(),
    }
}

impl View for Section {
    type V = SectionView;

    open spec fn view(&self) -> SectionView {
        section_view(*self)
    }
}

impl DeepView for Section {
    type V = SectionView;

    open spec fn deep_view(&self) -> SectionView {
        self@
    }
}

impl Section {
    /// A new section `name`, empty.
    pub fn create_section(name: String) -> (section: Section)
        ensures
            section@ == SectionView::named(name@),
    {
        let section = Section { name, children: Vec::new(), properties: Vec::new() };
        assert(section@.children =~= Seq::empty());
        assert(section@.properties =~= Seq::empty());
        section
    }

    /// Appends `property` to the section's properties.
    pub fn insert_property(&mut self, property: Property)
        ensures
            final(self)@ == old(self)@.with_property(property@),
    {
        self.properties.push(property);
        assert(self@.properties =~= old(self)@.properties.push(property@));
        assert(self@.children =~= old(self)@.children);
    }

    /// Takes the property at `index` out of the section; those after it move up.
    pub fn remove_property(&mut self, index: usize) -> (property: Property)
        requires
            index < old(self)@.properties.len(),
        ensures
            final(self)@ == old(self)@.without_property(index as int),
            property@ == old(self)@.properties[index as int],
    {
        let property = self.properties.remove(index);
        assert(self@.properties =~= old(self)@.properties.remove(index as int));
        assert(self@.children =~= old(self)@.children);
        property
    }

    /// Appends `child` to the sections nested under this one.
    pub fn insert_child(&mut self, child: Section)
        ensures
            final(self)@ == old(self)@.with_child(child@),
    {
        self.children.push(child);
        assert(self@.children =~= old(self)@.children.push(child@));
        assert(self@.properties =~= old(self)@.properties);
    }

    /// The section's name.
    pub fn name(&self) -> (name: &String)
        ensures
            name@ == self@.name,
    {
        &self.name
    }

    /// The section's properties, in the order of their insertion.
    pub fn properties(&self) -> (properties: &Vec<Property>)
        ensures
            properties.deep_view() == self@.properties,
    {
        &self.properties
    }

    /// The sections nested under this one, in the order of their insertion.
    pub fn children(&self) -> (children: &Vec<Section>)
        ensures
            children.deep_view() == self@.children,
    {
        assert(self.children.deep_view() =~= self@.children);
        &self.children
    }

    /// The index of the first property with `key`, if there is one.
    pub fn position_of(&self, key: &String) -> (found: Option<usize>)
        ensures
            match found {
                Some(i) => self@.position(key@) == Some(i as int) && i < self@.properties.len(),
                None => self@.position(key@).is_none(),
            },
    {
        let ghost keys = self@.keys();
        let mut i: usize = 0;
        while i < self.properties.len()
            invariant
                0 <= i <= self.properties.len(),
                keys == self@.keys(),
                keys.len() == self.properties.len(),
                forall|j: int| 0 <= j < i ==> keys[j] != key@,
            decreases self.properties.len() - i,
        {
            if self.properties[i].key == *key {
                proof {
                    keys.index_of_first_ensures(key@);
                    assert(keys[i as int] == key@);
                }
                return Some(i);
            }
            assert(keys[i as int] == self.properties[i as int]@.key);
            i += 1;
        }
        proof {
            keys.index_of_first_ensures(key@);
        }
        None
    }
}

/// The first property of `section` whose key is `name`, if there is one.
pub fn get_property(section: &Section, name: String) -> (property: Option<&Property>)
    ensures
        match property {
            Some(p) => section@.position(name@) matches Some(i) && section@.properties[i] == p@,
            None => section@.position(name@).is_none(),
        },
{
    match section.position_of(&name) {
        Some(i) => Some(&section.properties[i]),
        None => None,
    }
}

/// A document that has been read, or is being filled: the lines it came from, its sections
/// and top-level comments, and the options it is read under.
#[derive(Debug, PartialEq, Eq)]
pub struct INI {
    content: Vec<String>,
    sections: Vec<Section>,
    comments: Vec<String>,
    config: Config,
}

impl View for INI {
    type V = Document;

    closed spec fn view(&self) -> Document {
        Document { sections: self.sections.deep_view(), comments: self.comments.deep_view() }
    }
}

impl INI {
    /// Every document is well formed under its own options.
    #[verifier::type_invariant]
    pub open spec fn sound(self) -> bool {
        self@.well_formed(self.options())
    }

    /// The options of this document.
    pub closed spec fn options(&self) -> Config {
        self.config
    }

    /// The lines this document was read from.
    pub closed spec fn source(&self) -> Seq<Seq<char>> {
        self.content.deep_view()
    }

    /// An empty document over the lines `content`, to be read under `config`.
    pub fn new(content: Vec<String>, config: Config) -> (ini: INI)
        ensures
            ini@ == Document::empty(),
            ini.options() == config,
            ini.source() == content.deep_view(),
    {
        let sections: Vec<Section> = Vec::new();
        let comments: Vec<String> = Vec::new();
        assert(sections.deep_view() =~= Seq::empty());
        assert(comments.deep_view() =~= Seq::empty());
        INI { content, sections, comments, config }
    }

    /// The options of this document.
    pub fn config(&self) -> (config: Config)
        ensures
            config == self.options(),
    {
        self.config
    }

    /// The lines this document was read from.
    pub fn content(&self) -> (content: &Vec<String>)
        ensures
            content.deep_view() == self.source(),
    {
        &self.content
    }

    /// The top-level sections, in the order of their headers.
    pub fn sections(&self) -> (sections: &Vec<Section>)
        ensures
            sections.deep_view() == self@.sections,
    {
        &self.sections
    }

    /// The top-level comments, in their order.
    pub fn comments(&self) -> (comments: &Vec<String>)
        ensures
            comments.deep_view() == self@.comments,
    {
        &self.comments
    }

    /// Moves `sections` and `comments` to the end of this document's.
    pub(crate) fn extend(&mut self, sections: Vec<Section>, comments: Vec<String>)
        requires
            Document::of(sections, comments).well_formed(old(self).options()),
        ensures
            final(self)@ == old(self)@.followed_by(Document::of(sections, comments)),
            final(self).options() == old(self).options(),
            final(self).source() == old(self).source(),
    {
        let ghost more = Document::of(sections, comments);
        let mut more_sections = sections;
        let mut more_comments = comments;
        let mut taken = INI::new(Vec::new(), self.config);
        std::mem::swap(self, &mut taken);
        proof {
            use_type_invariant(&taken);
            lemma_followed_by_is_well_formed(taken@, more, taken.config);
        }
        let INI { content, mut sections, mut comments, config } = taken;
        sections.append(&mut more_sections);
        comments.append(&mut more_comments);
        assert(sections.deep_view() =~= taken@.sections + more.sections);
        assert(comments.deep_view() =~= taken@.comments + more.comments);
        *self = INI { content, sections, comments, config };
    }
}

/// The top-level comments of `ini`.
pub fn get_all_comments(ini: INI) -> (comments: Vec<String>)
    ensures
        comments.deep_view() == ini@.comments,
{
    ini.comments
}

/// The top-level sections of `ini`.
pub fn get_all_sections(ini: INI) -> (sections: Vec<Section>)
    ensures
        sections.deep_view() == ini@.sections,
{
    ini.sections
}

} // verus!
