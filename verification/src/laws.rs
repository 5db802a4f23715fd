//! What holds of the reader as a whole: laws that relate the tokenizer, the parser and
//! the document, each proved from their definitions.

use crate::config::{Config, ParseStrategy};
use crate::document::{Document, PropertyView, SectionView, INI};
use crate::lexer::{
    header_name, key_text, line_tokens, section_close, section_open, tokens_of, value_text,
    TokenView,
};
use crate::number::{float_literal, integer_value, unsigned};
use crate::machine::{
    assemble, global_name, law_documents_are_well_formed, lemma_error_stays, separator, Machine,
    ParseError,
};
use crate::text::{
    after_first, ascii_alphanumeric, before_first, lemma_trimmed_keeps_absence,
    lemma_unquoted_has_no_quote, quote, trimmed, unquoted,
};
use crate::value::{inferred, ValueView};
use crate::{read, reads};
use vstd::prelude::*;

verus! {

/// Lines are tokenized one by one: the tokens of two runs of lines, one after the other,
/// are the tokens of the first run followed by those of the second.
pub proof fn law_lines_are_independent(
    config: Config,
    first: Seq<Seq<char>>,
    second: Seq<Seq<char>>,
)
    ensures
        tokens_of(config, first + second) == tokens_of(config, first) + tokens_of(config, second),
    decreases second.len(),
{
    if second.len() == 0 {
        assert(first + second =~= first);
        assert(tokens_of(config, first) + tokens_of(config, second) =~= tokens_of(config, first));
    } else {
        assert((first + second).drop_last() =~= first + second.drop_last());
        assert((first + second).last() == second.last());
        law_lines_are_independent(config, first, second.drop_last());
        assert(tokens_of(config, first + second) =~= tokens_of(config, first) + tokens_of(
            config,
            second,
        ));
    }
}

/// No quote character is left in the name that a section header declares, nor in the
/// value of a property. (A key keeps its quotes.)
pub proof fn law_quotes_are_stripped(config: Config, line: Seq<char>)
    ensures
        !header_name(line).contains(quote()),
        !value_text(config, line).contains(quote()),
{
    let inner = before_first(line.skip(1), section_close());
    lemma_unquoted_has_no_quote(inner);
    lemma_trimmed_keeps_absence(unquoted(inner), quote());
    lemma_unquoted_has_no_quote(trimmed(after_first(line, config.delimiter.symbol())));
}

/// Running the machine over two runs of tokens, one after the other, is running it over
/// the first and then, from where that ended, over the second.
pub proof fn law_run_in_two_parts(
    machine: Machine,
    config: Config,
    first: Seq<TokenView>,
    second: Seq<TokenView>,
)
    ensures
        machine.run(config, first + second) == match machine.run(config, first) {
            Ok(middle) => middle.run(config, second),
            Err(error) => Err(error),
        },
    decreases second.len(),
{
    if second.len() == 0 {
        assert(first + second =~= first);
    } else {
        assert((first + second).drop_last() =~= first + second.drop_last());
        assert((first + second).last() == second.last());
        law_run_in_two_parts(machine, config, first, second.drop_last());
    }
}

/// Whether `line` is a comment under `config`.
pub open spec fn comment_line(config: Config, line: Seq<char>) -> bool {
    line.len() > 0 && config.opens_comment(line[0])
}

/// What a comment line says: the line without its marker, trimmed.
pub open spec fn comment_body(line: Seq<char>) -> Seq<char> {
    trimmed(line.skip(1))
}

/// The bodies of `lines` that say something, in the lines' order.
pub open spec fn spoken_comments(lines: Seq<Seq<char>>) -> Seq<Seq<char>> {
    lines.map_values(|line: Seq<char>| comment_body(line)).filter(
        |body: Seq<char>| body.len() > 0,
    )
}

/// The machine after nothing but comment lines: it has gathered the comments.
proof fn lemma_machine_after_comments(config: Config, lines: Seq<Seq<char>>)
    requires
        forall|i: int| 0 <= i < lines.len() ==> comment_line(config, #[trigger] lines[i]),
    ensures
        Machine::start().run(config, tokens_of(config, lines)) == Ok::<Machine, ParseError>(
            Machine { comments: spoken_comments(lines), ..Machine::start() },
        ),
    decreases lines.len(),
{
    reveal(Seq::filter);
    let body = |line: Seq<char>| comment_body(line);
    if lines.len() == 0 {
        assert(lines.map_values(body) =~= Seq::empty());
    } else {
        let before = lines.drop_last();
        let last = lines.last();
        assert forall|i: int| 0 <= i < before.len() implies comment_line(
            config,
            #[trigger] before[i],
        ) by {
            assert(before[i] == lines[i]);
        }
        lemma_machine_after_comments(config, before);
        assert(comment_line(config, last));
        let token = TokenView::Comment(comment_body(last));
        assert(line_tokens(config, last) =~= seq![token]);
        let tokens = tokens_of(config, lines);
        assert(tokens =~= tokens_of(config, before).push(token));
        assert(tokens.drop_last() =~= tokens_of(config, before));
        assert(lines.map_values(body).drop_last() =~= before.map_values(body));
        assert(lines.map_values(body).last() == comment_body(last));
    }
}

/// A text of comment lines only makes a document without sections. Its comments are what
/// the lines say, in the lines' order; a comment line that says nothing leaves no comment.
pub proof fn law_only_comments(config: Config, lines: Seq<Seq<char>>)
    requires
        forall|i: int| 0 <= i < lines.len() ==> comment_line(config, #[trigger] lines[i]),
    ensures
        read(config, lines) == Ok::<Document, ParseError>(
            Document { sections: Seq::empty(), comments: spoken_comments(lines) },
        ),
        (forall|i: int| 0 <= i < lines.len() ==> comment_body(#[trigger] lines[i]).len() > 0)
            ==> spoken_comments(lines) == lines.map_values(|line: Seq<char>| comment_body(line)),
{
    lemma_machine_after_comments(config, lines);
    let bodies = lines.map_values(|line: Seq<char>| comment_body(line));
    if forall|i: int| 0 <= i < lines.len() ==> comment_body(#[trigger] lines[i]).len() > 0 {
        lemma_filter_keeps_all(bodies);
    }
}

/// A filter that every element passes changes nothing.
proof fn lemma_filter_keeps_all(texts: Seq<Seq<char>>)
    requires
        forall|i: int| 0 <= i < texts.len() ==> (#[trigger] texts[i]).len() > 0,
    ensures
        texts.filter(|text: Seq<char>| text.len() > 0) == texts,
    decreases texts.len(),
{
    reveal(Seq::filter);
    if texts.len() > 0 {
        lemma_filter_keeps_all(texts.drop_last());
        assert(texts.drop_last().push(texts.last()) =~= texts);
    }
}

/// The error that `token` is to the machine, if it is one: a header without a name, a key
/// before any section where global properties are not allowed, or an empty value to keep
/// where blank values are not allowed.
pub open spec fn refusal(machine: Machine, config: Config, token: TokenView) -> Option<ParseError> {
    match token {
        TokenView::Section(name) => if name.len() == 0 {
            Some(ParseError::MalformedSection)
        } else {
            None
        },
        TokenView::Name(text) => if machine.pending.is_none() {
            if machine.current.is_none() && !config.allow_global_properties {
                Some(ParseError::DisallowedGlobalProperty)
            } else {
                None
            }
        } else if !machine.discard && text.len() == 0 && !config.allow_blank_values {
            Some(ParseError::DisallowedBlankValue)
        } else {
            None
        },
        _ => None,
    }
}

/// A move fails on these three grounds and on no other. In particular a header fails
/// where its name is empty and nowhere else, with sub-sections or without.
pub proof fn law_moves_fail_on_three_grounds(machine: Machine, config: Config, token: TokenView)
    ensures
        match refusal(machine, config, token) {
            Some(error) => machine.step(config, token) == Err::<Machine, ParseError>(error),
            None => machine.step(config, token).is_ok(),
        },
{
}

/// The first token that is an error to the machine decides the outcome: the tokens are no
/// document, and the error is that token's, whatever follows it.
pub proof fn law_first_refusal_decides(
    config: Config,
    tokens: Seq<TokenView>,
    at: int,
    error: ParseError,
)
    requires
        0 <= at < tokens.len(),
        Machine::start().run(config, tokens.take(at)) matches Ok(machine) && refusal(
            machine,
            config,
            tokens[at],
        ) == Some(error),
    ensures
        assemble(config, tokens) == Err::<Document, ParseError>(error),
{
    let machine = Machine::start().run(config, tokens.take(at)).unwrap();
    law_moves_fail_on_three_grounds(machine, config, tokens[at]);
    assert(tokens.take(at + 1).drop_last() =~= tokens.take(at));
    assert(tokens.take(at + 1).last() == tokens[at]);
    lemma_error_stays(Machine::start(), config, tokens, at + 1);
}

/// Where no token is an error to the machine, the tokens are a document unless they end
/// with a key that awaits its value.
pub proof fn law_without_refusal_only_a_dangling_key_fails(config: Config, tokens: Seq<TokenView>)
    requires
        forall|at: int|
            0 <= at < tokens.len() ==> (#[trigger] Machine::start().run(
                config,
                tokens.take(at),
            ) matches Ok(machine) ==> refusal(machine, config, tokens[at]).is_none()),
    ensures
        Machine::start().run(config, tokens) matches Ok(machine) && assemble(config, tokens) == if
            machine.pending.is_some() {
            Err::<Document, ParseError>(ParseError::DanglingProperty)
        } else {
            Ok::<Document, ParseError>(
                Document { sections: machine.closed_sections(), comments: machine.comments },
            )
        },
    decreases tokens.len(),
{
    if tokens.len() > 0 {
        let before = tokens.drop_last();
        assert forall|at: int| 0 <= at < before.len() implies (#[trigger] Machine::start().run(
            config,
            before.take(at),
        ) matches Ok(machine) ==> refusal(machine, config, before[at]).is_none()) by {
            assert(before.take(at) =~= tokens.take(at));
            assert(before[at] == tokens[at]);
        }
        law_without_refusal_only_a_dangling_key_fails(config, before);
        let last = tokens.len() - 1;
        assert(tokens.take(last) =~= before);
        let machine = Machine::start().run(config, tokens.take(last)).unwrap();
        law_moves_fail_on_three_grounds(machine, config, tokens[last]);
    }
}

/// With sub-sections enabled, a header whose name has a separator, after a finished or
/// open section, begins a section that is nested, whatever follows the separator; it is
/// named by what follows, or by the whole name where nothing does.
pub proof fn law_dotted_header_is_nested(machine: Machine, config: Config, name: Seq<char>)
    requires
        config.enable_subsections,
        name.contains(separator()),
        machine.closed_sections().len() > 0,
    ensures
        machine.header(config, name) == Ok::<Machine, ParseError>(
            Machine {
                sections: machine.closed_sections(),
                current: Some(
                    SectionView::named(
                        if after_first(name, separator()).len() > 0 {
                            after_first(name, separator())
                        } else {
                            name
                        },
                    ),
                ),
                nested: true,
                ..machine
            },
        ),
{
    name.index_of_first_ensures(separator());
}

/// Whether `line` is a property under `config`: it begins with a letter or a digit and
/// holds the delimiter.
pub open spec fn property_line(config: Config, line: Seq<char>) -> bool {
    line.len() > 0 && ascii_alphanumeric(line[0]) && line.contains(config.delimiter.symbol())
}

/// The section that a property joins: the one under construction, or else the global one.
pub open spec fn target(machine: Machine) -> SectionView {
    match machine.current {
        Some(section) => section,
        None => SectionView::named(global_name()),
    }
}

/// The machine after a property has joined the section it was read for.
pub open spec fn with_property(machine: Machine, key: Seq<char>, value: ValueView) -> Machine {
    Machine {
        current: Some(target(machine).with_property(PropertyView { key, value: Some(value) })),
        nested: machine.current.is_some() && machine.nested,
        pending: None,
        discard: false,
        ..machine
    }
}

/// Whether the machine can take the property `line` as a new one: no key awaits its value,
/// there is a section for it or global properties are allowed, and its key is not yet in
/// that section unless duplicates are allowed.
pub open spec fn takes(machine: Machine, config: Config, line: Seq<char>) -> bool {
    &&& property_line(config, line)
    &&& machine.pending.is_none()
    &&& machine.current.is_some() || config.allow_global_properties
    &&& config.duplicate_policy == ParseStrategy::AllowDuplicates || !target(
        machine,
    ).keys().contains(key_text(config, line))
}

/// A run of three tokens is three moves.
proof fn lemma_three_moves(
    machine: Machine,
    config: Config,
    a: TokenView,
    b: TokenView,
    c: TokenView,
)
    ensures
        machine.run(config, seq![a, b, c]) == match machine.step(config, a) {
            Ok(first) => match first.step(config, b) {
                Ok(second) => second.step(config, c),
                Err(error) => Err(error),
            },
            Err(error) => Err(error),
        },
{
    let three = seq![a, b, c];
    let two = seq![a, b];
    let one = seq![a];
    assert(three.drop_last() =~= two);
    assert(two.drop_last() =~= one);
    assert(one.drop_last() =~= Seq::<TokenView>::empty());
    assert(machine.run(config, Seq::<TokenView>::empty()) == Ok::<Machine, ParseError>(machine));
    assert(machine.run(config, one) == machine.step(config, a));
    assert(machine.run(config, two) == match machine.run(config, one) {
        Ok(first) => first.step(config, b),
        Err(error) => Err(error),
    });
    assert(machine.run(config, three) == match machine.run(config, two) {
        Ok(second) => second.step(config, c),
        Err(error) => Err(error),
    });
}

/// A new property, read line and all: its key and its typed value join the section, or
/// its empty value is refused.
pub proof fn law_property_line(machine: Machine, config: Config, line: Seq<char>)
    requires
        takes(machine, config, line),
    ensures
        machine.run(config, line_tokens(config, line)) == if value_text(config, line).len() == 0
            && !config.allow_blank_values {
            Err::<Machine, ParseError>(ParseError::DisallowedBlankValue)
        } else {
            Ok::<Machine, ParseError>(
                with_property(
                    machine,
                    key_text(config, line),
                    inferred(value_text(config, line)),
                ),
            )
        },
{
    let key = key_text(config, line);
    let text = value_text(config, line);
    lemma_three_moves(
        machine,
        config,
        TokenView::Name(key),
        TokenView::MapsTo,
        TokenView::Name(text),
    );
    target(machine).keys().index_of_first_ensures(key);
    let keyed = machine.key(config, key).unwrap();
    if !(text.len() == 0 && !config.allow_blank_values) {
        assert(keyed.value(config, key, text).unwrap() =~= with_property(
            machine,
            key,
            inferred(text),
        ));
    }
}

/// A value that denotes an integer becomes that integer, leading zeros or not.
pub proof fn law_integer_property(machine: Machine, config: Config, line: Seq<char>, n: int)
    requires
        takes(machine, config, line),
        integer_value(value_text(config, line)) == Some(n),
    ensures
        machine.run(config, line_tokens(config, line)) == Ok::<Machine, ParseError>(
            with_property(machine, key_text(config, line), ValueView::Integer(n)),
        ),
{
    law_property_line(machine, config, line);
}

/// A value that denotes no integer but is written as a floating-point literal becomes a
/// float, which holds the literal.
pub proof fn law_float_property(machine: Machine, config: Config, line: Seq<char>)
    requires
        takes(machine, config, line),
        integer_value(value_text(config, line)).is_none(),
        float_literal(value_text(config, line)),
    ensures
        machine.run(config, line_tokens(config, line)) == Ok::<Machine, ParseError>(
            with_property(
                machine,
                key_text(config, line),
                ValueView::Float(value_text(config, line)),
            ),
        ),
{
    law_property_line(machine, config, line);
    lemma_empty_is_no_number();
}

/// A value that is not empty and denotes no number becomes a string.
pub proof fn law_string_property(machine: Machine, config: Config, line: Seq<char>)
    requires
        takes(machine, config, line),
        integer_value(value_text(config, line)).is_none(),
        !float_literal(value_text(config, line)),
        value_text(config, line).len() > 0,
    ensures
        machine.run(config, line_tokens(config, line)) == Ok::<Machine, ParseError>(
            with_property(
                machine,
                key_text(config, line),
                ValueView::Text(value_text(config, line)),
            ),
        ),
{
    law_property_line(machine, config, line);
}

/// A property whose key its section holds already, read line and all. Where duplicates are
/// ignored the line changes nothing. Where they are overwritten the earlier property
/// leaves and the new one is appended. Where they are allowed the new one is appended
/// and the earlier one stays.
pub proof fn law_duplicate_property(
    machine: Machine,
    config: Config,
    line: Seq<char>,
    section: SectionView,
    earlier: int,
)
    requires
        property_line(config, line),
        machine.pending.is_none(),
        machine.current == Some(section),
        section.position(key_text(config, line)) == Some(earlier),
    ensures
        machine.run(config, line_tokens(config, line)) == {
            let property = PropertyView {
                key: key_text(config, line),
                value: Some(inferred(value_text(config, line))),
            };
            let kept = match config.duplicate_policy {
                ParseStrategy::AllowDuplicates => section,
                _ => section.without_property(earlier),
            };
            if config.duplicate_policy == ParseStrategy::IgnoreDuplicates {
                Ok::<Machine, ParseError>(Machine { discard: false, ..machine })
            } else if value_text(config, line).len() == 0 && !config.allow_blank_values {
                Err::<Machine, ParseError>(ParseError::DisallowedBlankValue)
            } else {
                Ok::<Machine, ParseError>(
                    Machine {
                        current: Some(kept.with_property(property)),
                        discard: false,
                        ..machine
                    },
                )
            }
        },
{
    lemma_three_moves(
        machine,
        config,
        TokenView::Name(key_text(config, line)),
        TokenView::MapsTo,
        TokenView::Name(value_text(config, line)),
    );
}

/// An empty value is an error unless blank values are allowed; where they are, it
/// becomes the empty string.
pub proof fn law_blank_value(machine: Machine, config: Config, line: Seq<char>)
    requires
        takes(machine, config, line),
        value_text(config, line).len() == 0,
    ensures
        machine.run(config, line_tokens(config, line)) == if config.allow_blank_values {
            Ok::<Machine, ParseError>(
                with_property(machine, key_text(config, line), ValueView::Text(Seq::empty())),
            )
        } else {
            Err::<Machine, ParseError>(ParseError::DisallowedBlankValue)
        },
{
    law_property_line(machine, config, line);
    lemma_empty_is_no_number();
    assert(value_text(config, line) =~= Seq::empty());
}

/// The empty text denotes no integer and is no floating-point literal.
proof fn lemma_empty_is_no_number()
    ensures
        integer_value(Seq::empty()).is_none(),
        !float_literal(Seq::empty()),
{
    let empty = Seq::<char>::empty();
    assert(unsigned(empty) =~= empty);
    assert(empty.skip(0) =~= empty);
}

/// The property that the line `line` declares.
pub open spec fn declared_property(config: Config, line: Seq<char>) -> PropertyView {
    PropertyView {
        key: key_text(config, line),
        value: Some(inferred(value_text(config, line))),
    }
}

/// Whether `lines` are properties that one section can take one after the other: each is a
/// property line, none has an empty value unless blank values are allowed, and no two
/// have the same key unless duplicates are allowed.
pub open spec fn plain_properties(config: Config, lines: Seq<Seq<char>>) -> bool {
    &&& forall|i: int| 0 <= i < lines.len() ==> property_line(config, #[trigger] lines[i])
    &&& config.allow_blank_values || forall|i: int|
        0 <= i < lines.len() ==> value_text(config, #[trigger] lines[i]).len() > 0
    &&& config.duplicate_policy == ParseStrategy::AllowDuplicates || forall|i: int, j: int|
        0 <= i < j < lines.len() ==> key_text(config, lines[i]) != key_text(config, lines[j])
}

/// The machine after a header and plain properties: it holds the one section.
proof fn lemma_machine_after_plain_section(
    config: Config,
    header: Seq<char>,
    lines: Seq<Seq<char>>,
)
    requires
        header.len() > 0,
        header[0] == section_open(),
        header_name(header).len() > 0,
        plain_properties(config, lines),
    ensures
        Machine::start().run(config, tokens_of(config, seq![header] + lines)) == Ok::<
            Machine,
            ParseError,
        >(
            Machine {
                current: Some(
                    SectionView {
                        name: header_name(header),
                        children: Seq::empty(),
                        properties: lines.map_values(
                            |line: Seq<char>| declared_property(config, line),
                        ),
                    },
                ),
                ..Machine::start()
            },
        ),
    decreases lines.len(),
{
    let declared = |line: Seq<char>| declared_property(config, line);
    let text = seq![header] + lines;
    if lines.len() == 0 {
        let token = TokenView::Section(header_name(header));
        assert(text.drop_last() =~= Seq::<Seq<char>>::empty());
        assert(tokens_of(config, text.drop_last()) =~= Seq::<TokenView>::empty());
        assert(tokens_of(config, text) =~= seq![token]);
        assert(seq![token].drop_last() =~= Seq::<TokenView>::empty());
        assert(Machine::start().run(config, seq![token]) == Machine::start().step(config, token));
        assert(lines.map_values(declared) =~= Seq::<PropertyView>::empty());
    } else {
        let before = lines.drop_last();
        let last = lines.last();
        assert(text.drop_last() =~= seq![header] + before);
        assert(text.last() == last);
        assert(plain_properties(config, before)) by {
            assert forall|i: int| 0 <= i < before.len() implies property_line(
                config,
                #[trigger] before[i],
            ) by {
                assert(before[i] == lines[i]);
            }
            if !config.allow_blank_values {
                assert forall|i: int| 0 <= i < before.len() implies value_text(
                    config,
                    #[trigger] before[i],
                ).len() > 0 by {
                    assert(before[i] == lines[i]);
                }
            }
            if config.duplicate_policy != ParseStrategy::AllowDuplicates {
                assert forall|i: int, j: int| 0 <= i < j < before.len() implies key_text(
                    config,
                    before[i],
                ) != key_text(config, before[j]) by {
                    assert(before[i] == lines[i] && before[j] == lines[j]);
                }
            }
        }
        lemma_machine_after_plain_section(config, header, before);
        let earlier = tokens_of(config, seq![header] + before);
        let machine = Machine::start().run(config, earlier).unwrap();
        let section = machine.current.unwrap();
        law_run_in_two_parts(Machine::start(), config, earlier, line_tokens(config, last));
        assert(takes(machine, config, last)) by {
            assert(property_line(config, last));
            if config.duplicate_policy != ParseStrategy::AllowDuplicates {
                if section.keys().contains(key_text(config, last)) {
                    let i = choose|i: int|
                        0 <= i < section.keys().len() && section.keys()[i] == key_text(
                            config,
                            last,
                        );
                    assert(section.keys()[i] == key_text(config, lines[i]));
                }
            }
        }
        law_property_line(machine, config, last);
        assert(value_text(config, last).len() > 0 || config.allow_blank_values);
        assert(lines.map_values(declared) =~= before.map_values(declared).push(
            declared_property(config, last),
        ));
    }
}

/// A header followed by plain properties makes a document of one section, which has the
/// header's name and the properties that the lines declare, in the lines' order.
pub proof fn law_plain_section(config: Config, header: Seq<char>, lines: Seq<Seq<char>>)
    requires
        header.len() > 0,
        header[0] == section_open(),
        header_name(header).len() > 0,
        plain_properties(config, lines),
    ensures
        read(config, seq![header] + lines) == Ok::<Document, ParseError>(
            Document {
                sections: seq![
                    SectionView {
                        name: header_name(header),
                        children: Seq::empty(),
                        properties: lines.map_values(
                            |line: Seq<char>| declared_property(config, line),
                        ),
                    },
                ],
                comments: Seq::empty(),
            },
        ),
{
    lemma_machine_after_plain_section(config, header, lines);
    let machine = Machine::start().run(config, tokens_of(config, seq![header] + lines)).unwrap();
    assert(machine.closed_sections() =~= seq![machine.current.unwrap()]);
}

/// Whether `token` neither opens a section nor is a key or a value.
pub open spec fn passive(token: TokenView) -> bool {
    token is Comment || token is MapsTo
}

/// Passive tokens leave the machine without a section, finished or not, and without a key.
proof fn lemma_passive_run(config: Config, tokens: Seq<TokenView>)
    requires
        forall|i: int| 0 <= i < tokens.len() ==> passive(#[trigger] tokens[i]),
    ensures
        Machine::start().run(config, tokens) matches Ok(machine) && machine.current.is_none()
            && machine.pending.is_none() && machine.sections.len() == 0,
    decreases tokens.len(),
{
    if tokens.len() > 0 {
        let before = tokens.drop_last();
        assert forall|i: int| 0 <= i < before.len() implies passive(#[trigger] before[i]) by {
            assert(before[i] == tokens[i]);
        }
        lemma_passive_run(config, before);
        assert(passive(tokens.last()));
    }
}

/// Where global properties are not allowed, a key before the first section header is an
/// error, whatever follows it.
pub proof fn law_global_property_refused(config: Config, tokens: Seq<TokenView>, at: int)
    requires
        !config.allow_global_properties,
        0 <= at < tokens.len(),
        tokens[at] is Name,
        forall|i: int| 0 <= i < at ==> passive(#[trigger] tokens[i]),
    ensures
        assemble(config, tokens) == Err::<Document, ParseError>(
            ParseError::DisallowedGlobalProperty,
        ),
{
    let before = tokens.take(at);
    assert forall|i: int| 0 <= i < before.len() implies passive(#[trigger] before[i]) by {
        assert(before[i] == tokens[i]);
    }
    lemma_passive_run(config, before);
    assert(tokens.take(at + 1).drop_last() =~= before);
    assert(tokens.take(at + 1).last() == tokens[at]);
    lemma_error_stays(Machine::start(), config, tokens, at + 1);
}

/// Where global properties are allowed, a property before the first section header is
/// taken into the global section.
pub proof fn law_global_property_taken(
    config: Config,
    tokens: Seq<TokenView>,
    key: Seq<char>,
    text: Seq<char>,
)
    requires
        config.allow_global_properties,
        forall|i: int| 0 <= i < tokens.len() ==> passive(#[trigger] tokens[i]),
        text.len() > 0 || config.allow_blank_values,
    ensures
        Machine::start().run(
            config,
            tokens + seq![TokenView::Name(key), TokenView::MapsTo, TokenView::Name(text)],
        ) matches Ok(machine) && machine.sections.len() == 0 && machine.current == Some(
            SectionView::named(global_name()).with_property(
                PropertyView { key, value: Some(inferred(text)) },
            ),
        ),
{
    let pair = seq![TokenView::Name(key), TokenView::MapsTo, TokenView::Name(text)];
    lemma_passive_run(config, tokens);
    law_run_in_two_parts(Machine::start(), config, tokens, pair);
    let machine = Machine::start().run(config, tokens).unwrap();
    lemma_three_moves(
        machine,
        config,
        TokenView::Name(key),
        TokenView::MapsTo,
        TokenView::Name(text),
    );
    let global = SectionView::named(global_name());
    global.keys().index_of_first_ensures(key);
    assert(global.keys() =~= Seq::empty());
}

/// The names that the section headers among `tokens` declare, in the headers' order.
pub open spec fn declared_names(tokens: Seq<TokenView>) -> Seq<Seq<char>>
    decreases tokens.len(),
{
    if tokens.len() == 0 {
        Seq::empty()
    } else {
        match tokens.last() {
            TokenView::Section(name) => declared_names(tokens.drop_last()).push(name),
            _ => declared_names(tokens.drop_last()),
        }
    }
}

/// The names of `sections`, in order.
pub open spec fn names(sections: Seq<SectionView>) -> Seq<Seq<char>> {
    sections.map_values(|section: SectionView| section.name)
}

/// Without sub-sections and global properties, the machine's sections are those that the
/// headers so far have declared, and none has a child.
proof fn lemma_sections_follow_headers(config: Config, tokens: Seq<TokenView>)
    requires
        !config.enable_subsections,
        !config.allow_global_properties,
    ensures
        Machine::start().run(config, tokens) matches Ok(machine) ==> {
            &&& !machine.nested
            &&& names(machine.closed_sections()) == declared_names(tokens)
            &&& forall|i: int|
                0 <= i < machine.closed_sections().len() ==> (
                #[trigger] machine.closed_sections()[i]).children.len() == 0
        },
    decreases tokens.len(),
{
    if tokens.len() == 0 {
        assert(names(Machine::start().closed_sections()) =~= Seq::empty());
    } else {
        lemma_sections_follow_headers(config, tokens.drop_last());
        if let Ok(before) = Machine::start().run(config, tokens.drop_last()) {
            if let Ok(machine) = before.step(config, tokens.last()) {
                let closed = before.closed_sections();
                match tokens.last() {
                    TokenView::Section(name) => {
                        let opened = SectionView::named(name);
                        assert(machine.closed_sections() =~= closed.push(opened));
                        assert(names(closed.push(opened)) =~= names(closed).push(name));
                        assert forall|i: int|
                            0 <= i < machine.closed_sections().len() implies (
                        #[trigger] machine.closed_sections()[i]).children.len() == 0 by {
                            if i < closed.len() {
                                assert(machine.closed_sections()[i] == closed[i]);
                            }
                        }
                    },
                    TokenView::Name(text) => match (before.current, machine.current) {
                        (Some(old), Some(new)) => {
                            assert(new.name == old.name && new.children == old.children);
                            assert(closed =~= before.sections.push(old));
                            assert(machine.closed_sections() =~= before.sections.push(new));
                            assert(names(before.sections.push(new)) =~= names(
                                before.sections.push(old),
                            ));
                            assert forall|i: int|
                                0 <= i < machine.closed_sections().len() implies (
                            #[trigger] machine.closed_sections()[i]).children.len() == 0 by {
                                if i < before.sections.len() {
                                    assert(machine.closed_sections()[i] == closed[i]);
                                } else {
                                    assert(closed[i] == old);
                                }
                            }
                        },
                        _ => {
                            assert(machine.closed_sections() == closed);
                        },
                    },
                    _ => {
                        assert(machine.closed_sections() == closed);
                    },
                }
            }
        }
    }
}

/// Without sub-sections and global properties, the sections of a document are the
/// sections that the headers declare, one for each header and in the headers' order,
/// sections of one name side by side; and no section has a child.
pub proof fn law_sections_follow_headers(config: Config, tokens: Seq<TokenView>)
    requires
        !config.enable_subsections,
        !config.allow_global_properties,
    ensures
        assemble(config, tokens) matches Ok(document) ==> {
            &&& names(document.sections) == declared_names(tokens)
            &&& forall|i: int|
                0 <= i < document.sections.len() ==> (
                #[trigger] document.sections[i]).children.len() == 0
        },
{
    lemma_sections_follow_headers(config, tokens);
}

/// Reading is a function of the lines and the options: two readings of the same lines
/// under the same options end alike, in equal documents or in the same error.
pub proof fn law_reading_is_repeatable(
    first: Result<INI, ParseError>,
    second: Result<INI, ParseError>,
    config: Config,
    lines: Seq<Seq<char>>,
)
    requires
        reads(first, config, lines),
        reads(second, config, lines),
    ensures
        match (first, second) {
            (Ok(a), Ok(b)) => a@ == b@,
            (Err(a), Err(b)) => a == b,
            _ => false,
        },
{
}

/// What is read is well formed.
pub proof fn law_readings_are_well_formed(config: Config, lines: Seq<Seq<char>>)
    ensures
        read(config, lines) matches Ok(document) ==> document.well_formed(config),
{
    law_documents_are_well_formed(config, tokens_of(config, lines));
}

} // verus!
