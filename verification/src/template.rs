//! Minimal `{{ name }}` substitution.
//!
//! Deliberately not a template language: recipes are build scripts, and a build
//! script that needs conditionals should say so in shell, where it can be read.

use crate::text::{chars_of, find_from, join_texts, string_of, trim};
use crate::text_map::TextMap;
use vstd::prelude::*;
use vstd::slice::slice_subrange;
use vstd::string::*;

verus! {

/// What opens a placeholder.
pub open spec fn opening() -> Seq<char> {
    seq!['{', '{']
}

/// What closes a placeholder.
pub open spec fn closing() -> Seq<char> {
    seq!['}', '}']
}

/// Why a template has no expansion.
pub enum Flaw {
    /// A placeholder is opened and never closed.
    Unterminated,
    /// A placeholder names a variable that is not set.
    Unknown(Seq<char>),
}

/// The text with each placeholder replaced by the variable that it names. The
/// first flaw from the left is the one that counts.
pub open spec fn expansion(vars: Map<Seq<char>, Seq<char>>, text: Seq<char>) -> Result<
    Seq<char>,
    Flaw,
>
    decreases text.len(),
{
    match crate::text::first(text, opening()) {
        None => Ok(text),
        Some(start) => {
            let after = text.skip(start + 2);
            match crate::text::first(after, closing()) {
                None => Err(Flaw::Unterminated),
                Some(end) => {
                    proof {
                        crate::text::lemma_first_from(text, opening(), 0);
                        crate::text::lemma_first_from(after, closing(), 0);
                    }
                    let key = crate::text::trimmed(after.take(end));
                    if !vars.contains_key(key) {
                        Err(Flaw::Unknown(key))
                    } else {
                        match expansion(vars, after.skip(end + 2)) {
                            Err(flaw) => Err(flaw),
                            Ok(rest) => Ok(text.take(start) + vars[key] + rest),
                        }
                    }
                },
            }
        },
    }
}

/// A template that cannot be expanded.
#[derive(Debug)]
pub enum TemplateError {
    /// `template` opens a placeholder that it never closes.
    Unterminated { template: String },
    /// `key` is not among the variables, which are `known`.
    Unknown { key: String, known: Vec<String> },
}

impl TemplateError {
    /// The error is what comes of expanding `text` with `vars`.
    pub open spec fn arises(
        self,
        vars: Map<Seq<char>, Seq<char>>,
        text: Seq<char>,
    ) -> bool {
        match self {
            TemplateError::Unterminated { template } => expansion(vars, text) == Err::<
                Seq<char>,
                Flaw,
            >(Flaw::Unterminated) && template@ == text,
            TemplateError::Unknown { key, known } => {
                &&& expansion(vars, text) == Err::<Seq<char>, Flaw>(Flaw::Unknown(key@))
                &&& crate::text_map::ascending_texts(crate::text::texts(known@))
                &&& forall|name: Seq<char>|
                    #![trigger vars.contains_key(name)]
                    crate::text::texts(known@).contains(name) <==> vars.contains_key(name)
            },
        }
    }

    /// The error in words.
    pub open spec fn words(self) -> Seq<char> {
        match self {
            TemplateError::Unterminated { template } => "unterminated '{{' in template: "@
                + template@,
            TemplateError::Unknown { key, known } => "unknown template variable '{{"@ + key@
                + "}}' (known: "@ + crate::text::join(crate::text::texts(known@), ", "@) + ")"@,
        }
    }

    /// The error in words.
    pub fn message(&self) -> (text: String)
        ensures
            text@ == self.words(),
    {
        match self {
            TemplateError::Unterminated { template } => {
                let mut text = "unterminated '{{' in template: ".to_owned();
                text.append(template.as_str());
                text
            },
            TemplateError::Unknown { key, known } => {
                let mut text = "unknown template variable '{{".to_owned();
                text.append(key.as_str());
                text.append("}}' (known: ");
                text.append(join_texts(known, ", ").as_str());
                text.append(")");
                text
            },
        }
    }
}

/// The variables that templates may name.
#[derive(Debug)]
pub struct Vars(TextMap);

impl View for Vars {
    type V = Map<Seq<char>, Seq<char>>;

    closed spec fn view(&self) -> Map<Seq<char>, Seq<char>> {
        self.0@
    }
}

impl Clone for Vars {
    fn clone(&self) -> (copy: Vars)
        ensures
            copy@ == self@,
    {
        Vars(self.0.clone())
    }
}

impl Default for Vars {
    fn default() -> (vars: Vars)
        ensures
            vars@ == Map::<Seq<char>, Seq<char>>::empty(),
    {
        Vars::new()
    }
}

impl Vars {
    /// No variables.
    pub fn new() -> (vars: Vars)
        ensures
            vars@ == Map::<Seq<char>, Seq<char>>::empty(),
    {
        Vars(TextMap::new())
    }

    /// Sets a variable, in place of the value that it had.
    pub fn set(&mut self, key: &str, value: &str) -> (vars: &mut Vars)
        ensures
            vars@ == old(self)@.insert(key@, value@),
            *final(self) == *final(vars),
    {
        self.0.insert(key.to_owned(), value.to_owned());
        self
    }

    /// The value of a variable.
    pub fn get(&self, key: &str) -> (value: Option<&str>)
        ensures
            match value {
                Some(value) => self@.contains_key(key@) && value@ == self@[key@],
                None => !self@.contains_key(key@),
            },
    {
        match self.0.get(key) {
            Some(value) => Some(value.as_str()),
            None => None,
        }
    }

    /// The variables and their values, in ascending order of their names.
    pub fn iter(&self) -> (entries: &Vec<(String, String)>)
        ensures
            crate::text_map::ascending(crate::text_map::pairs(entries@)),
            crate::text_map::map_of(crate::text_map::pairs(entries@)) == self@,
            crate::text_map::pairs(entries@) == crate::text_map::listing(self@),
    {
        self.0.entries()
    }

    /// Expands every `{{ key }}` in `input`. An unknown key is an error rather
    /// than an empty string: a silently blank path is far worse than a failure.
    pub fn expand(&self, input: &str) -> (expanded: Result<String, TemplateError>)
        ensures
            match expanded {
                Ok(text) => expansion(self@, input@) == Ok::<Seq<char>, Flaw>(text@),
                Err(error) => error.arises(self@, input@),
            },
    {
        let chars = chars_of(input);
        let open: [char; 2] = ['{', '{'];
        let close: [char; 2] = ['}', '}'];
        assert(open@ =~= opening());
        assert(close@ =~= closing());
        let mut out = String::new();
        let mut rest: &[char] = &chars;
        assert(forall|tail: Seq<char>| #[trigger] (out@ + tail) =~= tail);
        loop
            invariant
                open@ == opening(),
                close@ == closing(),
                match expansion(self@, rest@) {
                    Ok(tail) => expansion(self@, input@) == Ok::<Seq<char>, Flaw>(out@ + tail),
                    Err(flaw) => expansion(self@, input@) == Err::<Seq<char>, Flaw>(flaw),
                },
            decreases rest@.len(),
        {
            let len = rest.len();
            proof {
                crate::text::lemma_first_from(rest@, opening(), 0);
            }
            let start = match find_from(rest, &open, 0) {
                Some(start) => start,
                None => {
                    out.append(string_of(rest).as_str());
                    return Ok(out);
                },
            };
            let after = slice_subrange(rest, start + 2, len);
            assert(after@ =~= rest@.skip(start + 2));
            proof {
                crate::text::lemma_first_from(after@, closing(), 0);
            }
            let end = match find_from(after, &close, 0) {
                Some(end) => end,
                None => {
                    return Err(TemplateError::Unterminated { template: input.to_owned() });
                },
            };
            let key = string_of(trim(slice_subrange(after, 0, end)));
            assert(key@ == crate::text::trimmed(after@.take(end as int)));
            match self.0.get(key.as_str()) {
                Some(value) => {
                    let ghost before = out@;
                    let ghost whole = rest@;
                    out.append(string_of(slice_subrange(rest, 0, start)).as_str());
                    out.append(value.as_str());
                    rest = slice_subrange(after, end + 2, after.len());
                    assert(rest@ =~= after@.skip(end + 2));
                    assert(forall|tail: Seq<char>| #[trigger]
                        (out@ + tail) =~= before + (whole.take(start as int) + value@ + tail));
                },
                None => {
                    let known = self.0.keys();
                    return Err(TemplateError::Unknown { key, known });
                },
            }
        }
    }
}

// -- laws --------------------------------------------------------------------

/// Text without a placeholder is left alone.
pub proof fn law_plain_text_is_left_alone(vars: Map<Seq<char>, Seq<char>>, text: Seq<char>)
    requires
        forall|i: int| !crate::text::occurs_at(text, opening(), i),
    ensures
        expansion(vars, text) == Ok::<Seq<char>, Flaw>(text),
{
    crate::text::lemma_first_from(text, opening(), 0);
}

/// In `before`, followed by `mark` twice, the first pair of marks is that one.
pub open spec fn runs_up_to(before: Seq<char>, mark: char) -> bool {
    &&& forall|i: int| !crate::text::occurs_at(before, seq![mark, mark], i)
    &&& before.len() > 0 ==> before.last() != mark
}

/// A pair of marks after text that holds none is the first pair.
proof fn lemma_first_pair(before: Seq<char>, mark: char, rest: Seq<char>)
    requires
        runs_up_to(before, mark),
    ensures
        crate::text::first(before + seq![mark, mark] + rest, seq![mark, mark]) == Some(
            before.len() as int,
        ),
{
    let pair = seq![mark, mark];
    let whole = before + pair + rest;
    assert(whole.subrange(before.len() as int, before.len() as int + 2) =~= pair);
    assert forall|i: int| 0 <= i < before.len() implies !crate::text::occurs_at(whole, pair, i) by {
        if crate::text::occurs_at(whole, pair, i) {
            assert(whole.subrange(i, i + 2)[0] == mark && whole.subrange(i, i + 2)[1] == mark);
            if i + 2 <= before.len() {
                assert(before.subrange(i, i + 2) =~= pair);
                assert(crate::text::occurs_at(before, pair, i));
            } else {
                assert(before.last() == whole[i]);
            }
        }
    }
    crate::text::lemma_first_is(whole, pair, 0, before.len() as int);
}

/// A placeholder is replaced by the variable that it names, white space around
/// the name aside, and the text after it is expanded in its turn; where no such
/// variable is set, the template has no expansion.
pub proof fn law_placeholder_is_replaced(
    vars: Map<Seq<char>, Seq<char>>,
    before: Seq<char>,
    name: Seq<char>,
    rest: Seq<char>,
)
    requires
        runs_up_to(before, '{'),
        runs_up_to(name, '}'),
    ensures
        expansion(vars, before + opening() + name + closing() + rest) == (
        if !vars.contains_key(crate::text::trimmed(name)) {
            Err(Flaw::Unknown(crate::text::trimmed(name)))
        } else {
            match expansion(vars, rest) {
                Ok(tail) => Ok(before + vars[crate::text::trimmed(name)] + tail),
                Err(flaw) => Err(flaw),
            }
        }),
{
    let whole = before + opening() + name + closing() + rest;
    let after = name + closing() + rest;
    assert(whole =~= before + opening() + after);
    lemma_first_pair(before, '{', after);
    lemma_first_pair(name, '}', rest);
    assert(whole.skip(before.len() as int + 2) =~= after);
    assert(whole.take(before.len() as int) =~= before);
    assert(after.take(name.len() as int) =~= name);
    assert(after.skip(name.len() as int + 2) =~= rest);
}

/// Setting further variables changes nothing in a template that expands without
/// them.
pub proof fn law_further_variables_change_nothing(
    vars: Map<Seq<char>, Seq<char>>,
    more: Map<Seq<char>, Seq<char>>,
    text: Seq<char>,
)
    requires
        vars.submap_of(more),
        expansion(vars, text) is Ok,
    ensures
        expansion(more, text) == expansion(vars, text),
    decreases text.len(),
{
    crate::text::lemma_first_from(text, opening(), 0);
    if let Some(start) = crate::text::first(text, opening()) {
        let after = text.skip(start + 2);
        crate::text::lemma_first_from(after, closing(), 0);
        if let Some(end) = crate::text::first(after, closing()) {
            let key = crate::text::trimmed(after.take(end));
            assert(vars.contains_key(key));
            assert(more.contains_key(key));
            law_further_variables_change_nothing(vars, more, after.skip(end + 2));
        }
    }
}

/// A placeholder that is opened and never closed is refused, whatever stands before
/// it, and so is everything that holds it.
pub proof fn law_unclosed_placeholder_is_refused(
    vars: Map<Seq<char>, Seq<char>>,
    before: Seq<char>,
    rest: Seq<char>,
)
    requires
        runs_up_to(before, '{'),
        forall|i: int| 0 <= i < rest.len() - 1 ==> !(rest[i] == '}' && #[trigger] rest[i + 1] == '}'),
    ensures
        expansion(vars, before + seq!['{', '{'] + rest) == Err::<Seq<char>, Flaw>(
            Flaw::Unterminated,
        ),
{
    let text = before + seq!['{', '{'] + rest;
    lemma_first_pair(before, '{', rest);
    let after = text.skip(before.len() as int + 2);
    assert(after =~= rest);
    crate::text::lemma_first_from(rest, closing(), 0);
    if let Some(end) = crate::text::first(rest, closing()) {
        assert(rest.subrange(end, end + 2) == closing());
        assert(rest.subrange(end, end + 2)[0] == '}' && rest.subrange(end, end + 2)[1] == '}');
        assert(rest[end] == '}' && rest[end + 1] == '}');
    }
}

/// A text that is one placeholder stands for the value of its variable.
pub proof fn law_lone_placeholder_is_its_value(vars: Map<Seq<char>, Seq<char>>, name: Seq<char>)
    requires
        runs_up_to(name, '}'),
    ensures
        expansion(vars, seq!['{', '{'] + name + seq!['}', '}']) == (
        if vars.contains_key(crate::text::trimmed(name)) {
            Ok::<Seq<char>, Flaw>(vars[crate::text::trimmed(name)])
        } else {
            Err::<Seq<char>, Flaw>(Flaw::Unknown(crate::text::trimmed(name)))
        }),
{
    let empty = Seq::<char>::empty();
    law_placeholder_is_replaced(vars, empty, name, empty);
    assert(empty + opening() + name + closing() + empty =~= seq!['{', '{'] + name + seq!['}', '}']);
    assert(crate::text::first(empty, opening()) is None);
    assert(expansion(vars, empty) == Ok::<Seq<char>, Flaw>(empty));
    assert(empty + vars[crate::text::trimmed(name)] + empty =~= vars[crate::text::trimmed(name)]);
}

/// The error of a template that has no expansion tells the unclosed template, or the
/// variable that is not set and all that are, in their order.
pub proof fn law_template_errors_tell_what_is_wrong(
    error: TemplateError,
    vars: Map<Seq<char>, Seq<char>>,
    text: Seq<char>,
)
    requires
        error.arises(vars, text),
    ensures
        expansion(vars, text) is Err,
        error matches TemplateError::Unterminated { template } ==> template@ == text,
        error matches TemplateError::Unknown { key, known } ==> !vars.contains_key(key@) && (
        forall|name: Seq<char>| #[trigger]
            vars.contains_key(name) <==> exists|i: int|
                0 <= i < known@.len() && (#[trigger] known@[i])@ == name) && (forall|i: int, j: int|
            0 <= i < j < known@.len() ==> crate::text::precedes(
                (#[trigger] known@[i])@,
                (#[trigger] known@[j])@,
            )),
{
    if let TemplateError::Unknown { key, known } = error {
        lemma_unknown_is_not_set(vars, text);
        let names = crate::text::texts(known@);
        assert forall|name: Seq<char>| #[trigger]
            vars.contains_key(name) <==> exists|i: int|
                0 <= i < known@.len() && (#[trigger] known@[i])@ == name by {
            assert(names.contains(name) <==> vars.contains_key(name));
            if names.contains(name) {
                let i = choose|i: int| 0 <= i < names.len() && names[i] == name;
                assert(known@[i]@ == name);
            }
            if exists|i: int| 0 <= i < known@.len() && (#[trigger] known@[i])@ == name {
                let i = choose|i: int| 0 <= i < known@.len() && (#[trigger] known@[i])@ == name;
                assert(names[i] == name);
            }
        }
        assert forall|i: int, j: int| 0 <= i < j < known@.len() implies crate::text::precedes(
            (#[trigger] known@[i])@,
            (#[trigger] known@[j])@,
        ) by {
            assert(names[i] == known@[i]@ && names[j] == known@[j]@);
        }
    }
}

proof fn lemma_unknown_is_not_set(vars: Map<Seq<char>, Seq<char>>, text: Seq<char>)
    ensures
        expansion(vars, text) matches Err(Flaw::Unknown(key)) ==> !vars.contains_key(key),
    decreases text.len(),
{
    if let Some(start) = crate::text::first(text, opening()) {
        let after = text.skip(start + 2);
        crate::text::lemma_first_from(text, opening(), 0);
        if let Some(end) = crate::text::first(after, closing()) {
            crate::text::lemma_first_from(after, closing(), 0);
            lemma_unknown_is_not_set(vars, after.skip(end + 2));
        }
    }
}

/// The message on a variable that is not set names it, and all that are.
pub proof fn law_template_messages_name_the_variables(
    template: String,
    key: String,
    known: Vec<String>,
)
    ensures
        (TemplateError::Unterminated { template }).words() == "unterminated '{{' in template: "@
            + template@,
        (TemplateError::Unknown { key, known }).words() == "unknown template variable '{{"@ + key@
            + "}}' (known: "@ + crate::text::join(crate::text::texts(known@), ", "@) + ")"@,
{
}

} // verus!
