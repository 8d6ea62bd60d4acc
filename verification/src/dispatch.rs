//! One way to run a command, shared by every surface that is not the command
//! line: what a command takes, what its arguments are, and what is said when it
//! fails.

use vstd::prelude::*;

use crate::json;
use crate::list;
use crate::number;
use crate::text;

verus! {

/// One argument a command takes.
#[derive(Debug)]
pub struct Prop {
    pub name: String,
    /// The type its schema gives, if it gives one as a word.
    pub kind: Option<String>,
    pub description: Option<String>,
}

/// A command, as the catalog lists it.
#[derive(Debug)]
pub struct Tool {
    /// The command path joined with `_`: `page_zoom`.
    pub name: String,
    /// What it takes, in the order of its schema, if its schema lists anything.
    pub props: Option<Vec<Prop>>,
}

/// An argument as values.
pub struct Field {
    pub name: Seq<char>,
    pub kind: Option<Seq<char>>,
    pub description: Option<Seq<char>>,
}

impl View for Prop {
    type V = Field;

    open spec fn view(&self) -> Field {
        Field {
            name: self.name@,
            kind: match self.kind {
                Some(kind) => Some(kind@),
                None => None,
            },
            description: match self.description {
                Some(text) => Some(text@),
                None => None,
            },
        }
    }
}

pub open spec fn fields(props: Seq<Prop>) -> Seq<Field> {
    props.map_values(|p: Prop| p@)
}

/// The arguments of a command as values.
pub open spec fn fields_of(props: Option<Vec<Prop>>) -> Option<Seq<Field>> {
    match props {
        Some(list) => Some(fields(list@)),
        None => None,
    }
}

/// A value handed to a command.
#[derive(Debug)]
pub enum Arg {
    Integer(i64),
    Flag(bool),
    Text(String),
    /// Meant for a number and not a whole one: it is read as a fraction where it
    /// can be, and handed over as text where it cannot.
    Numeric(String),
}

/// A value as a value.
pub enum Given {
    Integer(int),
    Flag(bool),
    Text(Seq<char>),
    Numeric(Seq<char>),
}

impl View for Arg {
    type V = Given;

    open spec fn view(&self) -> Given {
        match self {
            Arg::Integer(n) => Given::Integer(*n as int),
            Arg::Flag(b) => Given::Flag(*b),
            Arg::Text(s) => Given::Text(s@),
            Arg::Numeric(s) => Given::Numeric(s@),
        }
    }
}

impl Clone for Arg {
    fn clone(&self) -> (r: Self)
        ensures
            r == *self,
    {
        match self {
            Arg::Integer(n) => Arg::Integer(*n),
            Arg::Flag(b) => Arg::Flag(*b),
            Arg::Text(s) => Arg::Text(s.clone()),
            Arg::Numeric(s) => Arg::Numeric(s.clone()),
        }
    }
}

/// What typed-in text becomes for an argument of some type.
pub open spec fn coerced(raw: Seq<char>, json_type: Seq<char>) -> Given {
    let typed = text::trimmed(raw);
    if json_type == "integer"@ || json_type == "number"@ {
        match number::signed(typed, i64::MIN as int, i64::MAX as int) {
            Some(n) => Given::Integer(n),
            None => Given::Numeric(typed),
        }
    } else if json_type == "boolean"@ {
        if typed == ""@ || typed == "true"@ || typed == "yes"@ || typed == "on"@ || typed == "1"@ {
            Given::Flag(true)
        } else if typed == "false"@ || typed == "no"@ || typed == "off"@ || typed == "0"@ {
            Given::Flag(false)
        } else {
            Given::Text(typed)
        }
    } else {
        Given::Text(typed)
    }
}

/// Turn typed-in text into a value of the shape the schema asks for.
///
/// Whole numbers before fractions, and it matters: `tab select` and `tab cycle`
/// take whole ones, and `3.0` is not accepted for either.
pub fn coerce(raw: &str, json_type: &str) -> (r: Arg)
    ensures
        r@ == coerced(raw@, json_type@),
{
    let typed = text::trim(raw);
    if text::same(json_type, "integer") || text::same(json_type, "number") {
        return match number::parse_i64(typed.as_str()) {
            Some(n) => Arg::Integer(n),
            None => Arg::Numeric(typed),
        };
    }
    if text::same(json_type, "boolean") {
        let word = typed.as_str();
        if text::same(word, "") || text::same(word, "true") || text::same(word, "yes")
            || text::same(word, "on") || text::same(word, "1") {
            return Arg::Flag(true);
        }
        if text::same(word, "false") || text::same(word, "no") || text::same(word, "off")
            || text::same(word, "0") {
            return Arg::Flag(false);
        }
    }
    Arg::Text(typed)
}

/// An ASCII small letter as the capital, and every other character as it is.
pub open spec fn upper(c: char) -> char {
    if 'a' <= c <= 'z' {
        (c as u32 - 32) as char
    } else {
        c
    }
}

pub fn upper_char(c: char) -> (r: char)
    ensures
        r == upper(c),
{
    if 'a' <= c && c <= 'z' {
        ((c as u8) - 32) as char
    } else {
        c
    }
}

/// A text with its first character a capital.
pub open spec fn sentence(s: Seq<char>) -> Seq<char> {
    if s.len() == 0 {
        s
    } else {
        s.update(0, upper(s[0]))
    }
}

/// The group a tool came from, and what its command is called.
pub open spec fn labelled(tool: Seq<char>) -> (Seq<char>, Seq<char>) {
    match text::cut_first(tool, '_') {
        Some((group, leaf)) => (group, sentence(text::swapped(leaf, '_', ' '))),
        None => (Seq::empty(), sentence(tool)),
    }
}

/// Split a tool name into the group it came from and a label for the command.
///
/// Tool names are the command path joined with `_` (`page_zoom`), and the prefix
/// is the only thing left of the structure they were declared in. Sentence case,
/// not title case, to match the rows the palette has.
pub fn label(tool: &str) -> (r: (String, String))
    ensures
        (r.0@, r.1@) == labelled(tool@),
{
    let (group, leaf) = match text::split_once(tool, '_') {
        Some(both) => both,
        None => (String::new(), tool.to_owned()),
    };
    let spaced = text::swap_char(leaf.as_str(), '_', ' ');
    proof {
        if text::cut_first(tool@, '_') is None {
            text::lemma_first_of_is_first(tool@, '_');
            assert(spaced@ =~= tool@);
        }
    }
    let chars = text::chars_of(spaced.as_str());
    let mut out = String::new();
    if chars.len() > 0 {
        out.push(upper_char(chars[0]));
        out.append(text::slice_of(&chars, 1, chars.len()).as_str());
    }
    assert(out@ =~= sentence(spaced@));
    (group, out)
}

/// The type of an argument: text, unless its schema says otherwise.
pub open spec fn kind_of(field: Field) -> Seq<char> {
    match field.kind {
        Some(kind) => kind,
        None => "string"@,
    }
}

/// Which argument a row prompts for first: the first that is not a flag.
pub open spec fn primary(fields: Seq<Field>) -> Option<int> {
    list::first_where(fields, |f: Field| kind_of(f) != "boolean"@)
}

/// The argument a row prompts for first, with its type and what it is for.
///
/// Deliberately "first that is not a flag" rather than "first": skipping flags
/// picks the right one whatever order the schema comes in, since every flag has
/// a default.
pub fn primary_arg(tool: &Tool) -> (r: Option<(String, String, Option<String>)>)
    ensures
        match r {
            Some((name, kind, description)) => tool.props matches Some(props) && primary(
                fields(props@),
            ) matches Some(i) && {
                let field = fields(props@)[i];
                &&& name@ == field.name
                &&& kind@ == kind_of(field)
                &&& match description {
                    Some(text) => field.description == Some(text@),
                    None => field.description is None,
                }
            },
            None => tool.props is None || primary(fields(tool.props.unwrap()@)) is None,
        },
{
    let props = match &tool.props {
        Some(props) => props,
        None => return None,
    };
    let ghost want = |f: Field| kind_of(f) != "boolean"@;
    let mut i: usize = 0;
    while i < props.len()
        invariant
            i <= props.len(),
            tool.props == Some(*props),
            want == (|f: Field| kind_of(f) != "boolean"@),
            forall|j: int| 0 <= j < i ==> !want(#[trigger] fields(props@)[j]),
        decreases props.len() - i,
    {
        let prop = &props[i];
        assert(fields(props@)[i as int] == prop@);
        let kind = match &prop.kind {
            Some(kind) => kind.clone(),
            None => "string".to_owned(),
        };
        if !text::same(kind.as_str(), "boolean") {
            proof {
                list::lemma_first_where(fields(props@), want, i as int);
            }
            return Some(
                (
                    prop.name.clone(),
                    kind,
                    match &prop.description {
                        Some(text) => Some(text.clone()),
                        None => None,
                    },
                ),
            );
        }
        i += 1;
    }
    proof {
        list::lemma_first_where(fields(props@), want, i as int);
    }
    None
}

/// What is said when an address a page asked for, by a hint or by a popup, could
/// not be opened in a tab.
pub fn not_opened(url: &str, why: &str) -> (r: String)
    ensures
        r@ == "could not open "@ + url@ + ": "@ + why@,
{
    let mut message = "could not open ".to_owned();
    message.append(url);
    message.append(": ");
    message.append(why);
    message
}

/// What is said when a command fails: what it says itself, and the names of the
/// arguments that were wrong, if any were.
pub fn failure(message: &str, wrong: &[String]) -> (r: String)
    ensures
        r@ == if wrong@.len() == 0 {
            message@
        } else {
            message@ + " ("@ + text::joined(text::texts(wrong@), ", "@) + ")"@
        },
{
    let mut out = message.to_owned();
    if wrong.len() > 0 {
        out.append(" (");
        out.append(text::join(wrong, ", ").as_str());
        out.append(")");
    }
    out
}

/// The arguments a binding's literal stands for, given what it reads as. One
/// that does not read stands for none.
pub fn args_or_none(read: Option<Vec<(String, String)>>) -> (r: Vec<(String, String)>)
    ensures
        match read {
            Some(args) => r == args,
            None => r@.len() == 0,
        },
{
    match read {
        Some(args) => args,
        None => Vec::new(),
    }
}

/// The names and the values, in JSON, of a binding's literal arguments. A
/// malformed literal degrades to "no arguments" rather than refusing to act.
pub fn args_from_json(raw: &str) -> (r: Vec<(String, String)>)
    ensures
        json::pairs(r@) == match json::object_value(raw@) {
            Some(args) => args,
            None => Seq::empty(),
        },
{
    let r = args_or_none(json::read_object(raw));
    assert(r@.len() == 0 ==> json::pairs(r@) =~= Seq::empty());
    r
}

// ---------------------------------------------------------------------------
// Laws
// ---------------------------------------------------------------------------

/// The words that switch a flag on and those that switch it off. Any other word is
/// handed on as it was typed.
pub proof fn law_flag_words(word: Seq<char>)
    requires
        word.len() > 0,
        !text::is_space(word[0]) && !text::is_space(word.last()),
    ensures
        coerced(word, "boolean"@) == Given::Flag(true) <==> word == "true"@ || word == "yes"@ || word
            == "on"@ || word == "1"@,
        coerced(word, "boolean"@) == Given::Flag(false) <==> word == "false"@ || word == "no"@
            || word == "off"@ || word == "0"@,
        coerced(word, "boolean"@) is Flag || coerced(word, "boolean"@) == Given::Text(word),
        coerced(Seq::empty(), "boolean"@) == Given::Flag(true),
{
    reveal_strlit("");
    reveal_strlit("true");
    reveal_strlit("yes");
    reveal_strlit("on");
    reveal_strlit("1");
    reveal_strlit("false");
    reveal_strlit("no");
    reveal_strlit("off");
    reveal_strlit("0");
    reveal_strlit("boolean");
    reveal_strlit("integer");
    reveal_strlit("number");
    assert("boolean"@[0] == 'b' && "integer"@[0] == 'i' && "number"@[0] == 'n');
    assert(text::trimmed(word) == word);
    assert(""@ =~= Seq::<char>::empty());
    assert("true"@.len() == 4 && "yes"@.len() == 3 && "on"@.len() == 2 && "1"@.len() == 1
        && "false"@.len() == 5 && "no"@.len() == 2 && "off"@.len() == 3 && "0"@.len() == 1);
    assert("on"@[0] == 'o' && "no"@[0] == 'n' && "yes"@[0] == 'y' && "off"@[0] == 'o' && "1"@[0]
        == '1' && "0"@[0] == '0');
}

/// A whole number typed for a number is that number, with its sign, and text typed for
/// anything else but a flag stays text.
pub proof fn law_numbers_stay_whole(n: nat, word: Seq<char>, kind: Seq<char>)
    requires
        n <= i64::MAX,
        word.len() > 0,
        !text::is_space(word[0]) && !text::is_space(word.last()),
    ensures
        coerced(number::decimal(n), "integer"@) == Given::Integer(n as int),
        coerced(number::decimal(n), "number"@) == Given::Integer(n as int),
        coerced(seq!['-'] + number::decimal(n), "integer"@) == Given::Integer(-(n as int)),
        coerced(seq!['-'] + number::decimal(n), "number"@) == Given::Integer(-(n as int)),
        kind != "integer"@ && kind != "number"@ && kind != "boolean"@ ==> coerced(word, kind)
            == Given::Text(word),
{
    let digits = number::decimal(n);
    let minus = seq!['-'] + digits;
    number::lemma_decimal(n);
    assert(number::is_digit(digits[0]) && number::is_digit(digits[digits.len() - 1]));
    assert(text::trimmed(digits) == digits);
    assert(minus.last() == digits.last());
    assert(text::trimmed(minus) == minus);
    assert(minus.skip(1) =~= digits);
}

/// A row prompts first for the first argument that is not a flag, whatever flags come
/// before it. One that takes nothing but flags prompts for nothing.
pub proof fn law_flags_are_not_prompted_for(flags: Seq<Field>, field: Field, rest: Seq<Field>)
    requires
        forall|i: int| 0 <= i < flags.len() ==> (#[trigger] flags[i]).kind == Some("boolean"@),
        field.kind != Some("boolean"@),
    ensures
        primary(flags) is None,
        primary(flags + seq![field] + rest) == Some(flags.len() as int),
{
    reveal_strlit("boolean");
    reveal_strlit("string");
    assert("boolean"@.len() == 7 && "string"@.len() == 6);
    let want = |f: Field| kind_of(f) != "boolean"@;
    let all = flags + seq![field] + rest;
    assert forall|j: int| 0 <= j < flags.len() implies !want(#[trigger] flags[j]) by {}
    assert forall|j: int| 0 <= j < flags.len() implies !want(#[trigger] all[j]) by {
        assert(all[j] == flags[j]);
    }
    assert(all[flags.len() as int] == field);
    list::lemma_first_where(flags, want, flags.len() as int);
    list::lemma_first_where(all, want, flags.len() as int);
}

/// A command is labelled by what follows its group, the words set apart and only the
/// first of them capitalised. One that belongs to no group is its own label.
pub proof fn law_label_is_a_sentence(group: Seq<char>, leaf: Seq<char>)
    requires
        !group.contains('_'),
        leaf.len() > 0,
    ensures
        ({
            let said = labelled(group + seq!['_'] + leaf);
            &&& said.0 == group
            &&& said.1.len() == leaf.len()
            &&& forall|i: int|
                1 <= i < leaf.len() ==> #[trigger] said.1[i] == if leaf[i] == '_' {
                    ' '
                } else {
                    leaf[i]
                }
            &&& 'a' <= leaf[0] <= 'z' ==> 'A' <= said.1[0] <= 'Z' && text::lower(said.1[0])
                == leaf[0]
        }),
        labelled(group).0.len() == 0,
{
    let tool = group + seq!['_'] + leaf;
    let at = group.len() as int;
    assert forall|j: int| 0 <= j < at implies tool[j] != '_' by {
        assert(tool[j] == group[j]);
        assert(group.contains(group[j]));
    }
    text::lemma_first_of(tool, '_', at);
    assert(tool.take(at) =~= group);
    assert(tool.skip(at + 1) =~= leaf);
    assert forall|j: int| 0 <= j < at implies group[j] != '_' by {
        assert(group.contains(group[j]));
    }
    text::lemma_first_of(group, '_', at);
}

} // verus!
