//! The directives that a code block can carry: whether to hide its source,
//! the file to save it to, and the command to run.

use vstd::prelude::*;
use crate::text::same_text;

verus! {

/// The value stored under one key of a JSON object, as far as the
/// directives are concerned: scalars with their content, the rest by kind.
#[derive(Debug)]
pub enum JsonField {
    Null,
    Bool(bool),
    Text(String),
    Number,
    Array,
    Object,
}

/// The mathematical content of a [`JsonField`].
pub enum FieldView {
    Null,
    Bool(bool),
    Text(Seq<char>),
    Number,
    Array,
    Object,
}

impl View for JsonField {
    type V = FieldView;

    open spec fn view(&self) -> FieldView {
        match self {
            JsonField::Null => FieldView::Null,
            JsonField::Bool(b) => FieldView::Bool(*b),
            JsonField::Text(s) => FieldView::Text(s@),
            JsonField::Number => FieldView::Number,
            JsonField::Array => FieldView::Array,
            JsonField::Object => FieldView::Object,
        }
    }
}

/// One member of a JSON object.
#[derive(Debug)]
pub struct JsonEntry {
    pub key: String,
    pub value: JsonField,
}

impl View for JsonEntry {
    type V = (Seq<char>, FieldView);

    open spec fn view(&self) -> (Seq<char>, FieldView) {
        (self.key@, self.value@)
    }
}

/// The members of a list of entries, as mathematical values.
pub open spec fn entries_view(entries: Seq<JsonEntry>) -> Seq<(Seq<char>, FieldView)> {
    Seq::new(entries.len(), |i: int| entries[i]@)
}

/// The members of the JSON object that a text spells, or `None` where the
/// text is not JSON or its top-level value is not an object. A key that
/// the text gives more than once is one member, with the value given
/// last.
pub uninterp spec fn json_object_entries(text: Seq<char>) -> Option<Seq<(Seq<char>, FieldView)>>;

/// Parses `text` with `serde_json::from_str` into a `serde_json::Value` and,
/// where that is an object, hands out its members in the order in which the
/// object's map yields them. A text that `serde_json` rejects and a value
/// that is no object both give `None`. The map keeps one value for a key,
/// the last that the text gives. The result depends on the text alone.
#[verifier::external_body]
pub(crate) fn parse_json_object(text: &str) -> (entries: Option<Vec<JsonEntry>>)
    ensures
        match entries {
            Some(list) => json_object_entries(text@) == Some(entries_view(list@)),
            None => json_object_entries(text@) is None,
        },
{
    match serde_json::from_str::<serde_json::Value>(text) {
        Ok(serde_json::Value::Object(map)) => Some(map.into_iter().map(|(key, value)| JsonEntry {
            key,
            value: match value {
                serde_json::Value::Null => JsonField::Null,
                serde_json::Value::Bool(b) => JsonField::Bool(b),
                serde_json::Value::String(s) => JsonField::Text(s),
                serde_json::Value::Number(_) => JsonField::Number,
                serde_json::Value::Array(_) => JsonField::Array,
                serde_json::Value::Object(_) => JsonField::Object,
            },
        }).collect()),
        _ => None,
    }
}

/// The directives of one code block. Every one may be absent.
#[derive(Debug)]
pub struct CodeBlockOptions {
    /// Leave the block's source out of the page's "Input" section.
    pub hide: Option<bool>,
    /// The file, relative to the note's directory, that receives the code.
    pub name: Option<String>,
    /// The shell command to run in the container.
    pub cmd: Option<String>,
}

/// The mathematical content of [`CodeBlockOptions`].
pub struct OptionsView {
    pub hide: Option<bool>,
    pub name: Option<Seq<char>>,
    pub cmd: Option<Seq<char>>,
}

impl View for CodeBlockOptions {
    type V = OptionsView;

    open spec fn view(&self) -> OptionsView {
        OptionsView {
            hide: self.hide,
            name: match self.name {
                Some(s) => Some(s@),
                None => None,
            },
            cmd: match self.cmd {
                Some(s) => Some(s@),
                None => None,
            },
        }
    }
}

/// The directives of a block that carries none.
pub open spec fn default_options() -> OptionsView {
    OptionsView { hide: None, name: None, cmd: None }
}

/// The value of the first member with the given key, if there is one.
pub open spec fn lookup(entries: Seq<(Seq<char>, FieldView)>, key: Seq<char>) -> Option<FieldView>
    decreases entries.len(),
{
    if entries.len() == 0 {
        None
    } else if entries[0].0 == key {
        Some(entries[0].1)
    } else {
        lookup(entries.drop_first(), key)
    }
}

/// How an optional boolean reads a member: absent and `null` are no value,
/// a boolean is that value, anything else does not fit (outer `None`).
pub open spec fn flag_of(field: Option<FieldView>) -> Option<Option<bool>> {
    match field {
        None => Some(None),
        Some(FieldView::Null) => Some(None),
        Some(FieldView::Bool(b)) => Some(Some(b)),
        Some(_) => None,
    }
}

/// How an optional string reads a member: absent and `null` are no value,
/// a string is that value, anything else does not fit (outer `None`).
pub open spec fn text_of(field: Option<FieldView>) -> Option<Option<Seq<char>>> {
    match field {
        None => Some(None),
        Some(FieldView::Null) => Some(None),
        Some(FieldView::Text(s)) => Some(Some(s)),
        Some(_) => None,
    }
}

/// The directives that an object's members spell: `hide` must be a boolean,
/// `name` and `cmd` strings, each may be missing or `null`, and members
/// under other keys do not count. `None` where a member does not fit.
pub open spec fn options_of_entries(entries: Seq<(Seq<char>, FieldView)>) -> Option<OptionsView> {
    let hide = flag_of(lookup(entries, "hide"@));
    let name = text_of(lookup(entries, "name"@));
    let cmd = text_of(lookup(entries, "cmd"@));
    if hide is Some && name is Some && cmd is Some {
        Some(OptionsView { hide: hide->0, name: name->0, cmd: cmd->0 })
    } else {
        None
    }
}

/// The directives that a text spells: those of the JSON object it holds,
/// or `None` where it holds no such object or a member does not fit.
pub open spec fn parse_options(text: Seq<char>) -> Option<OptionsView> {
    match json_object_entries(text) {
        Some(entries) => options_of_entries(entries),
        None => None,
    }
}

fn find_entry<'a>(entries: &'a Vec<JsonEntry>, key: &str) -> (found: Option<&'a JsonField>)
    ensures
        match found {
            Some(field) => lookup(entries_view(entries@), key@) == Some(field@),
            None => lookup(entries_view(entries@), key@) is None,
        },
{
    let mut i: usize = 0;
    assert(entries_view(entries@).skip(0) =~= entries_view(entries@));
    while i < entries.len()
        invariant
            i <= entries@.len(),
            lookup(entries_view(entries@), key@) == lookup(entries_view(entries@).skip(i as int), key@),
        decreases entries@.len() - i,
    {
        proof {
            let rest = entries_view(entries@).skip(i as int);
            assert(rest[0] == entries@[i as int]@);
            assert(rest.drop_first() =~= entries_view(entries@).skip(i + 1));
        }
        if same_text(entries[i].key.as_str(), key) {
            return Some(&entries[i].value);
        }
        i += 1;
    }
    None
}

fn read_flag(field: Option<&JsonField>) -> (r: Option<Option<bool>>)
    ensures
        r == flag_of(
            match field {
                Some(f) => Some(f@),
                None => None,
            },
        ),
{
    match field {
        None => Some(None),
        Some(JsonField::Null) => Some(None),
        Some(JsonField::Bool(b)) => Some(Some(*b)),
        Some(_) => None,
    }
}

fn read_text(field: Option<&JsonField>) -> (r: Option<Option<String>>)
    ensures
        match r {
            Some(Some(s)) => text_of(
                match field {
                    Some(f) => Some(f@),
                    None => None,
                },
            ) == Some(Some(s@)),
            Some(None) => text_of(
                match field {
                    Some(f) => Some(f@),
                    None => None,
                },
            ) == Some(None::<Seq<char>>),
            None => text_of(
                match field {
                    Some(f) => Some(f@),
                    None => None,
                },
            ) is None,
        },
{
    match field {
        None => Some(None),
        Some(JsonField::Null) => Some(None),
        Some(JsonField::Text(s)) => Some(Some(s.clone())),
        Some(_) => None,
    }
}

impl CodeBlockOptions {
    /// Reads the directives out of the members of a JSON object.
    pub fn from_entries(entries: &Vec<JsonEntry>) -> (options: Option<CodeBlockOptions>)
        ensures
            match options {
                Some(o) => options_of_entries(entries_view(entries@)) == Some(o@),
                None => options_of_entries(entries_view(entries@)) is None,
            },
    {
        let hide = read_flag(find_entry(entries, "hide"));
        let name = read_text(find_entry(entries, "name"));
        let cmd = read_text(find_entry(entries, "cmd"));
        match (hide, name, cmd) {
            (Some(hide), Some(name), Some(cmd)) => Some(CodeBlockOptions { hide, name, cmd }),
            _ => None,
        }
    }

    /// Reads the directives that a text spells as a JSON object.
    pub fn parse(text: &str) -> (options: Option<CodeBlockOptions>)
        ensures
            match options {
                Some(o) => parse_options(text@) == Some(o@),
                None => parse_options(text@) is None,
            },
    {
        match parse_json_object(text) {
            Some(entries) => CodeBlockOptions::from_entries(&entries),
            None => None,
        }
    }
}

impl Default for CodeBlockOptions {
    fn default() -> (options: CodeBlockOptions)
        ensures
            options@ == default_options(),
    {
        CodeBlockOptions { hide: None, name: None, cmd: None }
    }
}

impl Clone for CodeBlockOptions {
    fn clone(&self) -> (copy: CodeBlockOptions)
        ensures
            copy == *self,
    {
        CodeBlockOptions {
            hide: self.hide,
            name: match &self.name {
                Some(s) => Some(s.clone()),
                None => None,
            },
            cmd: match &self.cmd {
                Some(s) => Some(s.clone()),
                None => None,
            },
        }
    }
}

} // verus!
