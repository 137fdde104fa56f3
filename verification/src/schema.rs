//! The manifest contract as data: a Markdown rendering of the JSON Schemas of
//! the three files that a house is written in. The schemas are derived from
//! the manifest structs and handed in.

use crate::document;
use crate::document::field;
use crate::json::Json;
use crate::json::JsonView;
use crate::scan;
use crate::text;
use crate::text::cat2;
use crate::text::cat3;
use crate::text::cat5;
use crate::text::str_eq;
use vstd::prelude::*;

verus! {

broadcast use crate::text::group_views;

/// The three files a house is written in.
#[derive(Debug, Clone, Copy, PartialEq, Eq, Structural)]
pub enum File {
    Unit,
    Entity,
    Zones,
}

impl File {
    pub const ALL: [File; 3] = [File::Unit, File::Entity, File::Zones];

    /// The name of the file kind.
    pub open spec fn word(self) -> Seq<char> {
        match self {
            File::Unit => "unit"@,
            File::Entity => "entity"@,
            File::Zones => "zones"@,
        }
    }

    pub open spec fn heading(self) -> Seq<char> {
        match self {
            File::Unit => "Unit manifest (`units/<name>.toml`)"@,
            File::Entity => "Entity file (`<entities dir>/<name>.toml`)"@,
            File::Zones => "Zones (`zones.toml`)"@,
        }
    }

    pub fn parse(name: &str) -> (r: Option<File>)
        ensures
            match r {
                Some(f) => f.word() == name@,
                None => forall|f: File| #[trigger] f.word() != name@,
            },
    {
        if str_eq(name, "unit") {
            Some(File::Unit)
        } else if str_eq(name, "entity") {
            Some(File::Entity)
        } else if str_eq(name, "zones") {
            Some(File::Zones)
        } else {
            None
        }
    }

    pub fn name(self) -> (r: &'static str)
        ensures
            r@ == self.word(),
    {
        match self {
            File::Unit => "unit",
            File::Entity => "entity",
            File::Zones => "zones",
        }
    }

    pub fn title(self) -> (r: &'static str)
        ensures
            r@ == self.heading(),
    {
        match self {
            File::Unit => "Unit manifest (`units/<name>.toml`)",
            File::Entity => "Entity file (`<entities dir>/<name>.toml`)",
            File::Zones => "Zones (`zones.toml`)",
        }
    }
}

/// The name of a file kind reads back as that kind.
pub proof fn law_file_names_read_back(a: File, b: File)
    requires
        a.word() == b.word(),
    ensures
        a == b,
{
    reveal_strlit("unit");
    reveal_strlit("entity");
    reveal_strlit("zones");
    assert("unit"@[0] != "entity"@[0] && "unit"@[0] != "zones"@[0] && "entity"@[0] != "zones"@[0]);
}

/// The JSON Schema of each file kind.
#[derive(Debug)]
pub struct Schemas {
    pub unit: Json,
    pub entity: Json,
    pub zones: Json,
}

impl Schemas {
    /// The schema of a file kind.
    pub open spec fn of(self, file: File) -> JsonView {
        match file {
            File::Unit => self.unit@,
            File::Entity => self.entity@,
            File::Zones => self.zones@,
        }
    }

    /// The JSON Schema for one file kind.
    pub fn json(&self, file: File) -> (r: &Json)
        ensures
            r@ == self.of(file),
    {
        match file {
            File::Unit => &self.unit,
            File::Entity => &self.entity,
            File::Zones => &self.zones,
        }
    }

    /// All three, keyed by file name.
    pub open spec fn together(self) -> JsonView {
        document::object_of(
            seq![
                ("unit"@, self.of(File::Unit)),
                ("entity"@, self.of(File::Entity)),
                ("zones"@, self.of(File::Zones)),
            ],
        )
    }

    /// All three, keyed by file name.
    pub fn all(&self) -> (r: Json)
        ensures
            r@ == self.together(),
    {
        let fields = vec![
            field("unit", self.unit.copy()),
            field("entity", self.entity.copy()),
            field("zones", self.zones.copy()),
        ];
        assert(text::views(fields@) =~= seq![
            ("unit"@, self.of(File::Unit)),
            ("entity"@, self.of(File::Entity)),
            ("zones"@, self.of(File::Zones)),
        ]);
        Json::object(fields)
    }
}

/// The texts among the first `n` values.
pub open spec fn texts_in(v: Seq<JsonView>, n: nat) -> Seq<Seq<char>> {
    text::each(
        n,
        |i: int|
            match v[i] {
                JsonView::Str(s) => seq![s],
                _ => Seq::empty(),
            },
    )
}

fn texts(v: &Vec<Json>) -> (r: Vec<String>)
    ensures
        text::views(r@) == texts_in(text::views(v@), v@.len()),
{
    let mut out: Vec<String> = Vec::new();
    for i in 0..v.len()
        invariant
            text::views(out@) == texts_in(text::views(v@), i as nat),
    {
        assert(text::views(v@)[i as int] == v@[i as int]@);
        if let Some(s) = v[i].as_str() {
            out.push(s.to_owned());
        }
    }
    out
}

/// The texts of a member that is an array.
pub open spec fn text_list(node: JsonView, name: Seq<char>) -> Option<Seq<Seq<char>>> {
    match document::member(node, name) {
        Some(JsonView::Array(v)) => Some(texts_in(v, v.len())),
        _ => None,
    }
}

fn get_texts(node: &Json, name: &str) -> (r: Option<Vec<String>>)
    ensures
        match r {
            Some(v) => text_list(node@, name@) == Some(text::views(v@)),
            None => text_list(node@, name@) is None,
        },
{
    match node.get(name) {
        Some(v) => match v.as_array() {
            Some(items) => Some(texts(items)),
            None => None,
        },
        None => None,
    }
}

/// A value of an enum with its description.
#[derive(Debug, PartialEq, Eq)]
pub struct Choice {
    pub value: String,
    pub description: Option<String>,
}

pub struct ChoiceView {
    pub value: Seq<char>,
    pub description: Option<Seq<char>>,
}

impl View for Choice {
    type V = ChoiceView;

    open spec fn view(&self) -> ChoiceView {
        ChoiceView { value: self.value@, description: text::opt_text(self.description) }
    }
}

/// Values without descriptions.
pub open spec fn plain_choices(values: Seq<Seq<char>>) -> Seq<ChoiceView> {
    Seq::new(values.len(), |i: int| ChoiceView { value: values[i], description: None })
}

/// The description of a node on one line.
pub open spec fn one_line(node: JsonView) -> Option<Seq<char>> {
    match document::text_member(node, "description"@) {
        Some(d) => Some(scan::replaced(d, '\n', " "@)),
        None => None,
    }
}

/// The values of one variant of an enum: a described one, or several
/// undocumented ones.
pub open spec fn variant_choices(v: JsonView) -> Option<Seq<ChoiceView>> {
    match document::text_member(v, "const"@) {
        Some(value) => Some(seq![ChoiceView { value, description: one_line(v) }]),
        None => match text_list(v, "enum"@) {
            Some(values) => Some(plain_choices(values)),
            None => None,
        },
    }
}

/// The values of the first `n` variants, where every one has some.
pub open spec fn variants_choices(v: Seq<JsonView>, n: nat) -> Option<Seq<ChoiceView>>
    decreases n,
{
    if n == 0 {
        Some(Seq::empty())
    } else {
        match (variants_choices(v, (n - 1) as nat), variant_choices(v[n - 1])) {
            (Some(rest), Some(last)) => Some(rest + last),
            _ => None,
        }
    }
}

/// For an enum schema: its values with per-variant descriptions.
pub open spec fn choices_of(node: JsonView) -> Option<Seq<ChoiceView>> {
    match text_list(node, "enum"@) {
        Some(values) => Some(plain_choices(values)),
        None => match document::member(node, "oneOf"@) {
            Some(JsonView::Array(v)) => variants_choices(v, v.len()),
            _ => None,
        },
    }
}

fn push_plain(out: &mut Vec<Choice>, values: Vec<String>)
    ensures
        text::views(final(out)@) == text::views(old(out)@) + plain_choices(text::views(values@)),
{
    let ghost start = text::views(out@);
    let ghost want = plain_choices(text::views(values@));
    assert(start + want.take(0) =~= start);
    for i in 0..values.len()
        invariant
            want == plain_choices(text::views(values@)),
            text::views(out@) == start + want.take(i as int),
    {
        assert((start + want.take(i as int)).push(want[i as int]) =~= start + want.take(i + 1));
        out.push(Choice { value: values[i].clone(), description: None });
    }
    assert(want.take(want.len() as int) =~= want);
}

fn description_line(node: &Json) -> (r: Option<String>)
    ensures
        text::opt_text(r) == one_line(node@),
{
    match node.get_str("description") {
        Some(d) => Some(scan::replace(d, '\n', " ")),
        None => None,
    }
}

proof fn lemma_no_choices(v: Seq<JsonView>, i: nat, n: nat)
    requires
        i < n,
        variant_choices(v[i as int]) is None,
    ensures
        variants_choices(v, n) is None,
    decreases n,
{
    if i < n - 1 {
        lemma_no_choices(v, i, (n - 1) as nat);
    }
}

/// For an enum schema: its values with per-variant descriptions.
pub fn enum_values(node: &Json) -> (r: Option<Vec<Choice>>)
    ensures
        match r {
            Some(v) => choices_of(node@) == Some(text::views(v@)),
            None => choices_of(node@) is None,
        },
{
    let mut out: Vec<Choice> = Vec::new();
    if let Some(values) = get_texts(node, "enum") {
        push_plain(&mut out, values);
        assert(text::views(out@) =~= choices_of(node@)->Some_0);
        return Some(out);
    }
    let variants = match node.get("oneOf") {
        Some(v) => match v.as_array() {
            Some(items) => items,
            None => return None,
        },
        None => return None,
    };
    let ghost all = text::views(variants@);
    for i in 0..variants.len()
        invariant
            all == text::views(variants@),
            choices_of(node@) == variants_choices(all, all.len()),
            variants_choices(all, i as nat) == Some(text::views(out@)),
    {
        let v = &variants[i];
        assert(all[i as int] == v@);
        if let Some(value) = v.get_str("const") {
            let description = description_line(v);
            out.push(Choice { value: value.to_owned(), description });
            assert(text::views(out@) =~= variants_choices(all, (i + 1) as nat)->Some_0);
        } else if let Some(values) = get_texts(v, "enum") {
            push_plain(&mut out, values);
        } else {
            proof {
                lemma_no_choices(all, i as nat, all.len());
            }
            return None;
        }
    }
    Some(out)
}

/// The values that are not the null type.
pub open spec fn not_null(v: Seq<JsonView>, n: nat) -> Seq<JsonView> {
    text::each(
        n,
        |i: int|
            text::only_if(
                document::member(v[i], "type"@) != Some(JsonView::Str("null"@)),
                v[i],
            ),
    )
}

/// The type named by a schema's `type`.
pub open spec fn base_type(spec: JsonView) -> Seq<char> {
    match document::member(spec, "type"@) {
        Some(JsonView::Str(t)) => t,
        Some(JsonView::Array(ts)) => first_not_null(texts_in(ts, ts.len()), 0),
        _ => "any"@,
    }
}

/// The first word from `from` on that is not `null`.
pub open spec fn first_not_null(words: Seq<Seq<char>>, from: int) -> Seq<char>
    decreases words.len() - from,
{
    if from < 0 || from >= words.len() {
        "any"@
    } else if words[from] != "null"@ {
        words[from]
    } else {
        first_not_null(words, from + 1)
    }
}

/// The definition that a reference names.
pub open spec fn reference_name(r: Seq<char>) -> Seq<char> {
    text::split_at_each(r, '/').last()
}

/// The single alternative besides null, where there is just one.
pub open spec fn only_alternative(spec: JsonView) -> Option<JsonView> {
    match document::member(spec, "anyOf"@) {
        Some(JsonView::Array(v)) => {
            let inner = not_null(v, v.len());
            if inner.len() == 1 {
                Some(inner[0])
            } else {
                None
            }
        },
        _ => None,
    }
}

/// Each word in backquotes.
pub open spec fn backquoted(v: Seq<Seq<char>>) -> Seq<Seq<char>> {
    Seq::new(v.len(), |i: int| "`"@ + v[i] + "`"@)
}

/// A readable type for one field schema, and the definitions it refers to.
pub struct TypeView {
    pub text: Seq<char>,
    pub refs: Seq<Seq<char>>,
}

proof fn lemma_entry_smaller(m: Seq<(Seq<char>, JsonView)>, name: Seq<char>) -> (i: int)
    requires
        document::entry(m, name) is Some,
    ensures
        0 <= i < m.len(),
        document::entry(m, name) == Some(m[i].1),
    decreases m.len(),
{
    if m[0].0 == name {
        0
    } else {
        let i = lemma_entry_smaller(m.drop_first(), name);
        assert(m.drop_first()[i] == m[i + 1]);
        i + 1
    }
}

/// A member is smaller than its object.
pub proof fn lemma_member_smaller(v: JsonView, name: Seq<char>)
    requires
        document::member(v, name) is Some,
    ensures
        decreases_to!(v => document::member(v, name)->Some_0),
{
    let m = v->Object_0;
    let i = lemma_entry_smaller(m, name);
    assert(decreases_to!(v => v->Object_0));
    assert(decreases_to!(v->Object_0 => v->Object_0[i]));
    assert(decreases_to!(v->Object_0[i] => v->Object_0[i].1));
}

/// An alternative is smaller than the schema that lists it.
pub proof fn lemma_alternative_smaller(v: JsonView)
    requires
        only_alternative(v) is Some,
    ensures
        decreases_to!(v => only_alternative(v)->Some_0),
{
    let any = document::member(v, "anyOf"@)->Some_0;
    lemma_member_smaller(v, "anyOf"@);
    let items = any->Array_0;
    let f = |i: int|
        text::only_if(
            document::member(items[i], "type"@) != Some(JsonView::Str("null"@)),
            items[i],
        );
    let i = text::lemma_in_each(items.len(), f, 0);
    assert(f(i).contains(only_alternative(v)->Some_0));
    assert(items[i] == only_alternative(v)->Some_0);
    assert(decreases_to!(any => any->Array_0));
    assert(decreases_to!(any->Array_0 => any->Array_0[i]));
}

/// A readable type for one field schema, plus the definitions it refers to.
pub open spec fn type_of(spec: JsonView) -> TypeView
    decreases spec,
{
    proof {
        if only_alternative(spec) is Some {
            lemma_alternative_smaller(spec);
        }
        if document::member(spec, "items"@) is Some {
            lemma_member_smaller(spec, "items"@);
        }
        if document::member(spec, "additionalProperties"@) is Some {
            lemma_member_smaller(spec, "additionalProperties"@);
        }
    }
    match document::text_member(spec, "$ref"@) {
        Some(r) => TypeView {
            text: "["@ + reference_name(r) + "](#"@ + scan::lowercase_text(reference_name(r))
                + ")"@,
            refs: seq![reference_name(r)],
        },
        None => match only_alternative(spec) {
            Some(inner) => type_of(inner),
            None => match text_list(spec, "enum"@) {
                Some(values) => TypeView {
                    text: text::joined(backquoted(values), " \\| "@),
                    refs: Seq::empty(),
                },
                None => if base_type(spec) == "array"@ {
                    match document::member(spec, "items"@) {
                        Some(items) => TypeView {
                            text: "list of "@ + type_of(items).text,
                            refs: type_of(items).refs,
                        },
                        None => TypeView { text: "list of "@ + "any"@, refs: Seq::empty() },
                    }
                } else if base_type(spec) == "object"@ {
                    match document::member(spec, "additionalProperties"@) {
                        Some(values) => if values is Object {
                            TypeView {
                                text: "table of name → "@ + type_of(values).text,
                                refs: type_of(values).refs,
                            }
                        } else {
                            TypeView { text: "table"@, refs: Seq::empty() }
                        },
                        None => TypeView { text: "table"@, refs: Seq::empty() },
                    }
                } else {
                    TypeView { text: base_type(spec), refs: Seq::empty() }
                },
            },
        },
    }
}

fn is_null_type(spec: &Json) -> (r: bool)
    ensures
        r == (document::member(spec@, "type"@) == Some(JsonView::Str("null"@))),
{
    match spec.get_str("type") {
        Some(t) => str_eq(t, "null"),
        None => false,
    }
}

fn alternative(spec: &Json) -> (r: Option<&Json>)
    ensures
        match r {
            Some(inner) => only_alternative(spec@) == Some(inner@),
            None => only_alternative(spec@) is None,
        },
{
    let items = match spec.get("anyOf") {
        Some(v) => match v.as_array() {
            Some(items) => items,
            None => return None,
        },
        None => return None,
    };
    let ghost all = text::views(items@);
    let mut found: Vec<&Json> = Vec::new();
    for i in 0..items.len()
        invariant
            all == text::views(items@),
            not_null(all, i as nat).len() == found@.len(),
            forall|k: int|
                0 <= k < found@.len() ==> (#[trigger] found@[k])@ == not_null(all, i as nat)[k],
    {
        assert(all[i as int] == items@[i as int]@);
        if !is_null_type(&items[i]) {
            found.push(&items[i]);
        }
    }
    if found.len() == 1 {
        Some(found[0])
    } else {
        None
    }
}

fn type_word(spec: &Json) -> (r: String)
    ensures
        r@ == base_type(spec@),
{
    match spec.get("type") {
        Some(t) => {
            if let Some(word) = t.as_str() {
                return word.to_owned();
            }
            if let Some(items) = t.as_array() {
                let words = texts(items);
                let ghost want = text::views(words@);
                let mut i: usize = 0;
                while i < words.len()
                    invariant
                        want == text::views(words@),
                        base_type(spec@) == first_not_null(want, 0),
                        i <= words@.len(),
                        first_not_null(want, 0) == first_not_null(want, i as int),
                    decreases words@.len() - i,
                {
                    assert(want[i as int] == words@[i as int]@);
                    if !str_eq(words[i].as_str(), "null") {
                        return words[i].clone();
                    }
                    i = i + 1;
                }
            }
            "any".to_owned()
        },
        None => "any".to_owned(),
    }
}

fn backquote(values: &Vec<String>) -> (r: Vec<String>)
    ensures
        text::views(r@) == backquoted(text::views(values@)),
{
    let mut out: Vec<String> = Vec::new();
    for i in 0..values.len()
        invariant
            out@.len() == i,
            forall|k: int| 0 <= k < i ==> (#[trigger] out@[k])@ == "`"@ + values@[k]@ + "`"@,
    {
        out.push(cat3("`", values[i].as_str(), "`"));
    }
    assert(text::views(out@) =~= backquoted(text::views(values@)));
    out
}

/// A readable type for one field schema, plus the definitions it refers to.
pub fn type_label(spec: &Json) -> (r: (String, Vec<String>))
    ensures
        r.0@ == type_of(spec@).text,
        text::views(r.1@) == type_of(spec@).refs,
    decreases spec@,
{
    if let Some(r) = spec.get_str("$ref") {
        let pieces = text::split(r, '/');
        let name = pieces[pieces.len() - 1].clone();
        assert(text::views(pieces@).last() == name@);
        let shown = cat5("[", name.as_str(), "](#", scan::lowercase(name.as_str()).as_str(), ")");
        let refs = vec![name];
        assert(text::views(refs@) =~= type_of(spec@).refs);
        return (shown, refs);
    }
    if let Some(inner) = alternative(spec) {
        proof {
            lemma_alternative_smaller(spec@);
        }
        return type_label(inner);
    }
    if let Some(values) = get_texts(spec, "enum") {
        return (text::join(&backquote(&values), " \\| "), Vec::new());
    }
    let word = type_word(spec);
    if str_eq(word.as_str(), "array") {
        match spec.get("items") {
            Some(items) => {
                proof {
                    lemma_member_smaller(spec@, "items"@);
                }
                let (inner, refs) = type_label(items);
                (cat2("list of ", inner.as_str()), refs)
            },
            None => (cat2("list of ", "any"), Vec::new()),
        }
    } else if str_eq(word.as_str(), "object") {
        match spec.get("additionalProperties") {
            Some(values) => if values.as_object().is_some() {
                proof {
                    lemma_member_smaller(spec@, "additionalProperties"@);
                }
                let (inner, refs) = type_label(values);
                (cat2("table of name → ", inner.as_str()), refs)
            } else {
                ("table".to_owned(), Vec::new())
            },
            None => ("table".to_owned(), Vec::new()),
        }
    } else {
        (word, Vec::new())
    }
}

/// The definitions of a schema.
pub open spec fn definitions(schema: JsonView) -> Seq<(Seq<char>, JsonView)> {
    match document::member(schema, "$defs"@) {
        Some(JsonView::Object(m)) => m,
        _ => Seq::empty(),
    }
}

/// The properties of a node, where it has any.
pub open spec fn properties(node: JsonView) -> Option<Seq<(Seq<char>, JsonView)>> {
    match document::member(node, "properties"@) {
        Some(JsonView::Object(m)) => Some(m),
        _ => None,
    }
}

/// The names that a node requires.
pub open spec fn required(node: JsonView) -> Seq<Seq<char>> {
    match text_list(node, "required"@) {
        Some(v) => v,
        None => Seq::empty(),
    }
}

/// A description as a table cell holds it.
pub open spec fn cell(spec: JsonView) -> Seq<char> {
    match document::text_member(spec, "description"@) {
        Some(d) => scan::replaced(scan::replaced(d, '\n', " "@), '|', "\\|"@),
        None => ""@,
    }
}

/// The table row of a field.
pub open spec fn field_row(name: Seq<char>, spec: JsonView, needed: Seq<Seq<char>>) -> Seq<char> {
    let req = if needed.contains(name) {
        "yes"@
    } else {
        "no"@
    };
    "| `"@ + name + "` | "@ + type_of(spec).text + " | "@ + req + " | "@ + cell(spec) + " |\n"@
}

/// The rows of the first `n` fields.
pub open spec fn field_rows(props: Seq<(Seq<char>, JsonView)>, needed: Seq<Seq<char>>, n: nat) -> Seq<
    char,
> {
    text::each(n, |i: int| field_row(props[i].0, props[i].1, needed))
}

/// The definitions that the first `n` fields refer to.
pub open spec fn field_refs(props: Seq<(Seq<char>, JsonView)>, n: nat) -> Seq<Seq<char>> {
    text::each(n, |i: int| type_of(props[i].1).refs)
}

/// The list item of an enum's value.
pub open spec fn choice_line(c: ChoiceView) -> Seq<char> {
    match c.description {
        Some(d) => "- `"@ + c.value + "` — "@ + d + "\n"@,
        None => "- `"@ + c.value + "`\n"@,
    }
}

pub open spec fn choice_lines(v: Seq<ChoiceView>, n: nat) -> Seq<char> {
    text::each(n, |i: int| choice_line(v[i]))
}

/// The head of a section: its name and its description.
pub open spec fn section_head(name: Seq<char>, node: JsonView) -> Seq<char> {
    let title = if name.len() > 0 {
        "### "@ + name + "\n\n"@
    } else {
        Seq::empty()
    };
    match document::text_member(node, "description"@) {
        Some(d) => title + (d + "\n\n"@),
        None => title,
    }
}

/// The section of a node: its values if it is an enum, its fields otherwise.
pub open spec fn section(name: Seq<char>, node: JsonView) -> Seq<char> {
    section_head(name, node) + match choices_of(node) {
        Some(values) => choice_lines(values, values.len()) + "\n"@,
        None => match properties(node) {
            Some(props) => "| Field | Type | Required | Description |\n|---|---|---|---|\n"@
                + field_rows(props, required(node), props.len()) + "\n"@,
            None => Seq::empty(),
        },
    }
}

/// The definitions that a node's fields refer to, in order.
pub open spec fn node_refs(node: JsonView) -> Seq<Seq<char>> {
    match (choices_of(node), properties(node)) {
        (None, Some(props)) => field_refs(props, props.len()),
        _ => Seq::empty(),
    }
}

/// The references seen once the first `n` of `refs` are noted.
pub open spec fn seen_after(seen: Seq<Seq<char>>, refs: Seq<Seq<char>>, n: nat) -> Seq<Seq<char>>
    decreases n,
{
    if n == 0 {
        seen
    } else {
        let rest = seen_after(seen, refs, (n - 1) as nat);
        if rest.contains(refs[n - 1]) {
            rest
        } else {
            rest.push(refs[n - 1])
        }
    }
}

/// The definitions that wait once the first `n` of `refs` are noted: each
/// one that is referred to for the first time.
pub open spec fn queue_after(
    defs: Seq<(Seq<char>, JsonView)>,
    queue: Seq<(Seq<char>, JsonView)>,
    seen: Seq<Seq<char>>,
    refs: Seq<Seq<char>>,
    n: nat,
) -> Seq<(Seq<char>, JsonView)>
    decreases n,
{
    if n == 0 {
        queue
    } else {
        let m = (n - 1) as nat;
        let rest = queue_after(defs, queue, seen, refs, m);
        match document::entry(defs, refs[n - 1]) {
            Some(def) => if seen_after(seen, refs, m).contains(refs[n - 1]) {
                rest
            } else {
                rest.push((refs[n - 1], def))
            },
            None => rest,
        }
    }
}

/// How many of the definitions have not been referred to.
pub open spec fn unseen(defs: Seq<(Seq<char>, JsonView)>, seen: Seq<Seq<char>>) -> nat
    decreases defs.len(),
{
    if defs.len() == 0 {
        0
    } else {
        unseen(defs.drop_last(), seen) + if seen.contains(defs.last().0) {
            0nat
        } else {
            1
        }
    }
}

proof fn lemma_unseen_push(defs: Seq<(Seq<char>, JsonView)>, seen: Seq<Seq<char>>, r: Seq<char>)
    ensures
        unseen(defs, seen.push(r)) <= unseen(defs, seen),
        !seen.contains(r) && (exists|i: int| 0 <= i < defs.len() && (#[trigger] defs[i]).0 == r)
            ==> unseen(defs, seen.push(r)) < unseen(defs, seen),
    decreases defs.len(),
{
    if defs.len() > 0 {
        let d = defs.drop_last();
        lemma_unseen_push(d, seen, r);
        let name = defs.last().0;
        assert(seen.push(r)[seen.len() as int] == r);
        if seen.contains(name) {
            let k = seen.index_of(name);
            assert(seen.push(r)[k] == name);
        }
        if exists|i: int| 0 <= i < defs.len() && (#[trigger] defs[i]).0 == r {
            let i = choose|i: int| 0 <= i < defs.len() && (#[trigger] defs[i]).0 == r;
            if i < d.len() {
                assert(d[i].0 == r);
            }
        }
    }
}

/// Each new entry of the queue takes a definition out of the unseen ones.
pub proof fn lemma_queue_grows_by_unseen(
    defs: Seq<(Seq<char>, JsonView)>,
    queue: Seq<(Seq<char>, JsonView)>,
    seen: Seq<Seq<char>>,
    refs: Seq<Seq<char>>,
    n: nat,
)
    ensures
        queue_after(defs, queue, seen, refs, n).len() + unseen(defs, seen_after(seen, refs, n))
            <= queue.len() + unseen(defs, seen),
    decreases n,
{
    if n > 0 {
        let m = (n - 1) as nat;
        lemma_queue_grows_by_unseen(defs, queue, seen, refs, m);
        let r = refs[n - 1];
        lemma_unseen_push(defs, seen_after(seen, refs, m), r);
        if document::entry(defs, r) is Some {
            let i = lemma_entry_at(defs, r);
            assert(defs[i].0 == r);
        }
    }
}

proof fn lemma_entry_at(m: Seq<(Seq<char>, JsonView)>, name: Seq<char>) -> (i: int)
    requires
        document::entry(m, name) is Some,
    ensures
        0 <= i < m.len(),
        m[i].0 == name,
    decreases m.len(),
{
    if m[0].0 == name {
        0
    } else {
        let i = lemma_entry_at(m.drop_first(), name);
        assert(m.drop_first()[i] == m[i + 1]);
        i + 1
    }
}

/// The sections of the nodes that wait and of every definition they lead to,
/// in the order of first reference.
pub open spec fn sections(
    defs: Seq<(Seq<char>, JsonView)>,
    queue: Seq<(Seq<char>, JsonView)>,
    seen: Seq<Seq<char>>,
) -> Seq<char>
    decreases queue.len() + unseen(defs, seen),
{
    if queue.len() == 0 {
        Seq::empty()
    } else {
        let (name, node) = queue[0];
        let refs = node_refs(node);
        proof {
            lemma_queue_grows_by_unseen(defs, queue.drop_first(), seen, refs, refs.len());
        }
        section(name, node) + sections(
            defs,
            queue_after(defs, queue.drop_first(), seen, refs, refs.len()),
            seen_after(seen, refs, refs.len()),
        )
    }
}

/// The rendering of one file's schema: the root first, then every definition
/// in order of first reference — the order a reader meets them in a file.
pub open spec fn file_text(schema: JsonView) -> Seq<char> {
    sections(definitions(schema), seq![(Seq::empty(), schema)], Seq::empty())
}

/// A node that waits, by its name.
pub struct Waiting<'a> {
    pub name: String,
    pub node: &'a Json,
}

impl<'a> View for Waiting<'a> {
    type V = (Seq<char>, JsonView);

    open spec fn view(&self) -> (Seq<char>, JsonView) {
        (self.name@, self.node@)
    }
}

fn cell_text(spec: &Json) -> (r: String)
    ensures
        r@ == cell(spec@),
{
    match spec.get_str("description") {
        Some(d) => {
            let flat = scan::replace(d, '\n', " ");
            scan::replace(flat.as_str(), '|', "\\|")
        },
        None => "".to_owned(),
    }
}

fn row_text(name: &str, spec: &Json, needed: &Vec<String>) -> (r: String)
    ensures
        r@ == field_row(name@, spec@, text::views(needed@)),
{
    let (label, _) = type_label(spec);
    let req = if text::has(needed, name) {
        "yes"
    } else {
        "no"
    };
    text::cat9(
        "| `",
        name,
        "` | ",
        label.as_str(),
        " | ",
        req,
        " | ",
        cell_text(spec).as_str(),
        " |\n",
    )
}

fn needed_of(node: &Json) -> (r: Vec<String>)
    ensures
        text::views(r@) == required(node@),
{
    match get_texts(node, "required") {
        Some(v) => v,
        None => Vec::new(),
    }
}

fn head_text(name: &str, node: &Json) -> (r: String)
    ensures
        r@ == section_head(name@, node@),
{
    let mut out = String::new();
    if name.unicode_len() > 0 {
        out = cat3("### ", name, "\n\n");
    }
    if let Some(d) = node.get_str("description") {
        let text = cat2(d, "\n\n");
        out.append(text.as_str());
    }
    assert(out@ =~= section_head(name@, node@));
    out
}

fn choices_text(values: &Vec<Choice>) -> (r: String)
    ensures
        r@ == choice_lines(text::views(values@), values@.len()),
{
    let mut out = String::new();
    for i in 0..values.len()
        invariant
            out@ == choice_lines(text::views(values@), i as nat),
    {
        assert(text::views(values@)[i as int] == values@[i as int]@);
        let c = &values[i];
        let line = match &c.description {
            Some(d) => cat5("- `", c.value.as_str(), "` — ", d.as_str(), "\n"),
            None => cat3("- `", c.value.as_str(), "`\n"),
        };
        out.append(line.as_str());
    }
    out
}

/// The section of a node, and the definitions its fields refer to.
fn section_text(name: &str, node: &Json) -> (r: (String, Vec<String>))
    ensures
        r.0@ == section(name@, node@),
        text::views(r.1@) == node_refs(node@),
{
    let mut out = head_text(name, node);
    let mut refs: Vec<String> = Vec::new();
    let ghost head = out@;
    if let Some(values) = enum_values(node) {
        out.append(choices_text(&values).as_str());
        out.append("\n");
        assert(out@ =~= section(name@, node@));
        return (out, refs);
    }
    let props = match node.get("properties") {
        Some(p) => match p.as_object() {
            Some(m) => m,
            None => {
                assert(out@ =~= section(name@, node@));
                return (out, refs);
            },
        },
        None => {
            assert(out@ =~= section(name@, node@));
            return (out, refs);
        },
    };
    let needed = needed_of(node);
    let ghost all = document::entries_view(props@);
    let mut rows = "| Field | Type | Required | Description |\n|---|---|---|---|\n".to_owned();
    let ghost top = rows@;
    let n = props.len();
    assert(rows@ =~= top + field_rows(all, text::views(needed@), 0));
    for i in 0..n
        invariant
            n == props@.len(),
            all == document::entries_view(props@),
            rows@ == top + field_rows(all, text::views(needed@), i as nat),
            text::views(refs@) == field_refs(all, i as nat),
    {
        let spec = props.value(i);
        let field_name = props.name(i).as_str();
        assert(all[i as int] == (field_name@, spec@));
        let row = row_text(field_name, spec, &needed);
        rows.append(row.as_str());
        assert(rows@ =~= top + field_rows(all, text::views(needed@), (i + 1) as nat));
        let (_, more) = type_label(spec);
        let mut more = more;
        refs.append(&mut more);
    }
    rows.append("\n");
    out.append(rows.as_str());
    assert(out@ =~= section(name@, node@));
    (out, refs)
}

/// The entries that an optional object has.
pub open spec fn entries_in(defs: Option<&Json>) -> Seq<(Seq<char>, JsonView)> {
    match defs {
        Some(j) => match j@ {
            JsonView::Object(m) => m,
            _ => Seq::empty(),
        },
        None => Seq::empty(),
    }
}

/// Notes references: each definition that is referred to for the first time
/// waits at the end of the queue.
fn note<'a>(
    defs: Option<&'a Json>,
    queue: &mut Vec<Waiting<'a>>,
    seen: &mut Vec<String>,
    refs: &Vec<String>,
)
    ensures
        text::views(final(seen)@) == seen_after(
            text::views(old(seen)@),
            text::views(refs@),
            refs@.len(),
        ),
        text::views(final(queue)@) == queue_after(
            entries_in(defs),
            text::views(old(queue)@),
            text::views(old(seen)@),
            text::views(refs@),
            refs@.len(),
        ),
{
    let ghost seen0 = text::views(seen@);
    let ghost queue0 = text::views(queue@);
    let ghost all = text::views(refs@);
    for i in 0..refs.len()
        invariant
            all == text::views(refs@),
            text::views(seen@) == seen_after(seen0, all, i as nat),
            text::views(queue@) == queue_after(entries_in(defs), queue0, seen0, all, i as nat),
    {
        let r = refs[i].as_str();
        assert(all[i as int] == r@);
        if !text::has(seen, r) {
            seen.push(r.to_owned());
            if let Some(known) = defs {
                if let Some(node) = known.get(r) {
                    queue.push(Waiting { name: r.to_owned(), node });
                }
            }
        }
    }
}

/// The rendering of one file's schema.
pub fn render_file(schema: &Json) -> (r: String)
    ensures
        r@ == file_text(schema@),
{
    let defs = schema.get("$defs");
    let mut queue: Vec<Waiting> = Vec::new();
    let mut seen: Vec<String> = Vec::new();
    let mut out = String::new();
    queue.push(Waiting { name: String::new(), node: schema });
    let ghost known = entries_in(defs);
    proof {
        assert(text::views(queue@) =~= seq![(Seq::<char>::empty(), schema@)]);
        assert(known == definitions(schema@));
        assert(out@ + sections(known, text::views(queue@), text::views(seen@)) =~= file_text(
            schema@,
        ));
    }
    while queue.len() > 0
        invariant
            known == entries_in(defs),
            out@ + sections(known, text::views(queue@), text::views(seen@)) == file_text(schema@),
        decreases queue@.len() + unseen(known, text::views(seen@)),
    {
        let ghost waiting = text::views(queue@);
        let ghost before = text::views(seen@);
        let next = queue.remove(0);
        assert(text::views(queue@) =~= waiting.drop_first());
        assert(waiting[0] == (next.name@, next.node@));
        let (text, refs) = section_text(next.name.as_str(), next.node);
        proof {
            lemma_queue_grows_by_unseen(
                known,
                waiting.drop_first(),
                before,
                text::views(refs@),
                refs@.len(),
            );
        }
        note(defs, &mut queue, &mut seen, &refs);
        let ghost done = out@;
        out.append(text.as_str());
        assert(out@ + sections(known, text::views(queue@), text::views(seen@)) =~= done + sections(
            known,
            waiting,
            before,
        ));
    }
    assert(out@ + Seq::<char>::empty() =~= out@);
    out
}

/// The introduction of the reference.
pub const INTRODUCTION: &'static str = "# Manifest reference\n\nGenerated from the manifest structs by `homeostat schema --markdown`; do not edit (a test refuses a stale copy). The same schema is served as JSON by `homeostat schema [unit|entity|zones]` and the MCP `schema` tool. Rules the validator enforces beyond the shape are named by their error code; `homeostat explain <code>` (or the MCP `explain` tool) has the paragraph for each. Reasoning lives in docs/design.md.\n\n";

/// The reference's part on one file kind.
pub open spec fn file_part(schemas: Schemas, file: File) -> Seq<char> {
    "## "@ + file.heading() + "\n\n"@ + file_text(schemas.of(file))
}

fn part_text(schemas: &Schemas, file: File) -> (r: String)
    ensures
        r@ == file_part(*schemas, file),
{
    let mut out = cat3("## ", file.title(), "\n\n");
    out.append(render_file(schemas.json(file)).as_str());
    out
}

/// docs/manifest.md: every section and field of every file, with types,
/// whether required, and the description from the struct's doc comment.
pub fn markdown(schemas: &Schemas) -> (r: String)
    ensures
        r@ == INTRODUCTION@ + file_part(*schemas, File::Unit) + file_part(*schemas, File::Entity)
            + file_part(*schemas, File::Zones),
{
    text::cat4(
        INTRODUCTION,
        part_text(schemas, File::Unit).as_str(),
        part_text(schemas, File::Entity).as_str(),
        part_text(schemas, File::Zones).as_str(),
    )
}

/// What the `schema` tool and the `schema` command answer: the manifest
/// contract as JSON Schema, one file kind or all three — what an agent reads
/// before authoring a unit.
pub open spec fn answer_of(file: Option<Seq<char>>, schemas: Schemas) -> Result<
    JsonView,
    Seq<char>,
> {
    match file {
        None => Ok(schemas.together()),
        Some(name) => if name == "unit"@ {
            Ok(schemas.of(File::Unit))
        } else if name == "entity"@ {
            Ok(schemas.of(File::Entity))
        } else if name == "zones"@ {
            Ok(schemas.of(File::Zones))
        } else {
            Err("unknown file kind \""@ + name + "\": expected unit, entity or zones"@)
        },
    }
}

/// The schema of one file kind, or all three where none is named.
pub fn answer(file: Option<&str>, schemas: &Schemas) -> (r: Result<Json, String>)
    ensures
        answer_of(
            match file {
                Some(f) => Some(f@),
                None => None,
            },
            *schemas,
        ) == match r {
            Ok(j) => Ok(j@),
            Err(e) => Err(e@),
        },
{
    match file {
        None => Ok(schemas.all()),
        Some(name) => match File::parse(name) {
            Some(f) => {
                proof {
                    if name@ == "unit"@ {
                        law_file_names_read_back(f, File::Unit);
                    } else if name@ == "entity"@ {
                        law_file_names_read_back(f, File::Entity);
                    } else if name@ == "zones"@ {
                        law_file_names_read_back(f, File::Zones);
                    }
                }
                Ok(schemas.json(f).copy())
            },
            None => {
                assert(File::Unit.word() != name@);
                assert(File::Entity.word() != name@);
                assert(File::Zones.word() != name@);
                Err(cat3("unknown file kind \"", name, "\": expected unit, entity or zones"))
            },
        },
    }
}

} // verus!
