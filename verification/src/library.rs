//! The two lists of messages, each in a file of its own beside the settings.
//!
//! The application only ever creates these files, once, with what ships; it
//! never rewrites what the operator wrote there. Reading a file that is there
//! but unusable falls back to what ships without touching the file.
//!
//! Each file is a TOML document holding one array of tables: `[[macros]]`
//! with a label, a text and whether it sends, or `[[templates]]` with a name
//! and a text.

use vstd::prelude::*;

use toml_edit::{ArrayOfTables, DocumentMut, Item, Table, value};

use crate::macros::{Macro, default_macros, shipped_macros};
use crate::text::same_text;

verus! {

/// The array of tables the buttons are listed under.
pub const MACROS_KEY: &'static str = "macros";

/// The array of tables the set messages are listed under.
pub const TEMPLATES_KEY: &'static str = "templates";

/// What a list file held when it was looked for.
pub enum FileText {
    /// There is no file.
    Missing,
    /// The file is there but could not be read.
    Unreadable,
    /// The file's text.
    Read(String),
}

/// What a TOML document holds under `key`: `None` when the text is not a
/// TOML document, `Some(None)` when there is no array of tables under `key`,
/// and otherwise each table of that array in order, as its entries in order,
/// each entry being its key, its text when it is a string, and its value
/// when it is a boolean.
pub uninterp spec fn list_tables_of(text: Seq<char>, key: Seq<char>) -> Option<
    Option<Seq<Seq<(Seq<char>, Option<Seq<char>>, Option<bool>)>>>,
>;

/// Parses `text` as a TOML document and takes out the array of tables under
/// `key`, each table as its entries.
///
/// Trusted: calls `str::parse` into `toml_edit::DocumentMut`, then
/// `Table::get`, `Item::as_array_of_tables`, `ArrayOfTables::iter`,
/// `Table::iter`, `Item::as_str` and `Item::as_bool`, converting what they
/// give into plain values. What comes back is named, not stated: it is what
/// the TOML grammar makes of `text`, and depends on `text` and `key` alone.
#[verifier::external_body]
fn parse_list(text: &str, key: &str) -> (found: Option<Option<Vec<Vec<(String, Option<String>, Option<bool>)>>>>)
    ensures
        found.deep_view() == list_tables_of(text@, key@),
{
    match text.parse::<DocumentMut>() {
        Ok(document) => Some(document.get(key).and_then(Item::as_array_of_tables).map(|tables| {
            tables.iter().map(|table| {
                table.iter().map(|(name, item)| {
                    (name.to_owned(), item.as_str().map(str::to_owned), item.as_bool())
                }).collect()
            }).collect()
        })),
        Err(_) => None,
    }
}

/// One value to be written into a table.
pub enum Field {
    Text(String),
    Flag(bool),
}

/// A field as it reads back: its text when it is a string, its value when it
/// is a boolean.
pub open spec fn field_view(field: Field) -> (Option<Seq<char>>, Option<bool>) {
    match field {
        Field::Text(text) => (Some(text@), None),
        Field::Flag(flag) => (None, Some(flag)),
    }
}

/// A table to be written, as the entries it will hold.
pub open spec fn entries_view(table: Vec<(String, Field)>) -> Seq<(Seq<char>, Option<Seq<char>>, Option<bool>)> {
    table@.map_values(|entry: (String, Field)| (entry.0@, field_view(entry.1).0, field_view(entry.1).1))
}

/// Tables to be written, as the entries each will hold.
pub open spec fn tables_view(tables: Seq<Vec<(String, Field)>>) -> Seq<
    Seq<(Seq<char>, Option<Seq<char>>, Option<bool>)>,
> {
    tables.map_values(|table: Vec<(String, Field)>| entries_view(table))
}

/// What toml_edit writes for a document holding only `tables`, as an array
/// of tables under `key`.
pub uninterp spec fn list_text_of(
    key: Seq<char>,
    tables: Seq<Seq<(Seq<char>, Option<Seq<char>>, Option<bool>)>>,
) -> Seq<char>;

/// Writes a TOML document holding `tables`, in order, as the array of tables
/// under `key`.
///
/// Trusted: builds a `toml_edit::DocumentMut` from `Table`s collected from
/// the entries (a text as a string value, a flag as a boolean), one
/// `ArrayOfTables` under `key`, and renders it with `to_string`. The text is
/// named, not stated: it depends on `key` and `tables` alone.
#[verifier::external_body]
fn render_list(key: &str, tables: &[Vec<(String, Field)>]) -> (text: String)
    ensures
        text@ == list_text_of(key@, tables_view(tables@)),
{
    let array: ArrayOfTables = tables.iter().map(|table| {
        table.iter().map(|(name, field)| (name.as_str(), match field {
            Field::Text(text) => value(text.as_str()),
            Field::Flag(flag) => value(*flag),
        })).collect::<Table>()
    }).collect();
    let mut document = DocumentMut::new();
    document[key] = Item::ArrayOfTables(array);
    document.to_string()
}

/// The first entry named `name` in a table, by its text and its flag.
pub open spec fn field_of(table: Seq<(Seq<char>, Option<Seq<char>>, Option<bool>)>, name: Seq<char>) -> Option<
    (Option<Seq<char>>, Option<bool>),
>
    decreases table.len(),
{
    if table.len() == 0 {
        None
    } else if table[0].0 == name {
        Some((table[0].1, table[0].2))
    } else {
        field_of(table.drop_first(), name)
    }
}

/// The text of the entry named `name`, if it is there and is a string.
pub open spec fn text_field(table: Seq<(Seq<char>, Option<Seq<char>>, Option<bool>)>, name: Seq<char>) -> Option<Seq<char>> {
    match field_of(table, name) {
        Some(found) => found.0,
        None => None,
    }
}

/// The value of the entry named `name`, if it is there and is a boolean.
pub open spec fn flag_field(table: Seq<(Seq<char>, Option<Seq<char>>, Option<bool>)>, name: Seq<char>) -> Option<bool> {
    match field_of(table, name) {
        Some(found) => found.1,
        None => None,
    }
}

/// Where the first entry named `name` stands in `table`.
fn find_field(table: &[(String, Option<String>, Option<bool>)], name: &str) -> (found: Option<usize>)
    ensures
        match found {
            None => field_of(table.deep_view(), name@) is None,
            Some(k) => k < table@.len() && field_of(table.deep_view(), name@) == Some(
                (table@[k as int].1.deep_view(), table@[k as int].2),
            ),
        },
{
    let ghost all = table.deep_view();
    let mut i: usize = 0;
    proof {
        assert(all.subrange(0, all.len() as int) =~= all);
    }
    while i < table.len()
        invariant
            i <= table@.len(),
            all == table.deep_view(),
            field_of(all, name@) == field_of(all.subrange(i as int, all.len() as int), name@),
        decreases table@.len() - i,
    {
        proof {
            assert(all.subrange(i as int, all.len() as int).drop_first() =~= all.subrange(
                i as int + 1,
                all.len() as int,
            ));
            assert(all.subrange(i as int, all.len() as int)[0] == all[i as int]);
        }
        if same_text(table[i].0.as_str(), name) {
            return Some(i);
        }
        i = i + 1;
    }
    None
}

/// The text of the entry named `name` in a table as read.
pub fn text_of(table: &[(String, Option<String>, Option<bool>)], name: &str) -> (text: Option<String>)
    ensures
        text.deep_view() == text_field(table.deep_view(), name@),
{
    match find_field(table, name) {
        Some(k) => match &table[k].1 {
            Some(text) => Some(text.clone()),
            None => None,
        },
        None => None,
    }
}

/// The value of the entry named `name` in a table as read.
pub fn flag_of(table: &[(String, Option<String>, Option<bool>)], name: &str) -> (flag: Option<bool>)
    ensures
        flag == flag_field(table.deep_view(), name@),
{
    match find_field(table, name) {
        Some(k) => table[k].2,
        None => None,
    }
}

/// One set message, listed beside the buttons.
#[derive(Clone, Debug, PartialEq, Eq)]
pub struct Template {
    pub name: String,
    pub text: String,
}

/// What reading one list's file found.
pub enum ListFile<T> {
    /// There is no file.
    Missing,
    /// The file is there but could not be read or parsed.
    Unreadable,
    /// The file parsed: it holds the list's entries, each `None` where the
    /// entry was half written, or no list at all.
    Read(Option<Vec<Option<T>>>),
}

/// A list as loaded, and the text its file is to be created with when there
/// was none.
pub struct Loaded<T> {
    pub entries: Vec<T>,
    pub create: Option<String>,
}

/// The entries that were read whole, in order.
pub open spec fn whole<T>(entries: Seq<Option<T>>) -> Seq<T>
    decreases entries.len(),
{
    if entries.len() == 0 {
        Seq::empty()
    } else {
        (if entries[0] is Some {
            seq![entries[0]->0]
        } else {
            Seq::empty()
        }) + whole(entries.drop_first())
    }
}

/// The list a file gives, from what reading it found.
///
/// A missing file, or one that could not be read, gives `shipped`. A file
/// with no list in it is an operator who emptied it, and gives the empty list
/// they asked for; otherwise the entries read whole are the list.
pub fn load_list<T>(found: ListFile<T>, shipped: Vec<T>) -> (list: Vec<T>)
    ensures
        (found is Missing || found is Unreadable) ==> list@ == shipped@,
        found matches ListFile::Read(read) ==> list@ == match read {
            None => Seq::empty(),
            Some(entries) => whole(entries@),
        },
{
    match found {
        ListFile::Missing => shipped,
        ListFile::Unreadable => shipped,
        ListFile::Read(None) => Vec::new(),
        ListFile::Read(Some(entries)) => {
            let mut remaining = entries;
            let ghost listed = remaining@;
            let mut kept: Vec<T> = Vec::new();
            proof {
                assert(kept@ + whole(remaining@) =~= whole(listed));
            }
            while remaining.len() > 0
                invariant
                    whole(listed) == kept@ + whole(remaining@),
                decreases remaining@.len(),
            {
                let ghost before = remaining@;
                let entry = remaining.remove(0);
                proof {
                    assert(before.drop_first() =~= remaining@);
                }
                match entry {
                    Some(value) => {
                        let ghost kept_before = kept@;
                        kept.push(value);
                        proof {
                            assert(kept@ + whole(remaining@) =~= kept_before + (seq![value] + whole(
                                remaining@,
                            )));
                        }
                    },
                    None => {
                        proof {
                            assert(Seq::<T>::empty() + whole(remaining@) =~= whole(remaining@));
                        }
                    },
                }
            }
            proof {
                assert(kept@ + whole(remaining@) =~= kept@);
            }
            kept
        },
    }
}

/// Reads one macro from its fields, skipping an entry with nothing to press
/// or nothing to send; a macro that does not say whether it sends does not.
pub fn read_macro(label: Option<String>, text: Option<String>, send: Option<bool>) -> (read:
    Option<Macro>)
    ensures
        read is Some <==> (label is Some && label->0@.len() > 0 && text is Some && text->0@.len() > 0),
        read matches Some(m) ==> m.label@ == label->0@ && m.text@ == text->0@ && m.send == match send {
            Some(flag) => flag,
            None => false,
        },
{
    match (label, text) {
        (Some(label), Some(text)) => {
            if label.as_str().is_empty() || text.as_str().is_empty() {
                return None;
            }
            let send = match send {
                Some(flag) => flag,
                None => false,
            };
            Some(Macro { label, text, send })
        },
        _ => None,
    }
}

/// Reads one set message from its fields, skipping an entry that could not be
/// picked or sent.
pub fn read_template(name: Option<String>, text: Option<String>) -> (read: Option<Template>)
    ensures
        read is Some <==> (name is Some && name->0@.len() > 0 && text is Some && text->0@.len() > 0),
        read matches Some(t) ==> t.name@ == name->0@ && t.text@ == text->0@,
{
    match (name, text) {
        (Some(name), Some(text)) => {
            if name.as_str().is_empty() || text.as_str().is_empty() {
                return None;
            }
            Some(Template { name, text })
        },
        _ => None,
    }
}

/// The entries that were read whole keep their order through a map.
proof fn lemma_whole_map<A, B>(entries: Seq<Option<A>>, mapped: Seq<Option<B>>, f: spec_fn(A) -> B)
    requires
        mapped.len() == entries.len(),
        forall|i: int|
            0 <= i < entries.len() ==> #[trigger] mapped[i] == match entries[i] {
                Some(a) => Some(f(a)),
                None => None,
            },
    ensures
        whole(entries).map_values(f) == whole(mapped),
    decreases entries.len(),
{
    if entries.len() > 0 {
        lemma_whole_map(entries.drop_first(), mapped.drop_first(), f);
        let first: Seq<A> = if entries[0] is Some {
            seq![entries[0]->0]
        } else {
            Seq::empty()
        };
        assert((first + whole(entries.drop_first())).map_values(f) =~= first.map_values(f) + whole(
            entries.drop_first(),
        ).map_values(f));
        if entries[0] is Some {
            assert(first.map_values(f) =~= seq![f(entries[0]->0)]);
        } else {
            assert(first.map_values(f) =~= Seq::<B>::empty());
        }
    } else {
        assert(whole(entries).map_values(f) =~= Seq::<B>::empty());
    }
}

/// A macro by its label, its text and whether it sends.
pub open spec fn macro_view(m: Macro) -> (Seq<char>, Seq<char>, bool) {
    (m.label@, m.text@, m.send)
}

/// The macro a table as read gives, when it has a label and a text to it; a
/// macro that does not say whether it sends does not.
pub open spec fn macro_from(table: Seq<(Seq<char>, Option<Seq<char>>, Option<bool>)>) -> Option<
    (Seq<char>, Seq<char>, bool),
> {
    let label = text_field(table, "label"@);
    let text = text_field(table, "text"@);
    if label is Some && label->0.len() > 0 && text is Some && text->0.len() > 0 {
        Some(
            (
                label->0,
                text->0,
                match flag_field(table, "send"@) {
                    Some(flag) => flag,
                    None => false,
                },
            ),
        )
    } else {
        None
    }
}

/// The entries a macro is written as.
pub open spec fn macro_table(m: Macro) -> Seq<(Seq<char>, Option<Seq<char>>, Option<bool>)> {
    seq![("label"@, Some(m.label@), None), ("text"@, Some(m.text@), None), ("send"@, None, Some(m.send))]
}

/// The macros a list file's text holds, each `None` where its table was half
/// written; unreadable when the text is not a TOML document.
pub fn read_macro_list(text: &str) -> (found: ListFile<Macro>)
    ensures
        macros_read(found, list_tables_of(text@, MACROS_KEY@)),
{
    macros_from_tables(parse_list(text, MACROS_KEY))
}

/// Whether `found` is what `tables`, as a list file's parse gave them, hold:
/// unreadable where the text was no TOML document, no list where there was
/// none, and otherwise each table read, in order.
pub open spec fn macros_read(
    found: ListFile<Macro>,
    tables: Option<Option<Seq<Seq<(Seq<char>, Option<Seq<char>>, Option<bool>)>>>>,
) -> bool {
    match tables {
        None => found is Unreadable,
        Some(None) => found matches ListFile::Read(None),
        Some(Some(tables)) => found matches ListFile::Read(Some(entries)) && entries@.len() == tables.len()
            && forall|i: int|
            0 <= i < tables.len() ==> match entries@[i] {
                Some(m) => Some(macro_view(m)),
                None => None,
            } == macro_from(#[trigger] tables[i]),
    }
}

/// What a list file's parse holds, read as macros.
pub fn macros_from_tables(
    parsed: Option<Option<Vec<Vec<(String, Option<String>, Option<bool>)>>>>,
) -> (found: ListFile<Macro>)
    ensures
        macros_read(found, parsed.deep_view()),
{
    match parsed {
        None => ListFile::Unreadable,
        Some(None) => ListFile::Read(None),
        Some(Some(tables)) => {
            let ghost all = tables.deep_view();
            let mut entries: Vec<Option<Macro>> = Vec::new();
            let mut i: usize = 0;
            while i < tables.len()
                invariant
                    i <= tables@.len(),
                    all == tables.deep_view(),
                    entries@.len() == i,
                    forall|j: int|
                        0 <= j < i ==> match entries@[j] {
                            Some(m) => Some(macro_view(m)),
                            None => None,
                        } == macro_from(#[trigger] all[j]),
                decreases tables@.len() - i,
            {
                let table = tables[i].as_slice();
                proof {
                    assert(table.deep_view() == all[i as int]);
                }
                let entry = read_macro(text_of(table, "label"), text_of(table, "text"), flag_of(table, "send"));
                entries.push(entry);
                i = i + 1;
            }
            ListFile::Read(Some(entries))
        },
    }
}

/// The entries a macro is written as.
fn macro_fields(m: &Macro) -> (fields: Vec<(String, Field)>)
    ensures
        entries_view(fields) == macro_table(*m),
{
    let mut fields: Vec<(String, Field)> = Vec::new();
    fields.push(("label".to_owned(), Field::Text(m.label.clone())));
    fields.push(("text".to_owned(), Field::Text(m.text.clone())));
    fields.push(("send".to_owned(), Field::Flag(m.send)));
    proof {
        assert(entries_view(fields) =~= macro_table(*m));
    }
    fields
}

/// The text of a list file holding `macros`.
pub fn macros_text(macros: &[Macro]) -> (text: String)
    ensures
        text@ == list_text_of(MACROS_KEY@, macros@.map_values(|m: Macro| macro_table(m))),
{
    let mut tables: Vec<Vec<(String, Field)>> = Vec::new();
    let mut i: usize = 0;
    while i < macros.len()
        invariant
            i <= macros@.len(),
            tables_view(tables@) == macros@.take(i as int).map_values(|m: Macro| macro_table(m)),
        decreases macros@.len() - i,
    {
        let fields = macro_fields(&macros[i]);
        let ghost before = tables@;
        tables.push(fields);
        proof {
            assert(tables@ == before.push(fields));
            assert(tables_view(tables@) =~= tables_view(before).push(entries_view(fields)));
            assert(macros@.take(i as int + 1) =~= macros@.take(i as int).push(macros@[i as int]));
            assert(macros@.take(i as int + 1).map_values(|m: Macro| macro_table(m)) =~= macros@.take(
                i as int,
            ).map_values(|m: Macro| macro_table(m)).push(macro_table(macros@[i as int])));
        }
        i = i + 1;
    }
    proof {
        assert(macros@.take(i as int) =~= macros@);
    }
    render_list(MACROS_KEY, tables.as_slice())
}

/// Loads the buttons under the message field from what their file held.
///
/// A missing file is created with the macros that ship, which are also the
/// list; a file that could not be read or parsed gives what ships and is left
/// alone. A file with no list in it gives no macros; otherwise the macros
/// read whole are the list, in order.
pub fn load_macros(file: FileText) -> (loaded: Loaded<Macro>)
    ensures
        file is Missing ==> shipped_macros(loaded.entries@) && (loaded.create matches Some(written)
            && written@ == list_text_of(MACROS_KEY@, loaded.entries@.map_values(|m: Macro| macro_table(m)))),
        file is Unreadable ==> shipped_macros(loaded.entries@) && loaded.create is None,
        file matches FileText::Read(text) ==> loaded.create is None && match list_tables_of(
            text@,
            MACROS_KEY@,
        ) {
            None => shipped_macros(loaded.entries@),
            Some(None) => loaded.entries@.len() == 0,
            Some(Some(tables)) => loaded.entries@.map_values(|m: Macro| macro_view(m)) == whole(
                tables.map_values(|table: Seq<(Seq<char>, Option<Seq<char>>, Option<bool>)>| macro_from(table)),
            ),
        },
{
    match file {
        FileText::Missing => {
            let entries = load_list(ListFile::Missing, default_macros());
            let written = macros_text(entries.as_slice());
            Loaded { entries, create: Some(written) }
        },
        FileText::Unreadable => Loaded { entries: load_list(ListFile::Unreadable, default_macros()), create: None },
        FileText::Read(text) => {
            let found = read_macro_list(text.as_str());
            let ghost read = found;
            let entries = load_list(found, default_macros());
            proof {
                if let ListFile::Read(Some(listed)) = read {
                    let tables = list_tables_of(text@, MACROS_KEY@)->0->0;
                    let mapped = tables.map_values(
                        |table: Seq<(Seq<char>, Option<Seq<char>>, Option<bool>)>| macro_from(table),
                    );
                    assert forall|i: int| 0 <= i < listed@.len() implies #[trigger] mapped[i] == match listed@[i] {
                        Some(a) => Some(macro_view(a)),
                        None => None,
                    } by {
                        assert(mapped[i] == macro_from(tables[i]));
                    }
                    lemma_whole_map(listed@, mapped, |m: Macro| macro_view(m));
                }
            }
            Loaded { entries, create: None }
        },
    }
}

/// A set message by its name and its text.
pub open spec fn template_view(t: Template) -> (Seq<char>, Seq<char>) {
    (t.name@, t.text@)
}

/// The set message a table as read gives, when it has a name and a text to
/// it.
pub open spec fn template_from(table: Seq<(Seq<char>, Option<Seq<char>>, Option<bool>)>) -> Option<
    (Seq<char>, Seq<char>),
> {
    let name = text_field(table, "name"@);
    let text = text_field(table, "text"@);
    if name is Some && name->0.len() > 0 && text is Some && text->0.len() > 0 {
        Some((name->0, text->0))
    } else {
        None
    }
}

/// The entries a set message is written as.
pub open spec fn template_table(t: Template) -> Seq<(Seq<char>, Option<Seq<char>>, Option<bool>)> {
    seq![("name"@, Some(t.name@), None), ("text"@, Some(t.text@), None)]
}

/// The set messages a list file's text holds, each `None` where its table
/// was half written; unreadable when the text is not a TOML document.
pub fn read_template_list(text: &str) -> (found: ListFile<Template>)
    ensures
        templates_read(found, list_tables_of(text@, TEMPLATES_KEY@)),
{
    templates_from_tables(parse_list(text, TEMPLATES_KEY))
}

/// Whether `found` is what `tables`, as a list file's parse gave them, hold:
/// unreadable where the text was no TOML document, no list where there was
/// none, and otherwise each table read, in order.
pub open spec fn templates_read(
    found: ListFile<Template>,
    tables: Option<Option<Seq<Seq<(Seq<char>, Option<Seq<char>>, Option<bool>)>>>>,
) -> bool {
    match tables {
        None => found is Unreadable,
        Some(None) => found matches ListFile::Read(None),
        Some(Some(tables)) => found matches ListFile::Read(Some(entries)) && entries@.len() == tables.len()
            && forall|i: int|
            0 <= i < tables.len() ==> match entries@[i] {
                Some(t) => Some(template_view(t)),
                None => None,
            } == template_from(#[trigger] tables[i]),
    }
}

/// What a list file's parse holds, read as templates.
pub fn templates_from_tables(
    parsed: Option<Option<Vec<Vec<(String, Option<String>, Option<bool>)>>>>,
) -> (found: ListFile<Template>)
    ensures
        templates_read(found, parsed.deep_view()),
{
    match parsed {
        None => ListFile::Unreadable,
        Some(None) => ListFile::Read(None),
        Some(Some(tables)) => {
            let ghost all = tables.deep_view();
            let mut entries: Vec<Option<Template>> = Vec::new();
            let mut i: usize = 0;
            while i < tables.len()
                invariant
                    i <= tables@.len(),
                    all == tables.deep_view(),
                    entries@.len() == i,
                    forall|j: int|
                        0 <= j < i ==> match entries@[j] {
                            Some(t) => Some(template_view(t)),
                            None => None,
                        } == template_from(#[trigger] all[j]),
                decreases tables@.len() - i,
            {
                let table = tables[i].as_slice();
                proof {
                    assert(table.deep_view() == all[i as int]);
                }
                let entry = read_template(text_of(table, "name"), text_of(table, "text"));
                entries.push(entry);
                i = i + 1;
            }
            ListFile::Read(Some(entries))
        },
    }
}

/// The entries a set message is written as.
fn template_fields(t: &Template) -> (fields: Vec<(String, Field)>)
    ensures
        entries_view(fields) == template_table(*t),
{
    let mut fields: Vec<(String, Field)> = Vec::new();
    fields.push(("name".to_owned(), Field::Text(t.name.clone())));
    fields.push(("text".to_owned(), Field::Text(t.text.clone())));
    proof {
        assert(entries_view(fields) =~= template_table(*t));
    }
    fields
}

/// The text of a list file holding `templates`.
pub fn templates_text(templates: &[Template]) -> (text: String)
    ensures
        text@ == list_text_of(TEMPLATES_KEY@, templates@.map_values(|t: Template| template_table(t))),
{
    let mut tables: Vec<Vec<(String, Field)>> = Vec::new();
    let mut i: usize = 0;
    while i < templates.len()
        invariant
            i <= templates@.len(),
            tables_view(tables@) == templates@.take(i as int).map_values(|t: Template| template_table(t)),
        decreases templates@.len() - i,
    {
        let fields = template_fields(&templates[i]);
        let ghost before = tables@;
        tables.push(fields);
        proof {
            assert(tables@ == before.push(fields));
            assert(tables_view(tables@) =~= tables_view(before).push(entries_view(fields)));
            assert(templates@.take(i as int + 1) =~= templates@.take(i as int).push(templates@[i as int]));
            assert(templates@.take(i as int + 1).map_values(|t: Template| template_table(t)) =~= templates@.take(
                i as int,
            ).map_values(|t: Template| template_table(t)).push(template_table(templates@[i as int])));
        }
        i = i + 1;
    }
    proof {
        assert(templates@.take(i as int) =~= templates@);
    }
    render_list(TEMPLATES_KEY, tables.as_slice())
}

/// Loads the set messages listed beside the buttons from what their file
/// held, `shipped` being what a missing or unusable file gives.
///
/// A missing file is created with `shipped`; a file that could not be read
/// or parsed is left alone. A file with no list in it gives no set messages;
/// otherwise the set messages read whole are the list, in order.
pub fn load_templates(file: FileText, shipped: Vec<Template>) -> (loaded: Loaded<Template>)
    ensures
        file is Missing ==> loaded.entries@ == shipped@ && (loaded.create matches Some(written)
            && written@ == list_text_of(TEMPLATES_KEY@, shipped@.map_values(|t: Template| template_table(t)))),
        file is Unreadable ==> loaded.entries@ == shipped@ && loaded.create is None,
        file matches FileText::Read(text) ==> loaded.create is None && match list_tables_of(
            text@,
            TEMPLATES_KEY@,
        ) {
            None => loaded.entries@ == shipped@,
            Some(None) => loaded.entries@.len() == 0,
            Some(Some(tables)) => loaded.entries@.map_values(|t: Template| template_view(t)) == whole(
                tables.map_values(|table: Seq<(Seq<char>, Option<Seq<char>>, Option<bool>)>| template_from(table)),
            ),
        },
{
    match file {
        FileText::Missing => {
            let entries = load_list(ListFile::Missing, shipped);
            let written = templates_text(entries.as_slice());
            Loaded { entries, create: Some(written) }
        },
        FileText::Unreadable => Loaded { entries: load_list(ListFile::Unreadable, shipped), create: None },
        FileText::Read(text) => {
            let found = read_template_list(text.as_str());
            let ghost read = found;
            let entries = load_list(found, shipped);
            proof {
                if let ListFile::Read(Some(listed)) = read {
                    let tables = list_tables_of(text@, TEMPLATES_KEY@)->0->0;
                    let mapped = tables.map_values(
                        |table: Seq<(Seq<char>, Option<Seq<char>>, Option<bool>)>| template_from(table),
                    );
                    assert forall|i: int| 0 <= i < listed@.len() implies #[trigger] mapped[i] == match listed@[i] {
                        Some(a) => Some(template_view(a)),
                        None => None,
                    } by {
                        assert(mapped[i] == template_from(tables[i]));
                    }
                    lemma_whole_map(listed@, mapped, |t: Template| template_view(t));
                }
            }
            Loaded { entries, create: None }
        },
    }
}

/// Entries that were all read whole are the list.
proof fn lemma_whole_of_all<A>(entries: Seq<Option<A>>, values: Seq<A>)
    requires
        entries.len() == values.len(),
        forall|i: int| 0 <= i < entries.len() ==> #[trigger] entries[i] == Some(values[i]),
    ensures
        whole(entries) == values,
    decreases entries.len(),
{
    if entries.len() > 0 {
        assert forall|i: int| 0 <= i < entries.drop_first().len() implies #[trigger] entries.drop_first()[i]
            == Some(values.drop_first()[i]) by {
            assert(entries.drop_first()[i] == entries[i + 1]);
        }
        lemma_whole_of_all(entries.drop_first(), values.drop_first());
        assert(seq![values[0]] + values.drop_first() =~= values);
    } else {
        assert(values =~= Seq::<A>::empty());
    }
}

/// A macro written as a table reads back as itself, when it has a label and
/// a text.
proof fn lemma_macro_table_reads_back(m: Macro)
    requires
        m.label@.len() > 0,
        m.text@.len() > 0,
    ensures
        macro_from(macro_table(m)) == Some(macro_view(m)),
{
    reveal_strlit("label");
    reveal_strlit("text");
    reveal_strlit("send");
    let table = macro_table(m);
    assert("label"@ != "text"@ && "label"@ != "send"@ && "text"@ != "send"@) by {
        assert("label"@[0] != "text"@[0] && "label"@[0] != "send"@[0] && "text"@[0] != "send"@[0]);
    }
    assert(table.drop_first() =~= seq![("text"@, Some(m.text@), None), ("send"@, None, Some(m.send))]);
    assert(table.drop_first().drop_first() =~= seq![("send"@, None, Some(m.send))]);
    assert(field_of(table, "label"@) == Some((Some(m.label@), None::<bool>)));
    assert(field_of(table.drop_first(), "text"@) == Some((Some(m.text@), None::<bool>)));
    assert(field_of(table, "text"@) == field_of(table.drop_first(), "text"@));
    assert(field_of(table.drop_first().drop_first(), "send"@) == Some((None::<Seq<char>>, Some(m.send))));
    assert(field_of(table.drop_first(), "send"@) == field_of(table.drop_first().drop_first(), "send"@));
    assert(field_of(table, "send"@) == field_of(table.drop_first(), "send"@));
}

/// A set message written as a table reads back as itself, when it has a name
/// and a text.
proof fn lemma_template_table_reads_back(t: Template)
    requires
        t.name@.len() > 0,
        t.text@.len() > 0,
    ensures
        template_from(template_table(t)) == Some(template_view(t)),
{
    reveal_strlit("name");
    reveal_strlit("text");
    let table = template_table(t);
    assert("name"@ != "text"@) by {
        assert("name"@[0] != "text"@[0]);
    }
    assert(table.drop_first() =~= seq![("text"@, Some(t.text@), None)]);
    assert(field_of(table, "name"@) == Some((Some(t.name@), None::<bool>)));
    assert(field_of(table.drop_first(), "text"@) == Some((Some(t.text@), None::<bool>)));
    assert(field_of(table, "text"@) == field_of(table.drop_first(), "text"@));
}

/// What a list file is created with reads back as the macros it was written
/// from, wherever the TOML text parses back to the tables it was written
/// from: each written table is read as a whole macro, in order.
pub proof fn lemma_written_macros_read_back(macros: Seq<Macro>)
    requires
        forall|i: int| 0 <= i < macros.len() ==> (#[trigger] macros[i]).label@.len() > 0 && macros[i].text@.len() > 0,
    ensures
        whole(
            macros.map_values(|m: Macro| macro_table(m)).map_values(
                |table: Seq<(Seq<char>, Option<Seq<char>>, Option<bool>)>| macro_from(table),
            ),
        ) == macros.map_values(|m: Macro| macro_view(m)),
{
    let read = macros.map_values(|m: Macro| macro_table(m)).map_values(
        |table: Seq<(Seq<char>, Option<Seq<char>>, Option<bool>)>| macro_from(table),
    );
    let values = macros.map_values(|m: Macro| macro_view(m));
    assert forall|i: int| 0 <= i < read.len() implies #[trigger] read[i] == Some(values[i]) by {
        lemma_macro_table_reads_back(macros[i]);
    }
    lemma_whole_of_all(read, values);
}

/// What a list file is created with reads back as the set messages it was
/// written from, wherever the TOML text parses back to the tables it was
/// written from.
pub proof fn lemma_written_templates_read_back(templates: Seq<Template>)
    requires
        forall|i: int| 0 <= i < templates.len() ==> (#[trigger] templates[i]).name@.len() > 0 && templates[i].text@.len()
            > 0,
    ensures
        whole(
            templates.map_values(|t: Template| template_table(t)).map_values(
                |table: Seq<(Seq<char>, Option<Seq<char>>, Option<bool>)>| template_from(table),
            ),
        ) == templates.map_values(|t: Template| template_view(t)),
{
    let read = templates.map_values(|t: Template| template_table(t)).map_values(
        |table: Seq<(Seq<char>, Option<Seq<char>>, Option<bool>)>| template_from(table),
    );
    let values = templates.map_values(|t: Template| template_view(t));
    assert forall|i: int| 0 <= i < read.len() implies #[trigger] read[i] == Some(values[i]) by {
        lemma_template_table_reads_back(templates[i]);
    }
    lemma_whole_of_all(read, values);
}

/// The macros that ship, once written to a missing file, read back as
/// themselves wherever the TOML text parses back to the tables written.
pub proof fn lemma_shipped_macros_read_back(macros: Seq<Macro>)
    requires
        shipped_macros(macros),
    ensures
        whole(
            macros.map_values(|m: Macro| macro_table(m)).map_values(
                |table: Seq<(Seq<char>, Option<Seq<char>>, Option<bool>)>| macro_from(table),
            ),
        ) == macros.map_values(|m: Macro| macro_view(m)),
{
    reveal_strlit("CQ");
    reveal_strlit("ANS");
    reveal_strlit("RST");
    reveal_strlit("73");
    reveal_strlit("RY");
    reveal_strlit("\nCQ CQ CQ DE ${station.callsign} ${station.callsign} ${station.callsign} PSE K\n");
    reveal_strlit("\n${contact.callsign} DE ${station.callsign} ${station.callsign} K\n");
    reveal_strlit(
        "\n${contact.callsign} DE ${station.callsign} ${greeting} ${contact.name}, UR RST ${contact.rst.sent} ${contact.rst.sent} QTH ${station.qth} BTU ${contact.callsign} DE ${station.callsign} K\n",
    );
    reveal_strlit(
        "\n${contact.callsign} DE ${station.callsign} TNX FER QSO ${contact.name}, 73 ES GL. ${contact.callsign} DE ${station.callsign} SK\n",
    );
    reveal_strlit("\nRYRYRYRYRYRYRYRYRYRYRYRYRYRY DE ${station.callsign}\n");
    lemma_written_macros_read_back(macros);
}

} // verus!
