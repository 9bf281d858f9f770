//! The station's own details, and the messages written from them.
//!
//! A macro names what it needs as `${...}`: the station, the contact, the
//! clock. A name that is not one of these is left exactly as written, so a
//! misspelled one arrives in the field with its braces refused.

use vstd::prelude::*;

use crate::clock::{Clock, date_utc, time_utc, utc_date_text, utc_time_text};
use crate::input::{normalize, normalized};
use crate::text::{chars_of, push_char, same_chars};

verus! {

/// What stands in for a name that was never asked for.
pub const UNKNOWN_NAME: &'static str = "OM";

/// The report a contact starts out being given.
pub const DEFAULT_RST: &'static str = "599";

/// Who this station is, for the macros that say so.
#[derive(Clone, Debug, PartialEq, Eq)]
pub struct Station {
    pub callsign: String,
    pub name: String,
    pub qth: String,
}

impl Default for Station {
    fn default() -> (station: Self)
        ensures
            station.callsign@.len() == 0 && station.name@.len() == 0 && station.qth@.len() == 0,
    {
        Station { callsign: String::new(), name: String::new(), qth: String::new() }
    }
}

/// The station being worked, as entered beside the received text.
#[derive(Clone, Debug, PartialEq, Eq)]
pub struct Contact {
    pub callsign: String,
    pub name: String,
    pub qth: String,
    /// The report being sent to them.
    pub rst_sent: String,
    /// The report they sent.
    pub rst_received: String,
}

/// Whether a contact is the one a new contact starts as.
pub open spec fn fresh_contact(contact: Contact) -> bool {
    &&& contact.callsign@.len() == 0
    &&& contact.name@.len() == 0
    &&& contact.qth@.len() == 0
    &&& contact.rst_sent@ == DEFAULT_RST@
    &&& contact.rst_received@.len() == 0
}

/// Whether nothing the next station would answer differently is filled in.
pub open spec fn contact_empty(contact: Contact) -> bool {
    &&& contact.callsign@.len() == 0
    &&& contact.name@.len() == 0
    &&& contact.qth@.len() == 0
    &&& contact.rst_received@.len() == 0
}

impl Default for Contact {
    fn default() -> (contact: Self)
        ensures
            fresh_contact(contact),
    {
        Contact {
            callsign: String::new(),
            name: String::new(),
            qth: String::new(),
            rst_sent: DEFAULT_RST.to_owned(),
            rst_received: String::new(),
        }
    }
}

impl Contact {
    /// Empties everything the next station would answer differently.
    ///
    /// The report being sent goes back to its default rather than to nothing,
    /// because it is what this station gives out.
    pub fn clear(&mut self)
        ensures
            fresh_contact(*final(self)),
            contact_empty(*final(self)),
    {
        *self = Contact::default();
    }

    pub fn is_empty(&self) -> (empty: bool)
        ensures
            empty == contact_empty(*self),
    {
        self.callsign.as_str().is_empty() && self.name.as_str().is_empty()
            && self.qth.as_str().is_empty() && self.rst_received.as_str().is_empty()
    }
}

/// One button, and the message behind it.
#[derive(Clone, Debug, PartialEq, Eq)]
pub struct Macro {
    /// What the button says.
    pub label: String,
    /// The message, before its names are filled in.
    pub text: String,
    /// Whether pressing it sends rather than writing into the field.
    pub send: bool,
}

/// Whether `shipped` is the set an operator starts with: a call, an answer,
/// a report, a sign-off, and a tuning pattern, with these labels and texts,
/// and the call and the tuning pattern sent as soon as they are pressed.
pub open spec fn shipped_macros(shipped: Seq<Macro>) -> bool {
    &&& shipped.len() == 5
    &&& shipped[0].label@ == "CQ"@ && shipped[0].send
    &&& shipped[0].text@ == "\nCQ CQ CQ DE ${station.callsign} ${station.callsign} ${station.callsign} PSE K\n"@
    &&& shipped[1].label@ == "ANS"@ && !shipped[1].send
    &&& shipped[1].text@ == "\n${contact.callsign} DE ${station.callsign} ${station.callsign} K\n"@
    &&& shipped[2].label@ == "RST"@ && !shipped[2].send
    &&& shipped[2].text@ == "\n${contact.callsign} DE ${station.callsign} ${greeting} ${contact.name}, UR RST ${contact.rst.sent} ${contact.rst.sent} QTH ${station.qth} BTU ${contact.callsign} DE ${station.callsign} K\n"@
    &&& shipped[3].label@ == "73"@ && !shipped[3].send
    &&& shipped[3].text@ == "\n${contact.callsign} DE ${station.callsign} TNX FER QSO ${contact.name}, 73 ES GL. ${contact.callsign} DE ${station.callsign} SK\n"@
    &&& shipped[4].label@ == "RY"@ && shipped[4].send
    &&& shipped[4].text@ == "\nRYRYRYRYRYRYRYRYRYRYRYRYRYRY DE ${station.callsign}\n"@
}

/// The macros an operator starts with.
pub fn default_macros() -> (shipped: Vec<Macro>)
    ensures
        shipped_macros(shipped@),
{
    let mut shipped = Vec::new();
    shipped.push(Macro {
        label: "CQ".to_owned(),
        text: "\nCQ CQ CQ DE ${station.callsign} ${station.callsign} ${station.callsign} PSE K\n".to_owned(),
        send: true,
    });
    shipped.push(Macro {
        label: "ANS".to_owned(),
        text: "\n${contact.callsign} DE ${station.callsign} ${station.callsign} K\n".to_owned(),
        send: false,
    });
    shipped.push(Macro {
        label: "RST".to_owned(),
        text: "\n${contact.callsign} DE ${station.callsign} ${greeting} ${contact.name}, UR RST ${contact.rst.sent} ${contact.rst.sent} QTH ${station.qth} BTU ${contact.callsign} DE ${station.callsign} K\n".to_owned(),
        send: false,
    });
    shipped.push(Macro {
        label: "73".to_owned(),
        text: "\n${contact.callsign} DE ${station.callsign} TNX FER QSO ${contact.name}, 73 ES GL. ${contact.callsign} DE ${station.callsign} SK\n".to_owned(),
        send: false,
    });
    shipped.push(Macro {
        label: "RY".to_owned(),
        text: "\nRYRYRYRYRYRYRYRYRYRYRYRYRYRY DE ${station.callsign}\n".to_owned(),
        send: true,
    });
    shipped
}

/// What a name in a macro stands for, looked up in `table`: the first entry
/// with that name.
pub open spec fn lookup(table: Seq<(Seq<char>, Seq<char>)>, name: Seq<char>) -> Option<Seq<char>>
    decreases table.len(),
{
    if table.len() == 0 {
        None
    } else if table[0].0 == name {
        Some(table[0].1)
    } else {
        lookup(table.drop_first(), name)
    }
}

/// The first position from `p` at which `${` opens a name.
pub open spec fn open_from(t: Seq<char>, p: int) -> Option<int>
    decreases t.len() - p,
{
    if p < 0 || p + 1 >= t.len() {
        None
    } else if t[p] == '$' && t[p + 1] == '{' {
        Some(p)
    } else {
        open_from(t, p + 1)
    }
}

/// The first position from `p` holding a closing brace.
pub open spec fn close_from(t: Seq<char>, p: int) -> Option<int>
    decreases t.len() - p,
{
    if p < 0 || p >= t.len() {
        None
    } else if t[p] == '}' {
        Some(p)
    } else {
        close_from(t, p + 1)
    }
}

pub proof fn lemma_open_from(t: Seq<char>, p: int)
    ensures
        open_from(t, p) matches Some(s) ==> p <= s && s + 1 < t.len() && t[s] == '$' && t[s + 1]
            == '{' && forall|i: int| p <= i < s ==> !(t[i] == '$' && #[trigger] t[i + 1] == '{'),
        open_from(t, p) is None ==> forall|i: int|
            0 <= p <= i && i + 1 < t.len() ==> !(t[i] == '$' && #[trigger] t[i + 1] == '{'),
    decreases t.len() - p,
{
    if p >= 0 && p + 1 < t.len() && !(t[p] == '$' && t[p + 1] == '{') {
        lemma_open_from(t, p + 1);
    }
}

pub proof fn lemma_close_from(t: Seq<char>, p: int)
    ensures
        close_from(t, p) matches Some(e) ==> p <= e < t.len() && t[e] == '}' && forall|i: int|
            p <= i < e ==> #[trigger] t[i] != '}',
        close_from(t, p) is None ==> forall|i: int| 0 <= p <= i < t.len() ==> #[trigger] t[i] != '}',
    decreases t.len() - p,
{
    if p >= 0 && p < t.len() && t[p] != '}' {
        lemma_close_from(t, p + 1);
    }
}

/// The text of `t` from position `p` with every name it holds filled in from
/// `table`; a name the table lacks, and an opening never closed, stay as
/// written.
pub open spec fn expanded_from(t: Seq<char>, table: Seq<(Seq<char>, Seq<char>)>, p: int) -> Seq<
    char,
>
    decreases t.len() - p,
{
    if p < 0 || p > t.len() {
        Seq::empty()
    } else {
        match open_from(t, p) {
            None => t.subrange(p, t.len() as int),
            Some(s) => match close_from(t, s + 2) {
                None => t.subrange(p, t.len() as int),
                Some(e) => {
                    proof {
                        lemma_open_from(t, p);
                        lemma_close_from(t, s + 2);
                    }
                    let name = t.subrange(s + 2, e);
                    let filled = match lookup(table, name) {
                        Some(value) => value,
                        None => t.subrange(s, e + 1),
                    };
                    t.subrange(p, s) + filled + expanded_from(t, table, e + 1)
                },
            },
        }
    }
}

/// A whole template with its names filled in.
pub open spec fn expanded(t: Seq<char>, table: Seq<(Seq<char>, Seq<char>)>) -> Seq<char> {
    expanded_from(t, table, 0)
}

/// Nothing opens a name from `p` on when no `${` appears from there.
proof fn lemma_no_opening_from(t: Seq<char>, p: int)
    requires
        0 <= p,
        forall|i: int| p <= i && i + 1 < t.len() ==> !(t[i] == '$' && #[trigger] t[i + 1] == '{'),
    ensures
        open_from(t, p) is None,
    decreases t.len() - p,
{
    if p + 1 < t.len() {
        lemma_no_opening_from(t, p + 1);
    }
}

/// Text with no name in it is written out unchanged, whatever the table.
pub proof fn lemma_text_without_names_is_unchanged(t: Seq<char>, table: Seq<(Seq<char>, Seq<char>)>)
    requires
        forall|i: int| 0 <= i && i + 1 < t.len() ==> !(t[i] == '$' && #[trigger] t[i + 1] == '{'),
    ensures
        expanded(t, table) == t,
{
    lemma_no_opening_from(t, 0);
    assert(t.subrange(0, t.len() as int) =~= t);
}

/// Where `${` first opens from `k` when it opens at `s` and nowhere before.
proof fn lemma_open_at(t: Seq<char>, k: int, s: int)
    requires
        0 <= k <= s,
        s + 1 < t.len(),
        t[s] == '$' && t[s + 1] == '{',
        forall|i: int| k <= i < s ==> !(t[i] == '$' && #[trigger] t[i + 1] == '{'),
    ensures
        open_from(t, k) == Some(s),
    decreases s - k,
{
    if k < s {
        lemma_open_at(t, k + 1, s);
    }
}

/// Where `}` first closes from `k` when it stands at `e` and nowhere before.
proof fn lemma_close_at(t: Seq<char>, k: int, e: int)
    requires
        0 <= k <= e < t.len(),
        t[e] == '}',
        forall|i: int| k <= i < e ==> #[trigger] t[i] != '}',
    ensures
        close_from(t, k) == Some(e),
    decreases e - k,
{
    if k < e {
        lemma_close_at(t, k + 1, e);
    }
}

/// No `}` from `k` on closes nothing.
proof fn lemma_close_none(t: Seq<char>, k: int)
    requires
        0 <= k,
        forall|i: int| k <= i < t.len() ==> #[trigger] t[i] != '}',
    ensures
        close_from(t, k) is None,
    decreases t.len() - k,
{
    if k < t.len() {
        lemma_close_none(t, k + 1);
    }
}

/// Searching text that follows `a` finds what searching it alone finds,
/// moved by the length of `a`.
proof fn lemma_open_shift(a: Seq<char>, q: Seq<char>, k: int)
    requires
        0 <= k,
    ensures
        open_from(a + q, a.len() + k) == match open_from(q, k) {
            Some(s) => Some(s + a.len()),
            None => None,
        },
    decreases q.len() - k,
{
    let t = a + q;
    if k + 1 < q.len() {
        assert(t[a.len() + k] == q[k] && t[a.len() + k + 1] == q[k + 1]);
        lemma_open_shift(a, q, k + 1);
    }
}

proof fn lemma_close_shift(a: Seq<char>, q: Seq<char>, k: int)
    requires
        0 <= k,
    ensures
        close_from(a + q, a.len() + k) == match close_from(q, k) {
            Some(e) => Some(e + a.len()),
            None => None,
        },
    decreases q.len() - k,
{
    let t = a + q;
    if k < q.len() {
        assert(t[a.len() + k] == q[k]);
        lemma_close_shift(a, q, k + 1);
    }
}

/// Text that follows `a` is filled in as it would be alone.
proof fn lemma_expanded_shift(a: Seq<char>, q: Seq<char>, table: Seq<(Seq<char>, Seq<char>)>, k: int)
    requires
        0 <= k <= q.len(),
    ensures
        expanded_from(a + q, table, a.len() + k) == expanded_from(q, table, k),
    decreases q.len() - k,
{
    let t = a + q;
    let p = a.len() + k;
    lemma_open_shift(a, q, k);
    match open_from(q, k) {
        None => {
            assert(t.subrange(p, t.len() as int) =~= q.subrange(k, q.len() as int));
        },
        Some(s) => {
            lemma_open_from(q, k);
            lemma_close_shift(a, q, s + 2);
            match close_from(q, s + 2) {
                None => {
                    assert(t.subrange(p, t.len() as int) =~= q.subrange(k, q.len() as int));
                },
                Some(e) => {
                    lemma_close_from(q, s + 2);
                    lemma_expanded_shift(a, q, table, e + 1);
                    assert(t.subrange(s + a.len() + 2, e + a.len()) =~= q.subrange(s + 2, e));
                    assert(t.subrange(s + a.len(), e + a.len() + 1) =~= q.subrange(s, e + 1));
                    assert(t.subrange(p, s + a.len()) =~= q.subrange(k, s));
                },
            }
        },
    }
}

/// Whether `s` holds no `${`.
pub open spec fn no_opening(s: Seq<char>) -> bool {
    forall|i: int| 0 <= i && i + 1 < s.len() ==> !(s[i] == '$' && #[trigger] s[i + 1] == '{')
}

/// Whether `s` holds no `}`.
pub open spec fn no_closing(s: Seq<char>) -> bool {
    forall|i: int| 0 <= i < s.len() ==> #[trigger] s[i] != '}'
}

/// What a name stands for: its value where the table has it, and otherwise
/// the name as it was written, braces and all.
pub open spec fn filled_in(table: Seq<(Seq<char>, Seq<char>)>, name: Seq<char>) -> Seq<char> {
    match lookup(table, name) {
        Some(value) => value,
        None => "${"@ + name + "}"@,
    }
}

/// A name is filled in where it stands: the text before it is kept, the name
/// becomes its value (or stays as written when the table lacks it), and the
/// text after it is filled in on its own.
pub proof fn lemma_a_name_is_filled_in_where_it_stands(
    p: Seq<char>,
    name: Seq<char>,
    q: Seq<char>,
    table: Seq<(Seq<char>, Seq<char>)>,
)
    requires
        no_opening(p),
        no_closing(name),
    ensures
        expanded(p + "${"@ + name + "}"@ + q, table) == p + filled_in(table, name) + expanded(q, table),
{
    reveal_strlit("${");
    reveal_strlit("}");
    assert("${"@.len() == 2 && "${"@[0] == '$' && "${"@[1] == '{');
    assert("}"@.len() == 1 && "}"@[0] == '}');
    let a = p + "${"@ + name + "}"@;
    let t = a + q;
    let s = p.len() as int;
    let e = s + 2 + name.len();
    assert(t == p + "${"@ + name + "}"@ + q);
    assert(t[s] == '$' && t[s + 1] == '{');
    assert forall|i: int| 0 <= i < s implies !(t[i] == '$' && #[trigger] t[i + 1] == '{') by {
        assert(t[i] == p[i]);
        if i + 1 < s {
            assert(t[i + 1] == p[i + 1]);
        }
    }
    lemma_open_at(t, 0, s);
    assert(t[e] == '}');
    assert forall|i: int| s + 2 <= i < e implies #[trigger] t[i] != '}' by {
        assert(t[i] == name[i - s - 2]);
    }
    lemma_close_at(t, s + 2, e);
    lemma_expanded_shift(a, q, table, 0);
    assert(q.subrange(0, q.len() as int) =~= q);
    assert(t.subrange(s + 2, e) =~= name);
    assert(t.subrange(s, e + 1) =~= "${"@ + name + "}"@);
    assert(t.subrange(0, s) =~= p);
    assert(expanded_from(t, table, e + 1) == expanded(q, table));
}

/// Each name the table has becomes its value.
pub proof fn lemma_a_known_name_becomes_its_value(name: Seq<char>, table: Seq<(Seq<char>, Seq<char>)>)
    requires
        no_closing(name),
        lookup(table, name) is Some,
    ensures
        expanded("${"@ + name + "}"@, table) == lookup(table, name)->0,
{
    let empty = Seq::<char>::empty();
    lemma_a_name_is_filled_in_where_it_stands(empty, name, empty, table);
    assert(empty + "${"@ + name + "}"@ + empty =~= "${"@ + name + "}"@);
    assert(expanded(empty, table) =~= empty) by {
        lemma_text_without_names_is_unchanged(empty, table);
    }
    assert(empty + lookup(table, name)->0 + empty =~= lookup(table, name)->0);
}

/// An opening never closed is copied as it stands, with all that follows it.
pub proof fn lemma_an_unclosed_name_is_left_as_it_stands(
    p: Seq<char>,
    rest: Seq<char>,
    table: Seq<(Seq<char>, Seq<char>)>,
)
    requires
        no_opening(p),
        no_closing(rest),
    ensures
        expanded(p + "${"@ + rest, table) == p + "${"@ + rest,
{
    reveal_strlit("${");
    assert("${"@.len() == 2 && "${"@[0] == '$' && "${"@[1] == '{');
    let t = p + "${"@ + rest;
    let s = p.len() as int;
    assert(t[s] == '$' && t[s + 1] == '{');
    assert forall|i: int| 0 <= i < s implies !(t[i] == '$' && #[trigger] t[i + 1] == '{') by {
        assert(t[i] == p[i]);
        if i + 1 < s {
            assert(t[i + 1] == p[i + 1]);
        }
    }
    lemma_open_at(t, 0, s);
    assert forall|i: int| s + 2 <= i < t.len() implies #[trigger] t[i] != '}' by {
        assert(t[i] == rest[i - s - 2]);
    }
    lemma_close_none(t, s + 2);
    assert(t.subrange(0, t.len() as int) =~= t);
}

/// A value table as mathematics.
pub open spec fn table_view(table: Seq<(String, String)>) -> Seq<(Seq<char>, Seq<char>)> {
    table.map_values(|entry: (String, String)| (entry.0@, entry.1@))
}


/// Fills a template's names in from a table of names and values.
///
/// The first entry carrying a name is the one used. A name the table lacks is
/// left exactly as written, braces and all, and so is an opening with no
/// closing brace after it.
pub fn expand_with(template: &str, table: &[(String, String)]) -> (text: String)
    ensures
        text@ == expanded(template@, table_view(table@)),
{
    let t = chars_of(template);
    let length = t.len();
    let ghost view = table_view(table@);
    let mut out = String::new();
    let mut p: usize = 0;
    proof {
        assert(out@ + expanded_from(template@, view, 0) =~= expanded_from(template@, view, 0));
    }
    loop
        invariant
            t@ == template@,
            length == template@.len(),
            p <= length,
            view == table_view(table@),
            expanded(template@, view) == out@ + expanded_from(template@, view, p as int),
        decreases length - p,
    {
        proof {
            lemma_open_from(template@, p as int);
        }
        // Find the next `${`.
        let mut s = p;
        let mut opened = false;
        while s < length && s + 1 < length
            invariant_except_break
                t@ == template@,
                length == template@.len(),
                p <= s <= length,
                !opened,
                open_from(template@, p as int) == open_from(template@, s as int),
            ensures
                t@ == template@,
                length == template@.len(),
                p <= s <= length,
                opened ==> open_from(template@, p as int) == Some(s as int) && s + 1 < length,
                !opened ==> open_from(template@, p as int) is None,
            decreases length - s,
        {
            if t[s] == '$' && t[s + 1] == '{' {
                opened = true;
                break;
            }
            s += 1;
        }
        if !opened {
            let rest = crate::text::string_of(t.as_slice(), p, length);
            out.append(rest.as_str());
            return out;
        }
        // Find the closing brace.
        let mut e = s + 2;
        let mut closed = false;
        while e < length
            invariant_except_break
                t@ == template@,
                length == template@.len(),
                s + 2 <= e <= length,
                !closed,
                close_from(template@, s as int + 2) == close_from(template@, e as int),
            ensures
                t@ == template@,
                length == template@.len(),
                s + 2 <= e <= length,
                closed ==> close_from(template@, s as int + 2) == Some(e as int) && e < length,
                !closed ==> close_from(template@, s as int + 2) is None,
            decreases length - e,
        {
            if t[e] == '}' {
                closed = true;
                break;
            }
            e += 1;
        }
        if !closed {
            let rest = crate::text::string_of(t.as_slice(), p, length);
            out.append(rest.as_str());
            return out;
        }
        let before = crate::text::string_of(t.as_slice(), p, s);
        out.append(before.as_str());
        // Look the name up.
        let mut entry: usize = 0;
        let mut found = false;
        let ghost name = template@.subrange(s as int + 2, e as int);
        proof {
            assert(view.skip(0) =~= view);
        }
        while entry < table.len()
            invariant_except_break
                t@ == template@,
                s + 2 <= e <= length,
                length == template@.len(),
                name == template@.subrange(s as int + 2, e as int),
                view == table_view(table@),
                entry <= table@.len(),
                !found,
                lookup(view, name) == lookup(view.skip(entry as int), name),
            ensures
                t@ == template@,
                length == template@.len(),
                s + 2 <= e <= length,
                found ==> entry < table@.len() && lookup(view, name) == Some(table@[entry as int].1@),
                !found ==> entry == table@.len() && lookup(view, name) == lookup(
                    view.skip(entry as int),
                    name,
                ),
            decreases table@.len() - entry,
        {
            proof {
                assert(view.skip(entry as int).drop_first() =~= view.skip(entry as int + 1));
            }
            if same_chars(t.as_slice(), s + 2, e, table[entry].0.as_str()) {
                found = true;
                break;
            }
            entry += 1;
        }
        proof {
            if !found {
                assert(view.skip(entry as int) =~= Seq::<(Seq<char>, Seq<char>)>::empty());
                assert(lookup(view, name) is None);
            }
        }
        if found {
            out.append(table[entry].1.as_str());
        } else {
            let written = crate::text::string_of(t.as_slice(), s, e + 1);
            out.append(written.as_str());
        }
        proof {
            lemma_close_from(template@, s as int + 2);
        }
        p = e + 1;
    }
}

/// The greeting for the hour of the day, as the teleprinter abbreviates them.
pub open spec fn greeting_for(hour: int) -> Seq<char> {
    if hour <= 11 {
        "GM"@
    } else if hour <= 17 {
        "GA"@
    } else {
        "GE"@
    }
}

/// The greeting for an hour of this station's own clock.
pub fn greeting_at(hour: i8) -> (greeting: &'static str)
    requires
        0 <= hour <= 23,
    ensures
        greeting@ == greeting_for(hour as int),
{
    if hour <= 11 {
        "GM"
    } else if hour <= 17 {
        "GA"
    } else {
        "GE"
    }
}

/// The greeting for the time of day on this station's own clock.
pub fn greeting(clock: &Clock) -> (greeting: &'static str)
    requires
        clock.wf(),
    ensures
        greeting@ == greeting_for(clock.hour as int),
{
    greeting_at(clock.hour)
}

/// `value`, or `fallback` when it is empty.
pub fn or_else(value: &str, fallback: &str) -> (chosen: String)
    ensures
        chosen@ == if value@.len() == 0 { fallback@ } else { value@ },
{
    if value.is_empty() {
        fallback.to_owned()
    } else {
        value.to_owned()
    }
}

/// Every name a macro may use and what it stands for, given the clock's
/// readings, in the order the names sort in.
pub open spec fn value_table(
    station: Station,
    contact: Contact,
    date_utc: Seq<char>,
    time_utc: Seq<char>,
    hour: int,
) -> Seq<(Seq<char>, Seq<char>)> {
    seq![
        ("contact.callsign"@, contact.callsign@),
        ("contact.name"@, if contact.name@.len() == 0 { UNKNOWN_NAME@ } else { contact.name@ }),
        ("contact.qth"@, contact.qth@),
        ("contact.rst.received"@, contact.rst_received@),
        ("contact.rst.sent"@, if contact.rst_sent@.len() == 0 { DEFAULT_RST@ } else { contact.rst_sent@ }),
        ("date.utc"@, date_utc),
        ("greeting"@, greeting_for(hour)),
        ("station.callsign"@, station.callsign@),
        ("station.name"@, station.name@),
        ("station.qth"@, station.qth@),
        ("time.utc"@, time_utc),
    ]
}

/// Each name a macro may use stands for what it says: every `station.*` name
/// for the station's own field, every `contact.*` name for the contact's
/// (an empty name read as "OM", an empty report sent as "599"), the date and
/// time for the universal readings given, and the greeting for the hour:
/// "GM" until noon, "GA" until six, "GE" after.
pub proof fn lemma_each_name_stands_for_its_field(
    station: Station,
    contact: Contact,
    date_utc: Seq<char>,
    time_utc: Seq<char>,
    hour: int,
)
    ensures
        lookup(value_table(station, contact, date_utc, time_utc, hour), "station.callsign"@) == Some(
            station.callsign@,
        ),
        lookup(value_table(station, contact, date_utc, time_utc, hour), "station.name"@) == Some(station.name@),
        lookup(value_table(station, contact, date_utc, time_utc, hour), "station.qth"@) == Some(station.qth@),
        lookup(value_table(station, contact, date_utc, time_utc, hour), "contact.callsign"@) == Some(
            contact.callsign@,
        ),
        lookup(value_table(station, contact, date_utc, time_utc, hour), "contact.name"@) == Some(
            if contact.name@.len() == 0 {
                "OM"@
            } else {
                contact.name@
            },
        ),
        lookup(value_table(station, contact, date_utc, time_utc, hour), "contact.qth"@) == Some(contact.qth@),
        lookup(value_table(station, contact, date_utc, time_utc, hour), "contact.rst.received"@) == Some(
            contact.rst_received@,
        ),
        lookup(value_table(station, contact, date_utc, time_utc, hour), "contact.rst.sent"@) == Some(
            if contact.rst_sent@.len() == 0 {
                "599"@
            } else {
                contact.rst_sent@
            },
        ),
        lookup(value_table(station, contact, date_utc, time_utc, hour), "date.utc"@) == Some(date_utc),
        lookup(value_table(station, contact, date_utc, time_utc, hour), "time.utc"@) == Some(time_utc),
        lookup(value_table(station, contact, date_utc, time_utc, hour), "greeting"@) == Some(
            if hour <= 11 {
                "GM"@
            } else if hour <= 17 {
                "GA"@
            } else {
                "GE"@
            },
        ),
{
    reveal_strlit("contact.callsign");
    reveal_strlit("contact.name");
    reveal_strlit("contact.qth");
    reveal_strlit("contact.rst.received");
    reveal_strlit("contact.rst.sent");
    reveal_strlit("date.utc");
    reveal_strlit("greeting");
    reveal_strlit("station.callsign");
    reveal_strlit("station.name");
    reveal_strlit("station.qth");
    reveal_strlit("time.utc");
    reveal_strlit("OM");
    reveal_strlit("599");
    let names = seq![
        "contact.callsign"@,
        "contact.name"@,
        "contact.qth"@,
        "contact.rst.received"@,
        "contact.rst.sent"@,
        "date.utc"@,
        "greeting"@,
        "station.callsign"@,
        "station.name"@,
        "station.qth"@,
        "time.utc"@,
    ];
    assert forall|i: int, j: int| 0 <= i < j < 11 implies #[trigger] names[i] != #[trigger] names[j] by {
        if names[i].len() == names[j].len() {
            if names[i][0] == names[j][0] {
                assert(names[i][8] != names[j][8]);
            }
        }
    }
    let table = value_table(station, contact, date_utc, time_utc, hour);
    assert forall|k: int| 0 <= k < 11 implies #[trigger] table[k].0 == names[k] by {}
    assert forall|k: int| 0 <= k < 11 implies lookup(#[trigger] table.skip(k), names[k]) == Some(table[k].1) by {
        assert(table.skip(k)[0] == table[k]);
    }
    assert forall|k: int, m: int|
        0 <= m <= k < 11 implies lookup(#[trigger] table.skip(m), #[trigger] names[k]) == Some(table[k].1) by {
        lemma_lookup_skips(table, names, k, m);
    }
    assert(table.skip(0) =~= table);
}

/// Looking a name up from entry `m` passes over the entries before its own.
proof fn lemma_lookup_skips(
    table: Seq<(Seq<char>, Seq<char>)>,
    names: Seq<Seq<char>>,
    k: int,
    m: int,
)
    requires
        0 <= m <= k < table.len(),
        names.len() == table.len(),
        forall|i: int| 0 <= i < table.len() ==> #[trigger] table[i].0 == names[i],
        forall|i: int, j: int| 0 <= i < j < names.len() ==> #[trigger] names[i] != #[trigger] names[j],
    ensures
        lookup(table.skip(m), names[k]) == Some(table[k].1),
    decreases k - m,
{
    assert(table.skip(m)[0] == table[m]);
    if m < k {
        assert(table.skip(m).drop_first() =~= table.skip(m + 1));
        assert(names[m] != names[k]);
        lemma_lookup_skips(table, names, k, m + 1);
    }
}

/// The table of names, given the universal date and time already written out
/// and the hour of the station's own clock.
pub fn values_at(
    station: &Station,
    contact: &Contact,
    date_utc: String,
    time_utc: String,
    hour: i8,
) -> (table: Vec<(String, String)>)
    requires
        0 <= hour <= 23,
    ensures
        table_view(table@) == value_table(*station, *contact, date_utc@, time_utc@, hour as int),
{
    let mut table: Vec<(String, String)> = Vec::new();
    table.push(("contact.callsign".to_owned(), contact.callsign.clone()));
    table.push(("contact.name".to_owned(), or_else(contact.name.as_str(), UNKNOWN_NAME)));
    table.push(("contact.qth".to_owned(), contact.qth.clone()));
    table.push(("contact.rst.received".to_owned(), contact.rst_received.clone()));
    table.push(("contact.rst.sent".to_owned(), or_else(contact.rst_sent.as_str(), DEFAULT_RST)));
    table.push(("date.utc".to_owned(), date_utc));
    table.push(("greeting".to_owned(), greeting_at(hour).to_owned()));
    table.push(("station.callsign".to_owned(), station.callsign.clone()));
    table.push(("station.name".to_owned(), station.name.clone()));
    table.push(("station.qth".to_owned(), station.qth.clone()));
    table.push(("time.utc".to_owned(), time_utc));
    proof {
        assert(table_view(table@) =~= value_table(*station, *contact, date_utc@, time_utc@, hour as int));
    }
    table
}

/// Every name a macro may use, and what it stands for at `clock`.
///
/// The date and the time are universal, being what a contact is logged by;
/// the greeting follows this station's own clock.
pub fn values(station: &Station, contact: &Contact, clock: &Clock) -> (table: Vec<(String, String)>)
    requires
        clock.wf(),
    ensures
        table_view(table@) == value_table(
            *station,
            *contact,
            utc_date_text(*clock),
            utc_time_text(*clock),
            clock.hour as int,
        ),
{
    values_at(station, contact, date_utc(clock), time_utc(clock), clock.hour)
}

/// Fills a macro's names in from the station, the contact, and the clock.
pub fn expand(template: &str, station: &Station, contact: &Contact, clock: &Clock) -> (text: String)
    requires
        clock.wf(),
    ensures
        text@ == expanded(
            template@,
            value_table(*station, *contact, utc_date_text(*clock), utc_time_text(*clock), clock.hour as int),
        ),
{
    let table = values(station, contact, clock);
    expand_with(template, table.as_slice())
}

/// The macro at `index` written out for the field: its names filled in from
/// the station, the contact and the clock, and brought into the shape a paste
/// is, upper cased with the field's own line endings; nothing when there is
/// no macro there.
pub fn expand_macro(
    macros: &[Macro],
    index: usize,
    station: &Station,
    contact: &Contact,
    clock: &Clock,
) -> (text: Option<String>)
    requires
        clock.wf(),
    ensures
        index >= macros@.len() ==> text is None,
        index < macros@.len() ==> (text matches Some(t) && t@ == normalized(
            expanded(
                macros@[index as int].text@,
                value_table(*station, *contact, utc_date_text(*clock), utc_time_text(*clock), clock.hour as int),
            ),
        )),
{
    if index >= macros.len() {
        return None;
    }
    let written = expand(macros[index].text.as_str(), station, contact, clock);
    Some(normalize(written.as_str()))
}

} // verus!
