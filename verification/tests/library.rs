use grayline_apps::library::{macros_from_tables, templates_from_tables};
use grayline_apps::library::{
    FileText, ListFile, Template, flag_of, load_list, load_macros, load_templates, macros_text, read_macro,
    read_macro_list, read_template, read_template_list, templates_text, text_of,
};
use grayline_apps::macros::{Macro, default_macros};

fn template(name: &str, text: &str) -> Template {
    Template { name: name.to_owned(), text: text.to_owned() }
}

fn shipped() -> Vec<Template> {
    vec![template("AGN", "PSE AGN"), template("QRZ", "QRZ?")]
}

#[test]
fn a_missing_file_is_written_with_what_ships() {
    let loaded = load_macros(FileText::Missing);
    assert_eq!(loaded.entries, default_macros());
    let written = loaded.create.expect("a missing file is created");
    assert!(written.contains("[[macros]]"));
    let again = load_macros(FileText::Read(written));
    assert_eq!(again.entries, default_macros());
    assert!(again.create.is_none());
}

#[test]
fn the_set_messages_survive_being_written_and_read_back() {
    let written = load_templates(FileText::Missing, shipped()).create.expect("a missing file is created");
    assert_eq!(load_templates(FileText::Read(written), Vec::new()).entries, shipped());
}

#[test]
fn the_file_is_what_the_buttons_are_read_from() {
    let text = "[[macros]]
label = \"TEST\"
text = \"RY RY\"
send = true
";
    let loaded = load_macros(FileText::Read(text.to_owned()));
    assert!(loaded.create.is_none());
    assert_eq!(
        loaded.entries,
        [Macro { label: "TEST".to_owned(), text: "RY RY".to_owned(), send: true }]
    );
}

#[test]
fn a_file_with_no_list_in_it_is_an_empty_list() {
    let loaded = load_macros(FileText::Read("# nothing here\n".to_owned()));
    assert!(loaded.entries.is_empty());
    assert!(loaded.create.is_none());
}

#[test]
fn a_file_that_cannot_be_read_is_not_written_over() {
    let loaded = load_templates(FileText::Read("[[templates]\nname = \"broken\"\n".to_owned()), shipped());
    assert_eq!(loaded.entries, shipped());
    assert!(loaded.create.is_none());
    let loaded = load_templates(FileText::Unreadable, shipped());
    assert_eq!(loaded.entries, shipped());
    assert!(loaded.create.is_none());
}

#[test]
fn an_entry_missing_a_half_is_dropped() {
    let text = "[[templates]]\nname = \"AGN\"\ntext = \"PSE AGN\"\n\n[[templates]]\nname = \"\"\ntext = \"NO\"\n\n[[templates]]\nname = \"NOTEXT\"\n";
    let read = load_templates(FileText::Read(text.to_owned()), shipped()).entries;
    assert_eq!(read.len(), 1);
    assert_eq!(read[0].name, "AGN");
}

#[test]
fn a_macro_that_does_not_say_whether_it_sends_does_not() {
    let read = read_macro(Some("CQ".to_owned()), Some("CQ CQ".to_owned()), None).unwrap();
    assert!(!read.send);
    assert_eq!(read_macro(None, Some("CQ".to_owned()), Some(true)), None);
    assert_eq!(read_macro(Some("CQ".to_owned()), Some(String::new()), Some(true)), None);
    let loaded = load_macros(FileText::Read("[[macros]]\nlabel = \"CQ\"\ntext = \"CQ CQ\"\n".to_owned()));
    assert_eq!(loaded.entries, [Macro { label: "CQ".to_owned(), text: "CQ CQ".to_owned(), send: false }]);
}

#[test]
fn a_missing_list_of_set_messages_is_created_from_what_ships() {
    let loaded = load_templates(FileText::Missing, shipped());
    assert_eq!(loaded.entries, shipped());
    let written = loaded.create.expect("a missing file is created");
    assert!(written.contains("[[templates]]"));
    assert!(written.contains("PSE AGN"));
    assert_eq!(written, templates_text(&shipped()));
}

#[test]
fn entries_read_whole_keep_their_order() {
    let list = load_list(ListFile::Read(Some(vec![Some(3_u8), None, Some(1), Some(2), None])), vec![9]);
    assert_eq!(list, [3, 1, 2]);
    assert_eq!(load_list(ListFile::Read(None), vec![9]), Vec::<u8>::new());
    assert_eq!(load_list(ListFile::Missing, vec![9]), [9]);
}

#[test]
fn an_unreadable_file_of_buttons_gives_the_ones_that_ship() {
    let loaded = load_macros(FileText::Unreadable);
    assert_eq!(loaded.entries, default_macros());
    assert!(loaded.create.is_none());
    let loaded = load_macros(FileText::Read("label = = \"x\"".to_owned()));
    assert_eq!(loaded.entries, default_macros());
    assert!(loaded.create.is_none());
}

#[test]
fn a_list_is_read_table_by_table() {
    let text = "[[macros]]\nlabel = \"A\"\ntext = \"ONE\"\n\n[[macros]]\nlabel = \"B\"\n\n[[macros]]\nlabel = \"C\"\ntext = \"THREE\"\nsend = 1\n";
    match read_macro_list(text) {
        ListFile::Read(Some(entries)) => {
            assert_eq!(entries.len(), 3);
            assert_eq!(entries[0], Some(Macro { label: "A".to_owned(), text: "ONE".to_owned(), send: false }));
            assert_eq!(entries[1], None);
            assert_eq!(entries[2], Some(Macro { label: "C".to_owned(), text: "THREE".to_owned(), send: false }));
        }
        _ => panic!("the list was not read"),
    }
    assert!(matches!(read_macro_list("title = \"x\"\n"), ListFile::Read(None)));
    assert!(matches!(read_template_list("[[templates]\n"), ListFile::Unreadable));
}

#[test]
fn fields_are_looked_up_by_name() {
    let table = vec![
        ("label".to_owned(), Some("CQ".to_owned()), None),
        ("send".to_owned(), None, Some(true)),
        ("label".to_owned(), Some("LATER".to_owned()), None),
    ];
    assert_eq!(text_of(&table, "label"), Some("CQ".to_owned()));
    assert_eq!(text_of(&table, "send"), None);
    assert_eq!(text_of(&table, "text"), None);
    assert_eq!(flag_of(&table, "send"), Some(true));
    assert_eq!(flag_of(&table, "label"), None);
}

#[test]
fn the_buttons_are_written_with_all_three_fields() {
    let written = macros_text(&[Macro { label: "CQ".to_owned(), text: "CQ CQ".to_owned(), send: true }]);
    assert!(written.contains("[[macros]]"));
    assert!(written.contains("label = \"CQ\""));
    assert!(written.contains("text = \"CQ CQ\""));
    assert!(written.contains("send = true"));
    assert!(matches!(
        read_template_list("[[templates]]\nname = \"N\"\ntext = \"T\"\n"),
        ListFile::Read(Some(entries)) if entries == [Some(template("N", "T"))]
    ));
}

#[test]
fn parsed_tables_are_read_as_macros_and_set_messages() {
    assert!(matches!(macros_from_tables(None), ListFile::Unreadable));
    assert!(matches!(macros_from_tables(Some(None)), ListFile::Read(None)));
    let tables = vec![vec![
        ("send".to_owned(), None, Some(true)),
        ("label".to_owned(), Some("QRZ".to_owned()), None),
        ("text".to_owned(), Some("QRZ?".to_owned()), None),
    ]];
    match macros_from_tables(Some(Some(tables))) {
        ListFile::Read(Some(entries)) => assert_eq!(
            entries,
            [Some(Macro { label: "QRZ".to_owned(), text: "QRZ?".to_owned(), send: true })]
        ),
        _ => panic!("the tables were not read"),
    }
    let tables = vec![vec![("name".to_owned(), Some("AGN".to_owned()), None), ("text".to_owned(), None, Some(true))]];
    match templates_from_tables(Some(Some(tables))) {
        ListFile::Read(Some(entries)) => assert_eq!(entries, [None]),
        _ => panic!("the tables were not read"),
    }
}
