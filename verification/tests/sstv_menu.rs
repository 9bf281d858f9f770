use grayline_apps::menu::{Item, flatten};
use grayline_apps::sstv_menu::{SstvAction, SstvMenuState, sstv_menu, text_for};

fn state() -> SstvMenuState {
    SstvMenuState {
        folder_keys: vec!["folder-config".to_owned(), "folder-log".to_owned(), "folder-pictures".to_owned()],
        zoom_reset_label: "Reset zoom (100%)".to_owned(),
        devices: vec!["Mic".to_owned(), "Line In".to_owned()],
        device: Some("Line In".to_owned()),
        output_devices: Vec::new(),
        output_device: None,
        send_fskid: true,
        contest_mode: false,
        vis_restart: true,
        vis_strict: false,
        contact_lookup: true,
        auto_history: false,
        history_format_keys: vec!["history-png".to_owned(), "history-jpeg".to_owned()],
        history_format: 1,
        locales: vec!["English".to_owned(), "日本語".to_owned()],
        locale: 0,
    }
}

fn labels() -> Vec<(String, String)> {
    [
        ("menu-file", "File"),
        ("menu-manual", "Manual"),
        ("folder-config", "Settings folder"),
        ("folder-log", "Log folder"),
        ("folder-pictures", "Pictures folder"),
        ("action-send-fskid", "Send FSKID"),
        ("status-no-output", "No output device"),
    ]
    .into_iter()
    .map(|(key, text)| (key.to_owned(), text.to_owned()))
    .collect()
}

fn count(items: &[Item<SstvAction>]) -> usize {
    items
        .iter()
        .map(|item| match item {
            Item::Submenu { items, .. } => 1 + count(items),
            _ => 1,
        })
        .sum()
}

#[test]
fn the_sstv_menu_flattens_to_every_item_including_separators() {
    let model = sstv_menu(&state(), &labels());
    let expected: usize = model.iter().map(|menu| count(&menu.items)).sum();
    assert_eq!(flatten(&model).len(), expected);
    assert!(model.iter().any(|menu| menu.items.contains(&Item::Separator)));
}

#[test]
fn menu_the_file_menu_offers_every_folder() {
    let model = sstv_menu(&state(), &labels());
    assert_eq!(model[0].label, "File");
    let offered: Vec<usize> = model[0]
        .items
        .iter()
        .filter_map(|item| match item {
            Item::Command { action: SstvAction::Reveal(folder), .. } => Some(*folder),
            _ => None,
        })
        .collect();
    assert_eq!(offered, [0, 1, 2]);
    for key in &state().folder_keys {
        assert_ne!(text_for(&labels(), key), *key, "{key} is not translated");
    }
    assert_eq!(model[0].items[3], Item::Separator);
    assert_eq!(model[0].items[4], Item::Command { label: "menu-quit".to_owned(), action: SstvAction::Quit });
}

#[test]
fn the_help_menu_opens_the_manual() {
    let model = sstv_menu(&state(), &labels());
    let help = model.last().expect("the menu should end with Help");
    assert!(matches!(help.items.as_slice(), [Item::Command { action: SstvAction::OpenManual, .. }]));
    assert_ne!(text_for(&labels(), "menu-manual"), "menu-manual");
}

#[test]
fn the_check_marks_follow_the_state() {
    let model = sstv_menu(&state(), &labels());
    assert_eq!(model.len(), 4);
    let settings = &model[2].items;
    assert_eq!(settings.len(), 12);
    match &settings[3] {
        Item::Submenu { items, .. } => {
            assert_eq!(
                items[0],
                Item::Check { label: "Mic".to_owned(), checked: false, action: SstvAction::SelectDevice("Mic".to_owned()) }
            );
            assert_eq!(
                items[1],
                Item::Check {
                    label: "Line In".to_owned(),
                    checked: true,
                    action: SstvAction::SelectDevice("Line In".to_owned()),
                }
            );
        }
        other => panic!("the input devices are a submenu, not {other:?}"),
    }
    match &settings[4] {
        Item::Submenu { items, .. } => assert_eq!(items.as_slice(), [Item::Pending("No output device".to_owned())]),
        other => panic!("the output devices are a submenu, not {other:?}"),
    }
    match &settings[5] {
        Item::Submenu { items, .. } => assert_eq!(
            items[0],
            Item::Check { label: "Send FSKID".to_owned(), checked: true, action: SstvAction::ToggleSendFskid }
        ),
        other => panic!("the transmit settings are a submenu, not {other:?}"),
    }
    match &settings[7] {
        Item::Submenu { items, .. } => {
            assert_eq!(items.len(), 4);
            assert_eq!(
                items[3],
                Item::Check {
                    label: "history-jpeg".to_owned(),
                    checked: true,
                    action: SstvAction::SelectHistoryFormat(1),
                }
            );
        }
        other => panic!("the history settings are a submenu, not {other:?}"),
    }
    match &settings[11] {
        Item::Submenu { items, .. } => assert_eq!(
            items[1],
            Item::Check { label: "日本語".to_owned(), checked: false, action: SstvAction::SelectLocale(1) }
        ),
        other => panic!("the languages are a submenu, not {other:?}"),
    }
    assert_eq!(
        model[1].items[2],
        Item::Command { label: "Reset zoom (100%)".to_owned(), action: SstvAction::ZoomReset }
    );
}
