//! The SSTV application's menu, as a model every renderer walks.
//!
//! Rebuilt every frame from what the window holds, so check marks and labels
//! follow the application without anything having to invalidate them. The
//! folders, history formats and languages the window offers are listed by
//! position, and each entry's label is looked up by its message key.

use vstd::prelude::*;

use crate::menu::{Item, Menu};
use crate::text::same_text;

verus! {

/// What an entry of the SSTV menu asks the application to do.
#[derive(Clone, Debug, PartialEq, Eq)]
pub enum SstvAction {
    SelectDevice(String),
    SelectOutputDevice(String),
    /// The language at this position of those offered.
    SelectLocale(usize),
    ShowStation,
    ShowCustomVariables,
    ToggleSendFskid,
    ToggleContestMode,
    ToggleVisRestart,
    ToggleVisStrict,
    ToggleContactLookup,
    WriteContactCredentials,
    WriteRigScript,
    WriteBandPlan,
    ToggleAutoHistory,
    /// The history format at this position of those offered.
    SelectHistoryFormat(usize),
    OpenManual,
    ZoomIn,
    ZoomOut,
    ZoomReset,
    /// The folder at this position of those the application keeps.
    Reveal(usize),
    Quit,
}

/// What the SSTV menu is built from.
pub struct SstvMenuState {
    /// The message key of each folder the application keeps, in order.
    pub folder_keys: Vec<String>,
    /// The zoom reset entry's label, with the current scale written in.
    pub zoom_reset_label: String,
    pub devices: Vec<String>,
    pub device: Option<String>,
    pub output_devices: Vec<String>,
    pub output_device: Option<String>,
    pub send_fskid: bool,
    pub contest_mode: bool,
    pub vis_restart: bool,
    pub vis_strict: bool,
    pub contact_lookup: bool,
    pub auto_history: bool,
    /// The message key of each history format, in order.
    pub history_format_keys: Vec<String>,
    /// The position of the history format chosen.
    pub history_format: usize,
    /// How each language is named, in order.
    pub locales: Vec<String>,
    /// The position of the language the window is in.
    pub locale: usize,
}

/// The text for message key `key`: the first entry of `labels` with that key,
/// or the key itself where there is none.
pub open spec fn label_of(labels: Seq<(String, String)>, key: Seq<char>) -> Seq<char>
    decreases labels.len(),
{
    if labels.len() == 0 {
        key
    } else if labels[0].0@ == key {
        labels[0].1@
    } else {
        label_of(labels.drop_first(), key)
    }
}

/// Looks up the text for message key `key`.
pub fn text_for(labels: &[(String, String)], key: &str) -> (text: String)
    ensures
        text@ == label_of(labels@, key@),
{
    let mut i: usize = 0;
    proof {
        assert(labels@.subrange(0, labels@.len() as int) =~= labels@);
    }
    while i < labels.len()
        invariant
            i <= labels@.len(),
            label_of(labels@, key@) == label_of(labels@.subrange(i as int, labels@.len() as int), key@),
        decreases labels@.len() - i,
    {
        proof {
            let rest = labels@.subrange(i as int, labels@.len() as int);
            assert(rest.drop_first() =~= labels@.subrange(i as int + 1, labels@.len() as int));
            assert(rest[0] == labels@[i as int]);
        }
        if same_text(labels[i].0.as_str(), key) {
            return labels[i].1.clone();
        }
        i = i + 1;
    }
    proof {
        assert(labels@.subrange(i as int, labels@.len() as int) =~= Seq::<(String, String)>::empty());
    }
    key.to_owned()
}

/// Whether `item` is a command labelled `label` that asks for `action`.
pub open spec fn command(item: Item<SstvAction>, label: Seq<char>, action: SstvAction) -> bool {
    item matches Item::Command { label: l, action: a } && l@ == label && a == action
}

/// Whether `item` is a check mark labelled `label`, shown as `checked`, that
/// asks for `action`.
pub open spec fn check(item: Item<SstvAction>, label: Seq<char>, checked: bool, action: SstvAction) -> bool {
    item matches Item::Check { label: l, checked: c, action: a } && l@ == label && c == checked && a
        == action
}

/// The entries of `item` when it opens a submenu labelled `label`.
pub open spec fn submenu(item: Item<SstvAction>, label: Seq<char>) -> Option<Seq<Item<SstvAction>>> {
    match item {
        Item::Submenu { label: l, items } => if l@ == label {
            Some(items@)
        } else {
            None
        },
        _ => None,
    }
}

/// Whether `chosen` names `name`.
pub open spec fn names(chosen: Option<String>, name: String) -> bool {
    chosen matches Some(c) && c@ == name@
}

/// Whether `items` offers each of `devices` as a check mark, the one `chosen`
/// checked, or says `none` when there is no device at all.
pub open spec fn device_entries(
    items: Seq<Item<SstvAction>>,
    devices: Seq<String>,
    chosen: Option<String>,
    none: Seq<char>,
    output: bool,
) -> bool {
    if devices.len() == 0 {
        items.len() == 1 && (items[0] matches Item::Pending(l) && l@ == none)
    } else {
        &&& items.len() == devices.len()
        &&& forall|i: int|
            0 <= i < devices.len() ==> (#[trigger] items[i] matches Item::Check { label, checked, action }
                && label@ == devices[i]@ && checked == names(chosen, devices[i]) && if output {
                (action matches SstvAction::SelectOutputDevice(n) && n@ == devices[i]@)
            } else {
                (action matches SstvAction::SelectDevice(n) && n@ == devices[i]@)
            })
    }
}

/// The File menu: every folder the application keeps, then Quit.
pub open spec fn file_menu(menu: Menu<SstvAction>, state: SstvMenuState, labels: Seq<(String, String)>) -> bool {
    let items = menu.items@;
    let n = state.folder_keys@.len();
    &&& menu.label@ == label_of(labels, "menu-file"@)
    &&& items.len() == n + 2
    &&& forall|i: int|
        0 <= i < n ==> command(
            #[trigger] items[i],
            label_of(labels, state.folder_keys@[i]@),
            SstvAction::Reveal(i as usize),
        )
    &&& items[n as int] is Separator
    &&& command(items[n as int + 1], label_of(labels, "menu-quit"@), SstvAction::Quit)
}

/// The View menu: zooming in, out, and back.
pub open spec fn view_menu(menu: Menu<SstvAction>, state: SstvMenuState, labels: Seq<(String, String)>) -> bool {
    let items = menu.items@;
    &&& menu.label@ == label_of(labels, "menu-view"@)
    &&& items.len() == 3
    &&& command(items[0], label_of(labels, "menu-zoom-in"@), SstvAction::ZoomIn)
    &&& command(items[1], label_of(labels, "menu-zoom-out"@), SstvAction::ZoomOut)
    &&& command(items[2], state.zoom_reset_label@, SstvAction::ZoomReset)
}

/// The history submenu: saving automatically, then each format.
pub open spec fn history_entries(
    items: Seq<Item<SstvAction>>,
    state: SstvMenuState,
    labels: Seq<(String, String)>,
) -> bool {
    let n = state.history_format_keys@.len();
    &&& items.len() == n + 2
    &&& check(items[0], label_of(labels, "action-auto-history"@), state.auto_history, SstvAction::ToggleAutoHistory)
    &&& items[1] is Separator
    &&& forall|i: int|
        0 <= i < n ==> check(
            #[trigger] items[i + 2],
            label_of(labels, state.history_format_keys@[i]@),
            state.history_format == i,
            SstvAction::SelectHistoryFormat(i as usize),
        )
}

/// The language submenu: each language, the one in use checked.
pub open spec fn locale_entries(items: Seq<Item<SstvAction>>, state: SstvMenuState) -> bool {
    &&& items.len() == state.locales@.len()
    &&& forall|i: int|
        0 <= i < items.len() ==> check(
            #[trigger] items[i],
            state.locales@[i]@,
            state.locale == i,
            SstvAction::SelectLocale(i as usize),
        )
}

/// The Settings menu.
pub open spec fn settings_menu(menu: Menu<SstvAction>, state: SstvMenuState, labels: Seq<(String, String)>) -> bool {
    let items = menu.items@;
    let l = |key: Seq<char>| label_of(labels, key);
    &&& menu.label@ == l("menu-settings"@)
    &&& items.len() == 12
    &&& command(items[0], l("menu-station"@), SstvAction::ShowStation)
    &&& command(items[1], l("menu-custom-variables"@), SstvAction::ShowCustomVariables)
    &&& items[2] is Separator
    &&& (submenu(items[3], l("input-device"@)) matches Some(inputs) && device_entries(
        inputs,
        state.devices@,
        state.device,
        l("status-no-audio"@),
        false,
    ))
    &&& (submenu(items[4], l("output-device"@)) matches Some(outputs) && device_entries(
        outputs,
        state.output_devices@,
        state.output_device,
        l("status-no-output"@),
        true,
    ))
    &&& (submenu(items[5], l("menu-transmit"@)) matches Some(transmit) && transmit.len() == 2 && check(
        transmit[0],
        l("action-send-fskid"@),
        state.send_fskid,
        SstvAction::ToggleSendFskid,
    ) && check(transmit[1], l("action-contest-mode"@), state.contest_mode, SstvAction::ToggleContestMode))
    &&& (submenu(items[6], l("menu-receive"@)) matches Some(receive) && receive.len() == 2 && check(
        receive[0],
        l("action-vis-restart"@),
        state.vis_restart,
        SstvAction::ToggleVisRestart,
    ) && check(receive[1], l("action-vis-strict"@), state.vis_strict, SstvAction::ToggleVisStrict))
    &&& (submenu(items[7], l("menu-history"@)) matches Some(history) && history_entries(history, state, labels))
    &&& (submenu(items[8], l("menu-contact"@)) matches Some(contact) && contact.len() == 2 && check(
        contact[0],
        l("action-contact-lookup"@),
        state.contact_lookup,
        SstvAction::ToggleContactLookup,
    ) && command(contact[1], l("action-contact-write-credentials"@), SstvAction::WriteContactCredentials))
    &&& (submenu(items[9], l("menu-rig"@)) matches Some(rig) && rig.len() == 2 && command(
        rig[0],
        l("action-rig-write-script"@),
        SstvAction::WriteRigScript,
    ) && command(rig[1], l("action-rig-write-bands"@), SstvAction::WriteBandPlan))
    &&& items[10] is Separator
    &&& (submenu(items[11], l("menu-language"@)) matches Some(languages) && locale_entries(languages, state))
}

/// The Help menu: the manual, and nothing else.
pub open spec fn help_menu(menu: Menu<SstvAction>, labels: Seq<(String, String)>) -> bool {
    &&& menu.label@ == label_of(labels, "menu-help"@)
    &&& menu.items@.len() == 1
    &&& command(menu.items@[0], label_of(labels, "menu-manual"@), SstvAction::OpenManual)
}

fn command_item(labels: &[(String, String)], key: &str, action: SstvAction) -> (item: Item<SstvAction>)
    ensures
        command(item, label_of(labels@, key@), action),
{
    Item::Command { label: text_for(labels, key), action }
}

fn check_item(labels: &[(String, String)], key: &str, checked: bool, action: SstvAction) -> (item: Item<
    SstvAction,
>)
    ensures
        check(item, label_of(labels@, key@), checked, action),
{
    Item::Check { label: text_for(labels, key), checked, action }
}

fn submenu_item(labels: &[(String, String)], key: &str, items: Vec<Item<SstvAction>>) -> (item: Item<
    SstvAction,
>)
    ensures
        submenu(item, label_of(labels@, key@)) == Some(items@),
{
    Item::Submenu { label: text_for(labels, key), items }
}

fn folder_items(state: &SstvMenuState, labels: &[(String, String)]) -> (items: Vec<Item<SstvAction>>)
    ensures
        items@.len() == state.folder_keys@.len() + 2,
        forall|i: int|
            0 <= i < state.folder_keys@.len() ==> command(
                #[trigger] items@[i],
                label_of(labels@, state.folder_keys@[i]@),
                SstvAction::Reveal(i as usize),
            ),
        items@[state.folder_keys@.len() as int] is Separator,
        command(items@[state.folder_keys@.len() as int + 1], label_of(labels@, "menu-quit"@), SstvAction::Quit),
{
    let mut items: Vec<Item<SstvAction>> = Vec::new();
    let mut i: usize = 0;
    while i < state.folder_keys.len()
        invariant
            i <= state.folder_keys@.len(),
            items@.len() == i,
            forall|j: int|
                0 <= j < i ==> command(
                    #[trigger] items@[j],
                    label_of(labels@, state.folder_keys@[j]@),
                    SstvAction::Reveal(j as usize),
                ),
        decreases state.folder_keys@.len() - i,
    {
        items.push(command_item(labels, state.folder_keys[i].as_str(), SstvAction::Reveal(i)));
        i = i + 1;
    }
    items.push(Item::Separator);
    items.push(command_item(labels, "menu-quit", SstvAction::Quit));
    items
}

fn device_items(
    devices: &Vec<String>,
    chosen: &Option<String>,
    none: String,
    output: bool,
) -> (items: Vec<Item<SstvAction>>)
    ensures
        device_entries(items@, devices@, *chosen, none@, output),
{
    let mut items: Vec<Item<SstvAction>> = Vec::new();
    if devices.len() == 0 {
        items.push(Item::Pending(none));
        return items;
    }
    let mut i: usize = 0;
    while i < devices.len()
        invariant
            i <= devices@.len(),
            items@.len() == i,
            forall|j: int|
                0 <= j < i ==> (#[trigger] items@[j] matches Item::Check { label, checked, action }
                    && label@ == devices@[j]@ && checked == names(*chosen, devices@[j]) && if output {
                    (action matches SstvAction::SelectOutputDevice(n) && n@ == devices@[j]@)
                } else {
                    (action matches SstvAction::SelectDevice(n) && n@ == devices@[j]@)
                }),
        decreases devices@.len() - i,
    {
        let name = &devices[i];
        let checked = match chosen {
            Some(c) => same_text(c.as_str(), name.as_str()),
            None => false,
        };
        let action = if output {
            SstvAction::SelectOutputDevice(name.clone())
        } else {
            SstvAction::SelectDevice(name.clone())
        };
        items.push(Item::Check { label: name.clone(), checked, action });
        i = i + 1;
    }
    items
}

fn history_items(state: &SstvMenuState, labels: &[(String, String)]) -> (items: Vec<Item<SstvAction>>)
    ensures
        history_entries(items@, *state, labels@),
{
    let mut items: Vec<Item<SstvAction>> = Vec::new();
    items.push(check_item(labels, "action-auto-history", state.auto_history, SstvAction::ToggleAutoHistory));
    items.push(Item::Separator);
    let mut i: usize = 0;
    while i < state.history_format_keys.len()
        invariant
            i <= state.history_format_keys@.len(),
            items@.len() == i + 2,
            check(
                items@[0],
                label_of(labels@, "action-auto-history"@),
                state.auto_history,
                SstvAction::ToggleAutoHistory,
            ),
            items@[1] is Separator,
            forall|j: int|
                0 <= j < i ==> check(
                    #[trigger] items@[j + 2],
                    label_of(labels@, state.history_format_keys@[j]@),
                    state.history_format == j,
                    SstvAction::SelectHistoryFormat(j as usize),
                ),
        decreases state.history_format_keys@.len() - i,
    {
        items.push(
            check_item(
                labels,
                state.history_format_keys[i].as_str(),
                state.history_format == i,
                SstvAction::SelectHistoryFormat(i),
            ),
        );
        i = i + 1;
    }
    items
}

fn locale_items(state: &SstvMenuState) -> (items: Vec<Item<SstvAction>>)
    ensures
        locale_entries(items@, *state),
{
    let mut items: Vec<Item<SstvAction>> = Vec::new();
    let mut i: usize = 0;
    while i < state.locales.len()
        invariant
            i <= state.locales@.len(),
            items@.len() == i,
            forall|j: int|
                0 <= j < i ==> check(
                    #[trigger] items@[j],
                    state.locales@[j]@,
                    state.locale == j,
                    SstvAction::SelectLocale(j as usize),
                ),
        decreases state.locales@.len() - i,
    {
        items.push(
            Item::Check { label: state.locales[i].clone(), checked: state.locale == i, action: SstvAction::SelectLocale(i) },
        );
        i = i + 1;
    }
    items
}

fn settings_items(state: &SstvMenuState, labels: &[(String, String)]) -> (menu: Menu<SstvAction>)
    ensures
        settings_menu(menu, *state, labels@),
{
    let mut items: Vec<Item<SstvAction>> = Vec::new();
    items.push(command_item(labels, "menu-station", SstvAction::ShowStation));
    items.push(command_item(labels, "menu-custom-variables", SstvAction::ShowCustomVariables));
    items.push(Item::Separator);
    let inputs = device_items(&state.devices, &state.device, text_for(labels, "status-no-audio"), false);
    items.push(submenu_item(labels, "input-device", inputs));
    let outputs = device_items(
        &state.output_devices,
        &state.output_device,
        text_for(labels, "status-no-output"),
        true,
    );
    items.push(submenu_item(labels, "output-device", outputs));
    let mut transmit: Vec<Item<SstvAction>> = Vec::new();
    transmit.push(check_item(labels, "action-send-fskid", state.send_fskid, SstvAction::ToggleSendFskid));
    transmit.push(check_item(labels, "action-contest-mode", state.contest_mode, SstvAction::ToggleContestMode));
    items.push(submenu_item(labels, "menu-transmit", transmit));
    let mut receive: Vec<Item<SstvAction>> = Vec::new();
    receive.push(check_item(labels, "action-vis-restart", state.vis_restart, SstvAction::ToggleVisRestart));
    receive.push(check_item(labels, "action-vis-strict", state.vis_strict, SstvAction::ToggleVisStrict));
    items.push(submenu_item(labels, "menu-receive", receive));
    items.push(submenu_item(labels, "menu-history", history_items(state, labels)));
    let mut contact: Vec<Item<SstvAction>> = Vec::new();
    contact.push(
        check_item(labels, "action-contact-lookup", state.contact_lookup, SstvAction::ToggleContactLookup),
    );
    contact.push(command_item(labels, "action-contact-write-credentials", SstvAction::WriteContactCredentials));
    items.push(submenu_item(labels, "menu-contact", contact));
    let mut rig: Vec<Item<SstvAction>> = Vec::new();
    rig.push(command_item(labels, "action-rig-write-script", SstvAction::WriteRigScript));
    rig.push(command_item(labels, "action-rig-write-bands", SstvAction::WriteBandPlan));
    items.push(submenu_item(labels, "menu-rig", rig));
    items.push(Item::Separator);
    items.push(submenu_item(labels, "menu-language", locale_items(state)));
    Menu { label: text_for(labels, "menu-settings"), items }
}

/// The SSTV menu as it should currently appear: File, View, Settings and
/// Help, in that order.
pub fn sstv_menu(state: &SstvMenuState, labels: &[(String, String)]) -> (menus: Vec<Menu<SstvAction>>)
    ensures
        menus@.len() == 4,
        file_menu(menus@[0], *state, labels@),
        view_menu(menus@[1], *state, labels@),
        settings_menu(menus@[2], *state, labels@),
        help_menu(menus@[3], labels@),
{
    let mut menus: Vec<Menu<SstvAction>> = Vec::new();
    menus.push(Menu { label: text_for(labels, "menu-file"), items: folder_items(state, labels) });
    let mut view: Vec<Item<SstvAction>> = Vec::new();
    view.push(command_item(labels, "menu-zoom-in", SstvAction::ZoomIn));
    view.push(command_item(labels, "menu-zoom-out", SstvAction::ZoomOut));
    view.push(Item::Command { label: state.zoom_reset_label.clone(), action: SstvAction::ZoomReset });
    menus.push(Menu { label: text_for(labels, "menu-view"), items: view });
    menus.push(settings_items(state, labels));
    let mut help: Vec<Item<SstvAction>> = Vec::new();
    help.push(command_item(labels, "menu-manual", SstvAction::OpenManual));
    menus.push(Menu { label: text_for(labels, "menu-help"), items: help });
    menus
}

} // verus!
