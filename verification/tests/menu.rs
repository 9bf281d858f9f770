use grayline_apps::menu::{Item, Menu, flatten};

#[derive(Clone, Copy, Debug, PartialEq, Eq)]
enum Action {
    Save,
    Quit,
}

fn count(items: &[Item<Action>]) -> usize {
    items
        .iter()
        .map(|item| match item {
            Item::Submenu { items, .. } => 1 + count(items),
            _ => 1,
        })
        .sum()
}

fn model() -> Vec<Menu<Action>> {
    vec![
        Menu {
            label: "file".to_owned(),
            items: vec![
                Item::Command { label: "save".to_owned(), action: Action::Save },
                Item::Separator,
                Item::Command { label: "quit".to_owned(), action: Action::Quit },
            ],
        },
        Menu {
            label: "settings".to_owned(),
            items: vec![Item::Submenu {
                label: "zoom".to_owned(),
                items: vec![
                    Item::Check { label: "large".to_owned(), checked: true, action: Action::Save },
                    Item::Submenu { label: "empty".to_owned(), items: Vec::new() },
                ],
            }],
        },
    ]
}

#[test]
fn menu_flattening_counts_every_item_including_separators() {
    let model = model();
    let expected: usize = model.iter().map(|menu| count(&menu.items)).sum();
    assert_eq!(flatten(&model).len(), expected);
    assert_eq!(expected, 6);
    assert!(
        model.iter().any(|menu| menu.items.contains(&Item::Separator)),
        "the model needs a separator for this to be worth asserting"
    );
}

#[test]
fn menu_flattening_visits_a_submenu_before_its_contents() {
    let model: Vec<Menu<Action>> = vec![Menu {
        label: "settings".to_owned(),
        items: vec![
            Item::Separator,
            Item::Submenu {
                label: "outer".to_owned(),
                items: vec![Item::Pending("inner".to_owned())],
            },
            Item::Pending("after".to_owned()),
        ],
    }];
    let flat = flatten(&model);
    assert!(matches!(flat[0], Item::Separator));
    assert!(matches!(flat[1], Item::Submenu { .. }));
    assert!(matches!(flat[2], Item::Pending(label) if label == "inner"));
    assert!(matches!(flat[3], Item::Pending(label) if label == "after"));
}

#[test]
fn the_menus_are_flattened_in_the_order_of_the_bar() {
    let model = model();
    let flat = flatten(&model);
    assert!(matches!(flat[0], Item::Command { action: Action::Save, .. }));
    assert!(matches!(flat[2], Item::Command { action: Action::Quit, .. }));
    assert!(matches!(flat[3], Item::Submenu { label, .. } if label == "zoom"));
    assert!(matches!(flat[4], Item::Check { checked: true, .. }));
    assert!(matches!(flat[5], Item::Submenu { label, .. } if label == "empty"));
    assert_eq!(flat.len(), 6);
}

#[test]
fn an_empty_bar_flattens_to_nothing() {
    let model: Vec<Menu<Action>> = Vec::new();
    assert!(flatten(&model).is_empty());
}
