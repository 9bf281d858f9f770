use grayline_apps::paths::{AppPaths, CONFIG_FILE, Folder, LOG_FILE, MACRO_FILE, TEMPLATE_FILE};

fn path(components: &[&str]) -> Vec<String> {
    components.iter().map(|component| (*component).to_owned()).collect()
}

#[test]
fn the_log_is_kept_apart_from_the_roaming_data_directory() {
    let paths = AppPaths::from_roots(path(&["config"]), path(&["state"]));
    assert!(paths.log_file().starts_with(&path(&["state"])));
    assert_eq!(paths.log_file(), path(&["state", "logs", LOG_FILE]));
}

#[test]
fn the_lists_are_kept_beside_the_settings() {
    let paths = AppPaths::from_roots(path(&["home", "config"]), path(&["home", "state"]));
    assert_eq!(paths.config_file(), path(&["home", "config", CONFIG_FILE]));
    assert_eq!(paths.config_dir(), path(&["home", "config"]));
    assert_eq!(paths.macros_file(), path(&["home", "config", MACRO_FILE]));
    assert_eq!(paths.templates_file(), path(&["home", "config", TEMPLATE_FILE]));
}

#[test]
fn the_configuration_folder_is_the_directory_holding_the_file() {
    let paths = AppPaths::from_roots(path(&["config"]), path(&["state"]));
    assert_eq!(Folder::ALL, [Folder::Config]);
    assert_eq!(paths.folder(Folder::Config), path(&["config"]));
    assert_eq!(Folder::Config.label_key(), "menu-open-config");
}

#[test]
fn a_configuration_at_the_top_has_an_empty_directory() {
    let paths = AppPaths::from_roots(Vec::new(), Vec::new());
    assert_eq!(paths.config_file(), path(&[CONFIG_FILE]));
    assert!(paths.config_dir().is_empty());
    assert_eq!(paths.macros_file(), path(&[MACRO_FILE]));
}
