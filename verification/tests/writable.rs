use loadorder::enums::{GameId, LoadOrderError};
use loadorder::game_settings::GameSettings;
use loadorder::load_order::mutable::count_active_plugins;
use loadorder::load_order::readable::{active_plugin_names, plugin_names};
use loadorder::load_order::timestamp_based::TimestampBasedLoadOrder;
use loadorder::load_order::writable::{
    activate, activate_unvalidated, deactivate, insert, set_active_plugins,
};
use loadorder::plugin::Plugin;

fn plugins() -> Vec<Plugin> {
    vec![
        Plugin::new("Morrowind.esm", true, 0),
        Plugin::with_active("Blank.esp", false, 2, true),
        Plugin::new("Blank - Different.esp", false, 3),
    ]
}

fn installed() -> Vec<Plugin> {
    vec![
        Plugin::new("Morrowind.esm", true, 10),
        Plugin::new("Blank.esm", true, 11),
        Plugin::new("Blank.esp", false, 12),
        Plugin::new("Blank - Master Dependent.esp", false, 14),
    ]
}

fn numbered(count: usize, active: bool) -> Vec<Plugin> {
    (0..count)
        .map(|index| Plugin::with_active(&format!("Blank{}.esp", index), false, index as u64, active))
        .collect()
}

#[test]
fn insert_should_put_a_master_before_the_first_plugin_that_is_none() {
    let mut plugins = plugins();

    insert(&mut plugins, Plugin::new("Blank.esm", true, 11));

    assert_eq!(
        vec!["Morrowind.esm", "Blank.esm", "Blank.esp", "Blank - Different.esp"],
        plugin_names(&plugins)
    );
}

#[test]
fn insert_should_put_other_plugins_and_a_master_among_masters_at_the_end() {
    let mut plugins = plugins();
    insert(&mut plugins, Plugin::new("Blank - Master Dependent.esp", false, 14));
    assert_eq!("Blank - Master Dependent.esp", plugins[3].name());

    let mut masters = vec![Plugin::new("Morrowind.esm", true, 0)];
    insert(&mut masters, Plugin::new("Blank.esm", true, 11));
    assert_eq!(vec!["Morrowind.esm", "Blank.esm"], plugin_names(&masters));
}

#[test]
fn activate_should_activate_a_plugin_of_the_load_order() {
    let mut plugins = plugins();

    activate(&mut plugins, "blank - different.ESP", &installed()).unwrap();

    assert_eq!(vec!["Blank.esp", "Blank - Different.esp"], active_plugin_names(&plugins));
    assert_eq!(3, plugins.len());
}

#[test]
fn activate_should_put_an_installed_plugin_into_the_load_order() {
    let mut plugins = plugins();

    activate(&mut plugins, "Blank.esm", &installed()).unwrap();

    assert_eq!(
        vec!["Morrowind.esm", "Blank.esm", "Blank.esp", "Blank - Different.esp"],
        plugin_names(&plugins)
    );
    assert_eq!(vec!["Blank.esm", "Blank.esp"], active_plugin_names(&plugins));
}

#[test]
fn activate_should_error_if_the_name_names_no_plugin() {
    let mut plugins = plugins();

    let result = activate(&mut plugins, "missing.esp", &installed());

    assert_eq!(Err(LoadOrderError::InvalidPlugin("missing.esp".to_string())), result);
    assert_eq!(vec!["Blank.esp"], active_plugin_names(&plugins));
    assert_eq!(3, plugins.len());
}

#[test]
fn activate_should_error_if_as_many_plugins_are_active_as_a_game_loads() {
    let mut plugins = numbered(256, true);
    plugins[255].deactivate();

    let result = activate(&mut plugins, "Blank255.esp", &installed());
    assert_eq!(Err(LoadOrderError::TooManyActivePlugins), result);
    assert_eq!(255, count_active_plugins(&plugins));

    let result = activate(&mut plugins, "Blank.esm", &installed());
    assert_eq!(Err(LoadOrderError::TooManyActivePlugins), result);
    assert_eq!(256, plugins.len());

    assert_eq!(Ok(()), activate(&mut plugins, "Blank7.esp", &installed()));
    assert_eq!(255, count_active_plugins(&plugins));

    plugins[0].deactivate();
    assert_eq!(Ok(()), activate(&mut plugins, "Blank255.esp", &installed()));
    assert_eq!(255, count_active_plugins(&plugins));
}

#[test]
fn activate_unvalidated_should_change_nothing_if_the_name_names_no_plugin() {
    let mut plugins = plugins();

    activate_unvalidated(&mut plugins, "missing.esp", &installed());

    assert_eq!(vec!["Blank.esp"], active_plugin_names(&plugins));
    assert_eq!(3, plugins.len());
}

#[test]
fn deactivate_should_deactivate_a_plugin_of_the_load_order() {
    let mut plugins = plugins();

    deactivate(&mut plugins, "BLANK.esp").unwrap();
    assert!(active_plugin_names(&plugins).is_empty());

    deactivate(&mut plugins, "Morrowind.esm").unwrap();
    assert!(active_plugin_names(&plugins).is_empty());
    assert_eq!(3, plugins.len());
}

#[test]
fn deactivate_should_error_if_the_load_order_has_no_such_plugin() {
    let mut plugins = plugins();

    let result = deactivate(&mut plugins, "Blank.esm");

    assert_eq!(Err(LoadOrderError::InvalidPlugin("Blank.esm".to_string())), result);
    assert_eq!(vec!["Blank.esp"], active_plugin_names(&plugins));
}

#[test]
fn set_active_plugins_should_activate_the_named_plugins_and_no_others() {
    let mut plugins = plugins();

    let names = ["Blank - Master Dependent.esp", "blank.esm", "Blank - Different.esp"];
    set_active_plugins(&mut plugins, &names, &installed()).unwrap();

    assert_eq!(
        vec![
            "Morrowind.esm",
            "Blank.esm",
            "Blank.esp",
            "Blank - Different.esp",
            "Blank - Master Dependent.esp",
        ],
        plugin_names(&plugins)
    );
    assert_eq!(
        vec!["Blank.esm", "Blank - Different.esp", "Blank - Master Dependent.esp"],
        active_plugin_names(&plugins)
    );
}

#[test]
fn set_active_plugins_should_deactivate_all_plugins_if_none_is_named() {
    let mut plugins = plugins();

    set_active_plugins(&mut plugins, &[], &installed()).unwrap();

    assert!(active_plugin_names(&plugins).is_empty());
    assert_eq!(3, plugins.len());
}

#[test]
fn set_active_plugins_should_tell_which_name_names_no_plugin() {
    let mut plugins = plugins();

    let names = ["Blank.esm", "missing.esp", "absent.esp"];
    let result = set_active_plugins(&mut plugins, &names, &installed());

    assert_eq!(Err(LoadOrderError::InvalidPlugin("missing.esp".to_string())), result);
    assert_eq!(vec!["Blank.esp"], active_plugin_names(&plugins));
    assert_eq!(3, plugins.len());
}

#[test]
fn set_active_plugins_should_error_if_more_plugins_are_named_than_a_game_loads() {
    let mut plugins = numbered(300, false);
    plugins[299].activate();
    let names: Vec<String> = (0..256).map(|index| format!("Blank{}.esp", index)).collect();
    let names: Vec<&str> = names.iter().map(String::as_str).collect();

    let result = set_active_plugins(&mut plugins, &names, &installed());
    assert_eq!(Err(LoadOrderError::TooManyActivePlugins), result);
    assert_eq!(vec!["Blank299.esp"], active_plugin_names(&plugins));

    set_active_plugins(&mut plugins, &names[0..255], &installed()).unwrap();
    assert_eq!(255, count_active_plugins(&plugins));
    assert!(!plugins[299].is_active());
    assert!(!plugins[255].is_active());
}

#[test]
fn load_order_should_change_which_plugins_are_active() {
    let settings = GameSettings::new(GameId::Morrowind, "Morrowind.esm", Vec::new());
    let mut load_order = TimestampBasedLoadOrder::with_plugins(settings, plugins());

    load_order.activate("Blank.esm", &installed()).unwrap();
    assert!(load_order.is_active("Blank.esm"));
    assert_eq!(Some(1), load_order.index_of("Blank.esm"));

    load_order.deactivate("Blank.esp").unwrap();
    assert_eq!(vec!["Blank.esm"], load_order.active_plugin_names());

    load_order.set_active_plugins(&["Blank - Different.esp"], &installed()).unwrap();
    assert_eq!(vec!["Blank - Different.esp"], load_order.active_plugin_names());

    assert!(load_order.activate("missing.esp", &installed()).is_err());
    assert!(load_order.deactivate("missing.esp").is_err());
    assert!(load_order.set_active_plugins(&["missing.esp"], &installed()).is_err());
    assert_eq!(vec!["Blank - Different.esp"], load_order.active_plugin_names());
}
