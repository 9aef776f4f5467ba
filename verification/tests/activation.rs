use loadorder::enums::GameId;
use loadorder::game_settings::GameSettings;
use loadorder::load_order::mutable::{
    activate_listed, count_active_plugins, deactivate_all, deactivate_excess_plugins,
    goes_by_one_of, MAX_ACTIVE_PLUGINS,
};
use loadorder::load_order::readable::{
    active_plugin_names, find_first_non_master_position, index_of, is_active, plugin_at,
    plugin_names,
};
use loadorder::load_order::timestamp_based::{load_plugins_from_dir, TimestampBasedLoadOrder};
use loadorder::plugin::Plugin;

fn plugins() -> Vec<Plugin> {
    vec![
        Plugin::new("Oblivion.esm", true, 0),
        Plugin::new("Blank.esm", true, 1),
        Plugin::with_active("Blank.esp", false, 2, true),
        Plugin::new("Blank - Different.esp", false, 3),
        Plugin::new("Bl\u{e0}\u{f1}k.esp", false, 5),
    ]
}

fn strings(names: &[&str]) -> Vec<String> {
    names.iter().map(|name| name.to_string()).collect()
}

fn numbered(count: usize, active: bool) -> Vec<Plugin> {
    (0..count)
        .map(|index| Plugin::with_active(&format!("Blank{}.esp", index), false, index as u64, active))
        .collect()
}

#[test]
fn plugin_should_keep_what_it_is_made_of() {
    let mut plugin = Plugin::new("Blank.esm", true, 7);

    assert_eq!("Blank.esm", plugin.name());
    assert!(plugin.is_master_file());
    assert_eq!(7, plugin.modification_time());
    assert!(!plugin.is_active());

    plugin.activate();
    assert!(plugin.is_active());
    plugin.set_modification_time(67);
    assert_eq!(67, plugin.modification_time());
    plugin.deactivate();
    assert!(!plugin.is_active());
    assert_eq!("Blank.esm", plugin.name());
    assert!(plugin.is_master_file());

    assert!(Plugin::with_active("Blank.esp", false, 7, true).is_active());
}

#[test]
fn plugin_name_matches_should_not_mind_case() {
    let plugin = Plugin::new("Bl\u{e0}\u{f1}k.esp", false, 7);

    assert!(plugin.name_matches("Bl\u{e0}\u{f1}k.esp"));
    assert!(plugin.name_matches("BL\u{c0}\u{d1}K.ESP"));
    assert!(!plugin.name_matches("Blank.esp"));
    assert!(!plugin.name_matches("Bl\u{e0}\u{f1}k.esp.ghost"));
    assert!(!plugin.name_matches(""));
}

#[test]
fn game_settings_should_keep_what_they_are_made_of() {
    let settings =
        GameSettings::new(GameId::Skyrim, "Skyrim.esm", strings(&["Skyrim.esm", "Update.esm"]));

    assert_eq!(GameId::Skyrim, settings.id());
    assert_eq!("Skyrim.esm", settings.master_file());
    assert_eq!(&strings(&["Skyrim.esm", "Update.esm"]), settings.implicitly_active_plugins());
    assert!(!settings.id().uses_keyed_list());
    assert!(GameId::Morrowind.uses_keyed_list());
}

#[test]
fn new_should_make_an_empty_load_order() {
    let load_order =
        TimestampBasedLoadOrder::new(GameSettings::new(GameId::Oblivion, "Oblivion.esm", vec![]));

    assert!(load_order.plugins().is_empty());
    assert!(load_order.plugin_names().is_empty());
    assert_eq!(GameId::Oblivion, load_order.game_settings().id());
}

#[test]
fn readable_functions_should_look_plugins_up() {
    let plugins = plugins();

    assert_eq!(
        vec!["Oblivion.esm", "Blank.esm", "Blank.esp", "Blank - Different.esp", "Bl\u{e0}\u{f1}k.esp"],
        plugin_names(&plugins)
    );
    assert_eq!(vec!["Blank.esp"], active_plugin_names(&plugins));
    assert_eq!(Some(2), index_of(&plugins, "Blank.esp"));
    assert_eq!(Some(2), index_of(&plugins, "blank.ESP"));
    assert_eq!(Some(4), index_of(&plugins, "BL\u{c0}\u{d1}K.esp"));
    assert_eq!(None, index_of(&plugins, "missing.esp"));
    assert_eq!(Some("Blank.esm"), plugin_at(&plugins, 1));
    assert_eq!(None, plugin_at(&plugins, 5));
    assert!(is_active(&plugins, "BLANK.ESP"));
    assert!(!is_active(&plugins, "Blank.esm"));
    assert!(!is_active(&plugins, "missing.esp"));
    assert_eq!(Some(2), find_first_non_master_position(&plugins));
    assert_eq!(None, find_first_non_master_position(&plugins[0..2].to_vec()));
    assert_eq!(None, find_first_non_master_position(&Vec::new()));
}

#[test]
fn load_order_should_look_plugins_up() {
    let load_order = TimestampBasedLoadOrder::with_plugins(
        GameSettings::new(GameId::Oblivion, "Oblivion.esm", vec![]),
        plugins(),
    );

    assert_eq!(5, load_order.plugin_names().len());
    assert_eq!(vec!["Blank.esp"], load_order.active_plugin_names());
    assert_eq!(Some(1), load_order.index_of("blank.esm"));
    assert_eq!(None, load_order.index_of("missing.esp"));
    assert_eq!(Some("Oblivion.esm"), load_order.plugin_at(0));
    assert_eq!(None, load_order.plugin_at(5));
    assert!(load_order.is_active("Blank.esp"));
    assert!(!load_order.is_active("Blank.esm"));
}

#[test]
fn index_of_should_find_the_first_of_plugins_of_one_name() {
    let plugins = vec![
        Plugin::new("Blank.esp", false, 1),
        Plugin::new("blank.esp", false, 2),
        Plugin::new("BLANK.ESP", false, 3),
    ];

    assert_eq!(Some(0), index_of(&plugins, "BLANK.ESP"));
}

#[test]
fn load_plugins_from_dir_should_leave_out_what_is_no_valid_plugin() {
    let candidates = vec![
        None,
        Some(Plugin::new("Blank.esp", false, 2)),
        None,
        None,
        Some(Plugin::new("Blank.esm", true, 1)),
        Some(Plugin::new("Blank - Different.esp", false, 3)),
        None,
    ];

    let plugins = load_plugins_from_dir(candidates);

    assert_eq!(vec!["Blank.esp", "Blank.esm", "Blank - Different.esp"], plugin_names(&plugins));
    assert!(load_plugins_from_dir(vec![None, None]).is_empty());
    assert!(load_plugins_from_dir(Vec::new()).is_empty());
}

#[test]
fn deactivate_all_should_leave_no_plugin_active() {
    let mut plugins = numbered(10, true);

    deactivate_all(&mut plugins);

    assert_eq!(0, count_active_plugins(&plugins));
    assert_eq!(10, plugins.len());
}

#[test]
fn activate_listed_should_activate_the_plugins_that_are_listed() {
    let mut plugins = plugins();

    activate_listed(
        &mut plugins,
        &strings(&["bl\u{e0}\u{f1}k.ESP", "missing.esp", "Blank.esm", "Blank.esm"]),
    );

    assert_eq!(vec!["Blank.esm", "Blank.esp", "Bl\u{e0}\u{f1}k.esp"], active_plugin_names(&plugins));
    assert_eq!(5, plugins.len());
}

#[test]
fn activate_listed_should_activate_the_first_of_plugins_of_one_name() {
    let mut plugins = vec![
        Plugin::new("Blank.esp", false, 1),
        Plugin::new("blank.esp", false, 2),
    ];

    activate_listed(&mut plugins, &strings(&["blank.esp"]));

    assert!(plugins[0].is_active());
    assert!(!plugins[1].is_active());
}

#[test]
fn goes_by_one_of_should_look_for_the_name_without_minding_case() {
    let plugin = Plugin::new("Update.esm", true, 1);

    assert!(goes_by_one_of(&plugin, &strings(&["Skyrim.esm", "update.ESM"])));
    assert!(!goes_by_one_of(&plugin, &strings(&["Skyrim.esm"])));
    assert!(!goes_by_one_of(&plugin, &Vec::new()));
}

#[test]
fn deactivate_excess_plugins_should_change_nothing_if_no_more_are_active_than_the_game_loads() {
    let mut plugins = numbered(300, false);
    for plugin in plugins.iter_mut().take(MAX_ACTIVE_PLUGINS) {
        plugin.activate();
    }

    deactivate_excess_plugins(&mut plugins, &Vec::new());

    assert_eq!(255, count_active_plugins(&plugins));
    assert!(plugins[254].is_active());
    assert!(!plugins[255].is_active());
}

#[test]
fn deactivate_excess_plugins_should_deactivate_the_last_plugins_of_the_load_order() {
    let mut plugins = numbered(300, true);
    plugins[7].deactivate();

    deactivate_excess_plugins(&mut plugins, &Vec::new());

    assert_eq!(255, count_active_plugins(&plugins));
    for (index, plugin) in plugins.iter().enumerate() {
        assert_eq!(index != 7 && index < 256, plugin.is_active());
    }
}

#[test]
fn deactivate_excess_plugins_should_not_deactivate_implicitly_active_plugins() {
    let mut plugins = numbered(260, true);
    let implicit = strings(&["BLANK259.esp", "Blank257.esp", "Blank3.esp"]);

    deactivate_excess_plugins(&mut plugins, &implicit);

    assert_eq!(255, count_active_plugins(&plugins));
    for (index, plugin) in plugins.iter().enumerate() {
        let expected = index < 253 || index == 257 || index == 259;
        assert_eq!(expected, plugin.is_active());
    }
}

#[test]
fn deactivate_excess_plugins_should_leave_the_implicitly_active_plugins_if_there_are_too_many() {
    let mut plugins = numbered(260, true);
    let implicit: Vec<String> = (2..260).map(|index| format!("Blank{}.esp", index)).collect();

    deactivate_excess_plugins(&mut plugins, &implicit);

    assert_eq!(258, count_active_plugins(&plugins));
    assert!(!plugins[0].is_active());
    assert!(!plugins[1].is_active());
}

#[test]
fn load_should_activate_implicitly_active_plugins_that_are_installed() {
    let settings = GameSettings::new(
        GameId::Skyrim,
        "Skyrim.esm",
        strings(&["Skyrim.esm", "Update.esm", "Dawnguard.esm"]),
    );
    let mut load_order = TimestampBasedLoadOrder::new(settings);
    let candidates = vec![
        Some(Plugin::new("Blank.esp", false, 3)),
        Some(Plugin::new("update.esm", true, 2)),
        Some(Plugin::new("Skyrim.esm", true, 1)),
    ];
    let content: &[u8] = b"Blank.esp\n";

    load_order.load(candidates, Some(content)).unwrap();

    assert_eq!(vec!["Skyrim.esm", "update.esm", "Blank.esp"], load_order.plugin_names());
    assert_eq!(vec!["Skyrim.esm", "update.esm", "Blank.esp"], load_order.active_plugin_names());
}

#[test]
fn load_should_not_keep_the_active_plugins_of_what_is_given() {
    let settings = GameSettings::new(GameId::Oblivion, "Oblivion.esm", Vec::new());
    let mut load_order = TimestampBasedLoadOrder::with_plugins(settings, plugins());
    let candidates = vec![
        Some(Plugin::with_active("Blank.esp", false, 3, true)),
        Some(Plugin::with_active("Blank.esm", true, 2, true)),
    ];
    let content: &[u8] = b"Blank.esm\n";

    load_order.load(candidates, Some(content)).unwrap();

    assert_eq!(vec!["Blank.esm", "Blank.esp"], load_order.plugin_names());
    assert_eq!(vec!["Blank.esm"], load_order.active_plugin_names());
}

#[test]
fn load_should_yield_255_active_plugins_of_260_listed_in_the_order_of_the_list() {
    let settings = GameSettings::new(GameId::Oblivion, "Oblivion.esm", Vec::new());
    let mut load_order = TimestampBasedLoadOrder::new(settings);
    let mut candidates = vec![Some(Plugin::new("Oblivion.esm", true, 0))];
    let mut listed: Vec<String> = Vec::new();
    let mut content: Vec<u8> = Vec::new();
    for index in 0..260u64 {
        let name = format!("Blank{}.esp", index);
        candidates.push(Some(Plugin::new(&name, false, index + 1)));
        content.extend_from_slice(name.as_bytes());
        content.extend_from_slice(b"\r\n");
        listed.push(name);
    }
    candidates.reverse();

    load_order.load(candidates, Some(&content)).unwrap();

    assert_eq!(261, load_order.plugins().len());
    assert_eq!(listed[0..255].to_vec(), load_order.active_plugin_names());
}

#[test]
fn load_after_save_should_find_the_order_that_was_saved() {
    let settings = GameSettings::new(GameId::Oblivion, "Oblivion.esm", Vec::new());
    let saved = vec![
        Plugin::new("Oblivion.esm", true, 50),
        Plugin::new("Blank.esm", true, 10),
        Plugin::with_active("Blank.esp", false, 40, true),
        Plugin::new("Blank - Different.esp", false, 20),
        Plugin::with_active("Bl\u{e0}\u{f1}k.esp", false, 30, true),
    ];
    let mut load_order = TimestampBasedLoadOrder::with_plugins(settings, saved);
    let names: Vec<String> =
        load_order.plugin_names().iter().map(|name| name.to_string()).collect();

    let content = load_order.save(None).unwrap();
    let mut candidates: Vec<Option<Plugin>> =
        load_order.plugins().iter().cloned().map(Some).collect();
    candidates.reverse();
    load_order.load(candidates, Some(&content)).unwrap();

    assert_eq!(names, load_order.plugin_names());
    assert_eq!(vec!["Blank.esp", "Bl\u{e0}\u{f1}k.esp"], load_order.active_plugin_names());
    let times: Vec<u64> = load_order.plugins().iter().map(Plugin::modification_time).collect();
    assert_eq!(vec![10, 20, 30, 40, 50], times);
}

#[test]
fn load_after_save_should_find_the_order_that_was_saved_if_timestamps_were_shared() {
    let settings = GameSettings::new(GameId::Morrowind, "Morrowind.esm", Vec::new());
    let saved = vec![
        Plugin::new("Morrowind.esm", true, 7),
        Plugin::new("Blank.esm", true, 7),
        Plugin::with_active("Blank.esp", false, 7, true),
        Plugin::new("Blank - Different.esp", false, 7),
    ];
    let mut load_order = TimestampBasedLoadOrder::with_plugins(settings, saved);

    let content = load_order.save(None).unwrap();
    let candidates = load_order.plugins().iter().cloned().map(Some).collect();
    load_order.load(candidates, Some(&content)).unwrap();

    assert_eq!(
        vec!["Morrowind.esm", "Blank.esm", "Blank.esp", "Blank - Different.esp"],
        load_order.plugin_names()
    );
    assert_eq!(vec!["Blank.esp"], load_order.active_plugin_names());
    let times: Vec<u64> = load_order.plugins().iter().map(Plugin::modification_time).collect();
    assert_eq!(vec![7, 67, 127, 187], times);
    assert_eq!(b"GameFile0=Blank.esp\n".to_vec(), content);
}

#[test]
fn load_after_save_should_put_a_master_file_first_that_was_saved_behind_another_plugin() {
    let settings = GameSettings::new(GameId::Oblivion, "Oblivion.esm", Vec::new());
    let saved = vec![Plugin::new("Blank.esp", false, 1), Plugin::new("Blank.esm", true, 2)];
    let mut load_order = TimestampBasedLoadOrder::with_plugins(settings, saved);

    load_order.save(None).unwrap();
    let candidates = load_order.plugins().iter().cloned().map(Some).collect();
    load_order.load(candidates, None).unwrap();

    assert_eq!(vec!["Blank.esm", "Blank.esp"], load_order.plugin_names());
}

#[test]
fn save_should_give_the_timestamps_even_if_a_name_cannot_be_encoded() {
    let settings = GameSettings::new(GameId::Oblivion, "Oblivion.esm", Vec::new());
    let saved = vec![
        Plugin::with_active("Bl\u{4e2d}nk.esp", false, 5, true),
        Plugin::new("Blank.esp", false, 5),
    ];
    let mut load_order = TimestampBasedLoadOrder::with_plugins(settings, saved);

    assert!(load_order.save(None).is_err());

    let times: Vec<u64> = load_order.plugins().iter().map(Plugin::modification_time).collect();
    assert_eq!(vec![5, 65], times);
}

#[test]
fn plugins_mut_should_hand_out_the_plugins_of_the_load_order() {
    let settings = GameSettings::new(GameId::Oblivion, "Oblivion.esm", Vec::new());
    let mut load_order = TimestampBasedLoadOrder::with_plugins(settings, plugins());

    load_order.plugins_mut().remove(1);
    load_order.plugins_mut()[0].activate();

    assert_eq!(
        vec!["Oblivion.esm", "Blank.esp", "Blank - Different.esp", "Bl\u{e0}\u{f1}k.esp"],
        load_order.plugin_names()
    );
    assert_eq!(vec!["Oblivion.esm", "Blank.esp"], load_order.active_plugin_names());
    assert_eq!(GameId::Oblivion, load_order.game_settings().id());
}
