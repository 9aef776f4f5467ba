use encoding::all::WINDOWS_1252;
use encoding::{EncoderTrap, Encoding};
use loadorder::enums::GameId;
use loadorder::game_settings::GameSettings;
use loadorder::load_order::timestamp_based::TimestampBasedLoadOrder;
use loadorder::plugin::Plugin;

/// A file in the plugins directory.
#[derive(Clone, Debug)]
struct PluginFile {
    name: String,
    is_master_file: bool,
    is_valid: bool,
    modification_time: u64,
}

/// What is on disk: the plugins directory and the active plugins file.
#[derive(Clone, Debug)]
struct Disk {
    plugin_files: Option<Vec<PluginFile>>,
    active_plugins_file: Option<Vec<u8>>,
}

impl Disk {
    fn file_mut(&mut self, name: &str) -> &mut PluginFile {
        self.plugin_files
            .as_mut()
            .unwrap()
            .iter_mut()
            .find(|file| file.name == name)
            .unwrap()
    }

    fn copy_to_test_dir(&mut self, is_master_file: bool, name: &str) {
        let files = self.plugin_files.as_mut().unwrap();
        files.retain(|file| file.name != name);
        files.push(PluginFile {
            name: name.to_string(),
            is_master_file,
            is_valid: true,
            modification_time: 100,
        });
    }

    /// The valid plugins that are installed. A file that ends in `.ghost` is
    /// the plugin of the name before it.
    fn installed(&self) -> Vec<Plugin> {
        self.candidates().into_iter().flatten().collect()
    }

    fn candidates(&self) -> Vec<Option<Plugin>> {
        match &self.plugin_files {
            Some(files) => files
                .iter()
                .map(|file| {
                    if file.is_valid {
                        let name = file.name.strip_suffix(".ghost").unwrap_or(&file.name);
                        Some(Plugin::new(name, file.is_master_file, file.modification_time))
                    } else {
                        None
                    }
                })
                .collect(),
            None => Vec::new(),
        }
    }
}

fn master_file(game_id: GameId) -> &'static str {
    match game_id {
        GameId::Morrowind => "Morrowind.esm",
        _ => "Oblivion.esm",
    }
}

fn set_timestamps(disk: &mut Disk, filenames: &[&str]) {
    for (index, filename) in filenames.iter().enumerate() {
        disk.file_mut(filename).modification_time = index as u64;
    }
}

fn write_active_plugins_file(disk: &mut Disk, game_id: GameId, filenames: &[&str]) {
    let mut content: Vec<u8> = Vec::new();
    if game_id == GameId::Morrowind {
        content.extend_from_slice(b"isrealmorrowindini=false\n");
        content.extend_from_slice(b"[Game Files]\n");
    }
    for filename in filenames {
        if game_id == GameId::Morrowind {
            content.extend_from_slice(b"GameFile0=");
        }
        content.extend_from_slice(&WINDOWS_1252.encode(filename, EncoderTrap::Strict).unwrap());
        content.push(b'\n');
    }
    disk.active_plugins_file = Some(content);
}

fn prepare(game_id: GameId) -> (Disk, TimestampBasedLoadOrder) {
    let master = master_file(game_id);
    let mut disk = Disk { plugin_files: Some(Vec::new()), active_plugins_file: None };
    disk.copy_to_test_dir(true, master);
    disk.copy_to_test_dir(true, "Blank.esm");
    disk.copy_to_test_dir(false, "Blank.esp");
    disk.copy_to_test_dir(false, "Blank - Different.esp");
    disk.copy_to_test_dir(false, "Blank - Master Dependent.esp");
    disk.copy_to_test_dir(false, "Blàñk.esp");
    set_timestamps(
        &mut disk,
        &[
            master,
            "Blank.esm",
            "Blank.esp",
            "Blank - Different.esp",
            "Blank - Master Dependent.esp",
            "Blàñk.esp",
        ],
    );

    let plugins = vec![
        Plugin::new(master, true, 0),
        Plugin::with_active("Blank.esp", false, 2, true),
        Plugin::new("Blank - Different.esp", false, 3),
    ];
    let game_settings = GameSettings::new(game_id, master, Vec::new());

    (disk, TimestampBasedLoadOrder::with_plugins(game_settings, plugins))
}

fn load(load_order: &mut TimestampBasedLoadOrder, disk: &Disk) -> Result<(), loadorder::enums::LoadOrderError> {
    load_order.load(disk.candidates(), disk.active_plugins_file.as_deref())
}

fn save(load_order: &mut TimestampBasedLoadOrder, disk: &mut Disk) -> Result<(), loadorder::enums::LoadOrderError> {
    let content = load_order.save(disk.active_plugins_file.as_deref());
    for plugin in load_order.plugins() {
        disk.file_mut(plugin.name()).modification_time = plugin.modification_time();
    }
    disk.active_plugins_file = Some(content?);
    Ok(())
}

fn to_owned(strs: Vec<&str>) -> Vec<String> {
    strs.into_iter().map(String::from).collect()
}

fn add_to_load_order(load_order: &mut TimestampBasedLoadOrder, disk: &Disk, plugin_name: &str) {
    let position = load_order.plugins().len();
    load_order.set_plugin_index(plugin_name, position, &disk.installed()).unwrap();
}

fn timestamps(load_order: &TimestampBasedLoadOrder) -> Vec<u64> {
    load_order.plugins().iter().map(Plugin::modification_time).collect()
}

#[test]
fn insert_position_should_return_none_if_given_a_non_master_plugin() {
    let (_, load_order) = prepare(GameId::Oblivion);

    let plugin = Plugin::new("Blank - Master Dependent.esp", false, 4);
    let position = load_order.insert_position(&plugin);

    assert_eq!(None, position);
}

#[test]
fn insert_position_should_return_the_first_non_master_plugin_index_if_given_a_master_plugin() {
    let (_, load_order) = prepare(GameId::Oblivion);

    let plugin = Plugin::new("Blank.esm", true, 1);
    let position = load_order.insert_position(&plugin);

    assert_eq!(1, position.unwrap());
}

#[test]
fn insert_position_should_return_none_if_no_non_masters_are_present() {
    let (_, mut load_order) = prepare(GameId::Oblivion);

    // Remove non-master plugins from the load order.
    load_order.plugins_mut().retain(|p| p.is_master_file());

    let plugin = Plugin::new("Blank.esm", true, 1);
    let position = load_order.insert_position(&plugin);

    assert_eq!(None, position);
}

#[test]
fn load_should_reload_existing_plugins() {
    let (mut disk, mut load_order) = prepare(GameId::Oblivion);

    assert!(!load_order.plugins()[1].is_master_file());
    disk.copy_to_test_dir(true, "Blank.esp");
    disk.file_mut("Blank.esp").modification_time = 0;

    load(&mut load_order, &disk).unwrap();

    assert!(load_order.plugins()[1].is_master_file());
}

#[test]
fn load_should_remove_plugins_that_fail_to_load() {
    let (mut disk, mut load_order) = prepare(GameId::Oblivion);

    assert!(load_order.index_of("Blank.esp").is_some());
    assert!(load_order.index_of("Blank - Different.esp").is_some());

    disk.file_mut("Blank.esp").is_valid = false;
    disk.file_mut("Blank.esp").modification_time = 0;

    disk.file_mut("Blank - Different.esp").is_valid = false;
    disk.file_mut("Blank - Different.esp").modification_time = 0;

    load(&mut load_order, &disk).unwrap();
    assert!(load_order.index_of("Blank.esp").is_none());
    assert!(load_order.index_of("Blank - Different.esp").is_none());
}

#[test]
fn load_should_sort_installed_plugins_into_their_timestamp_order_with_master_files_first() {
    let (mut disk, mut load_order) = prepare(GameId::Oblivion);

    set_timestamps(
        &mut disk,
        &[
            "Blank - Master Dependent.esp",
            "Blank.esm",
            "Blank - Different.esp",
            "Blank.esp",
            master_file(GameId::Oblivion),
        ],
    );

    load(&mut load_order, &disk).unwrap();

    let expected_filenames = vec![
        "Blank.esm",
        load_order.game_settings().master_file(),
        "Blank - Master Dependent.esp",
        "Blank - Different.esp",
        "Blank.esp",
        "Blàñk.esp",
    ];

    assert_eq!(expected_filenames, load_order.plugin_names());
}

#[test]
fn load_should_empty_the_load_order_if_the_plugins_directory_does_not_exist() {
    let (mut disk, mut load_order) = prepare(GameId::Oblivion);
    disk.plugin_files = None;
    disk.active_plugins_file = None;

    load(&mut load_order, &disk).unwrap();

    assert!(load_order.plugins().is_empty());
}

#[test]
fn load_should_decode_active_plugins_file_from_windows_1252() {
    let (mut disk, mut load_order) = prepare(GameId::Oblivion);

    write_active_plugins_file(&mut disk, GameId::Oblivion, &["Blàñk.esp", "Blank.esm"]);

    load(&mut load_order, &disk).unwrap();
    let expected_filenames = vec!["Blank.esm", "Blàñk.esp"];

    assert_eq!(expected_filenames, load_order.active_plugin_names());
}

#[test]
fn load_should_handle_crlf_and_lf_in_active_plugins_file() {
    let (mut disk, mut load_order) = prepare(GameId::Oblivion);

    write_active_plugins_file(&mut disk, GameId::Oblivion, &["Blàñk.esp", "Blank.esm\r"]);

    load(&mut load_order, &disk).unwrap();
    let expected_filenames = vec!["Blank.esm", "Blàñk.esp"];

    assert_eq!(expected_filenames, load_order.active_plugin_names());
}

#[test]
fn load_should_ignore_active_plugins_file_lines_starting_with_a_hash_for_oblivion() {
    let (mut disk, mut load_order) = prepare(GameId::Oblivion);

    write_active_plugins_file(
        &mut disk,
        GameId::Oblivion,
        &["#Blank.esp", "Blàñk.esp", "Blank.esm"],
    );

    load(&mut load_order, &disk).unwrap();
    let expected_filenames = vec!["Blank.esm", "Blàñk.esp"];

    assert_eq!(expected_filenames, load_order.active_plugin_names());
}

#[test]
fn load_should_ignore_plugins_in_active_plugins_file_that_are_not_installed() {
    let (mut disk, mut load_order) = prepare(GameId::Oblivion);

    write_active_plugins_file(
        &mut disk,
        GameId::Oblivion,
        &["Blàñk.esp", "Blank.esm", "missing.esp"],
    );

    load(&mut load_order, &disk).unwrap();
    let expected_filenames = vec!["Blank.esm", "Blàñk.esp"];

    assert_eq!(expected_filenames, load_order.active_plugin_names());
}

#[test]
fn load_should_load_plugin_states_from_active_plugins_file_for_oblivion() {
    let (mut disk, mut load_order) = prepare(GameId::Oblivion);

    write_active_plugins_file(&mut disk, GameId::Oblivion, &["Blàñk.esp", "Blank.esm"]);

    load(&mut load_order, &disk).unwrap();
    let expected_filenames = vec!["Blank.esm", "Blàñk.esp"];

    assert_eq!(expected_filenames, load_order.active_plugin_names());
}

#[test]
fn load_should_succeed_when_active_plugins_file_is_missing() {
    let (disk, mut load_order) = prepare(GameId::Oblivion);

    assert!(load(&mut load_order, &disk).is_ok());
    assert!(load_order.active_plugin_names().is_empty());
}

#[test]
fn load_should_load_plugin_states_from_active_plugins_file_for_morrowind() {
    let (mut disk, mut load_order) = prepare(GameId::Morrowind);

    write_active_plugins_file(&mut disk, GameId::Morrowind, &["Blàñk.esp", "Blank.esm"]);

    load(&mut load_order, &disk).unwrap();
    let expected_filenames = vec!["Blank.esm", "Blàñk.esp"];

    assert_eq!(expected_filenames, load_order.active_plugin_names());
}

#[test]
fn load_should_deactivate_excess_plugins() {
    let (mut disk, mut load_order) = prepare(GameId::Oblivion);

    let mut plugins: Vec<String> = Vec::new();
    plugins.push(load_order.game_settings().master_file().to_string());
    for i in 0..260 {
        plugins.push(format!("Blank{}.esm", i));
        disk.copy_to_test_dir(true, plugins.last().unwrap());
    }

    {
        let plugins_as_ref: Vec<&str> = plugins.iter().map(AsRef::as_ref).collect();
        write_active_plugins_file(&mut disk, GameId::Oblivion, &plugins_as_ref);
        set_timestamps(&mut disk, &plugins_as_ref);
    }

    plugins = plugins[0..255].to_vec();

    load(&mut load_order, &disk).unwrap();
    let active_plugin_names = load_order.active_plugin_names();

    assert_eq!(255, active_plugin_names.len());
    for i in 0..255 {
        assert_eq!(plugins[i], active_plugin_names[i]);
    }
    assert_eq!(plugins, active_plugin_names);
}

#[test]
fn save_should_preserve_the_existing_set_of_timestamps() {
    let (mut disk, mut load_order) = prepare(GameId::Oblivion);

    set_timestamps(
        &mut disk,
        &[
            "Blank - Master Dependent.esp",
            "Blank.esm",
            "Blank - Different.esp",
            "Blank.esp",
            master_file(GameId::Oblivion),
        ],
    );

    load(&mut load_order, &disk).unwrap();

    let mut old_timestamps: Vec<u64> = timestamps(&load_order);
    old_timestamps.sort();

    save(&mut load_order, &mut disk).unwrap();

    let timestamps: Vec<u64> = timestamps(&load_order);

    assert_eq!(old_timestamps, timestamps);
}

#[test]
fn save_should_deduplicate_plugin_timestamps() {
    let (mut disk, mut load_order) = prepare(GameId::Oblivion);

    set_timestamps(
        &mut disk,
        &[
            "Blank - Master Dependent.esp",
            "Blank.esm",
            "Blank - Different.esp",
            "Blank.esp",
            master_file(GameId::Oblivion),
        ],
    );

    // Give two files the same timestamp.
    load_order.plugins_mut()[1].set_modification_time(2);
    let name = load_order.plugins()[1].name().to_string();
    disk.file_mut(&name).modification_time = 2;

    load(&mut load_order, &disk).unwrap();

    let mut old_timestamps: Vec<u64> = timestamps(&load_order);

    save(&mut load_order, &mut disk).unwrap();

    let timestamps: Vec<u64> = timestamps(&load_order);

    assert_ne!(old_timestamps, timestamps);

    old_timestamps.sort();
    old_timestamps.dedup_by_key(|t| *t);
    let last_timestamp = *old_timestamps.last().unwrap();
    old_timestamps.push(last_timestamp + 60);

    assert_eq!(old_timestamps, timestamps);
}

#[test]
fn save_should_write_active_plugins_file_for_oblivion() {
    let (mut disk, mut load_order) = prepare(GameId::Oblivion);

    save(&mut load_order, &mut disk).unwrap();

    load(&mut load_order, &disk).unwrap();
    assert_eq!(vec!["Blank.esp"], load_order.active_plugin_names());
}

#[test]
fn save_should_write_active_plugins_file_for_morrowind() {
    let (mut disk, mut load_order) = prepare(GameId::Morrowind);

    write_active_plugins_file(&mut disk, GameId::Morrowind, &["Blàñk.esp", "Blank.esm"]);

    save(&mut load_order, &mut disk).unwrap();

    load(&mut load_order, &disk).unwrap();
    assert_eq!(vec!["Blank.esp"], load_order.active_plugin_names());

    let content = String::from_utf8(disk.active_plugins_file.clone().unwrap()).unwrap();
    assert!(content.contains("isrealmorrowindini=false\n[Game Files]\n"));
}

#[test]
fn is_self_consistent_should_return_true() {
    let (_, load_order) = prepare(GameId::Morrowind);

    assert!(load_order.is_self_consistent().unwrap());
}

#[test]
fn set_load_order_should_error_if_given_duplicate_plugins() {
    let (disk, mut load_order) = prepare(GameId::Morrowind);

    let existing_filenames = to_owned(load_order.plugin_names());
    let filenames = vec!["Blank.esp", "blank.esp"];
    assert!(load_order.set_load_order(&filenames, &disk.installed()).is_err());
    assert_eq!(existing_filenames, load_order.plugin_names());
}

#[test]
fn set_load_order_should_error_if_given_an_invalid_plugin() {
    let (disk, mut load_order) = prepare(GameId::Morrowind);

    let existing_filenames = to_owned(load_order.plugin_names());
    let filenames = vec!["Blank.esp", "missing.esp"];
    assert!(load_order.set_load_order(&filenames, &disk.installed()).is_err());
    assert_eq!(existing_filenames, load_order.plugin_names());
}

#[test]
fn set_load_order_should_error_if_given_a_list_with_plugins_before_masters() {
    let (disk, mut load_order) = prepare(GameId::Morrowind);

    let existing_filenames = to_owned(load_order.plugin_names());
    let filenames = vec!["Blank.esp", "Blank.esm"];
    assert!(load_order.set_load_order(&filenames, &disk.installed()).is_err());
    assert_eq!(existing_filenames, load_order.plugin_names());
}

#[test]
fn set_load_order_should_not_distinguish_between_ghosted_and_unghosted_filenames() {
    let (mut disk, mut load_order) = prepare(GameId::Morrowind);

    disk.copy_to_test_dir(true, "ghosted.esm.ghost");

    let filenames = vec![
        "Morrowind.esm",
        "Blank.esm",
        "ghosted.esm",
        "Blank.esp",
        "Blank - Master Dependent.esp",
        "Blank - Different.esp",
        "Blàñk.esp",
    ];

    assert!(load_order.set_load_order(&filenames, &disk.installed()).is_ok());
}

#[test]
fn set_load_order_should_not_insert_missing_plugins() {
    let (disk, mut load_order) = prepare(GameId::Morrowind);

    let filenames = vec![
        "Blank.esm",
        "Blank.esp",
        "Blank - Master Dependent.esp",
        "Blank - Different.esp",
    ];
    load_order.set_load_order(&filenames, &disk.installed()).unwrap();

    assert_eq!(filenames, load_order.plugin_names());
}

#[test]
fn set_load_order_should_not_lose_active_state_of_existing_plugins() {
    let (disk, mut load_order) = prepare(GameId::Morrowind);

    let filenames = vec![
        "Blank.esm",
        "Blank.esp",
        "Blank - Master Dependent.esp",
        "Blank - Different.esp",
    ];
    load_order.set_load_order(&filenames, &disk.installed()).unwrap();

    assert!(load_order.is_active("Blank.esp"));
}

#[test]
fn set_plugin_index_should_error_if_inserting_a_non_master_before_a_master() {
    let (disk, mut load_order) = prepare(GameId::Morrowind);

    let existing_filenames = to_owned(load_order.plugin_names());
    assert!(load_order
        .set_plugin_index("Blank - Master Dependent.esp", 0, &disk.installed())
        .is_err());
    assert_eq!(existing_filenames, load_order.plugin_names());
}

#[test]
fn set_plugin_index_should_error_if_moving_a_non_master_before_a_master() {
    let (disk, mut load_order) = prepare(GameId::Morrowind);

    let existing_filenames = to_owned(load_order.plugin_names());
    assert!(load_order.set_plugin_index("Blank.esp", 0, &disk.installed()).is_err());
    assert_eq!(existing_filenames, load_order.plugin_names());
}

#[test]
fn set_plugin_index_should_error_if_inserting_a_master_after_a_non_master() {
    let (disk, mut load_order) = prepare(GameId::Morrowind);

    let existing_filenames = to_owned(load_order.plugin_names());
    assert!(load_order.set_plugin_index("Blank.esm", 2, &disk.installed()).is_err());
    assert_eq!(existing_filenames, load_order.plugin_names());
}

#[test]
fn set_plugin_index_should_error_if_moving_a_master_after_a_non_master() {
    let (disk, mut load_order) = prepare(GameId::Morrowind);

    let existing_filenames = to_owned(load_order.plugin_names());
    assert!(load_order.set_plugin_index("Morrowind.esm", 2, &disk.installed()).is_err());
    assert_eq!(existing_filenames, load_order.plugin_names());
}

#[test]
fn set_plugin_index_should_error_if_setting_the_index_of_an_invalid_plugin() {
    let (disk, mut load_order) = prepare(GameId::Morrowind);

    let existing_filenames = to_owned(load_order.plugin_names());
    assert!(load_order.set_plugin_index("missing.esm", 0, &disk.installed()).is_err());
    assert_eq!(existing_filenames, load_order.plugin_names());
}

#[test]
fn set_plugin_index_should_insert_a_new_plugin() {
    let (disk, mut load_order) = prepare(GameId::Morrowind);

    let num_plugins = load_order.plugins().len();
    load_order.set_plugin_index("Blank.esm", 1, &disk.installed()).unwrap();
    assert_eq!(1, load_order.index_of("Blank.esm").unwrap());
    assert_eq!(num_plugins + 1, load_order.plugins().len());
}

#[test]
fn set_plugin_index_should_move_an_existing_plugin() {
    let (disk, mut load_order) = prepare(GameId::Morrowind);

    let num_plugins = load_order.plugins().len();
    load_order
        .set_plugin_index("Blank - Different.esp", 1, &disk.installed())
        .unwrap();
    assert_eq!(1, load_order.index_of("Blank - Different.esp").unwrap());
    assert_eq!(num_plugins, load_order.plugins().len());
}

#[test]
fn set_plugin_index_should_move_an_existing_plugin_later_correctly() {
    let (disk, mut load_order) = prepare(GameId::Morrowind);

    add_to_load_order(&mut load_order, &disk, "Blank - Master Dependent.esp");
    let num_plugins = load_order.plugins().len();
    load_order.set_plugin_index("Blank.esp", 2, &disk.installed()).unwrap();
    assert_eq!(2, load_order.index_of("Blank.esp").unwrap());
    assert_eq!(num_plugins, load_order.plugins().len());
}

#[test]
fn set_plugin_index_should_preserve_an_existing_plugins_active_state() {
    let (disk, mut load_order) = prepare(GameId::Morrowind);

    add_to_load_order(&mut load_order, &disk, "Blank - Master Dependent.esp");
    load_order.set_plugin_index("Blank.esp", 2, &disk.installed()).unwrap();
    assert!(load_order.is_active("Blank.esp"));

    load_order
        .set_plugin_index("Blank - Different.esp", 2, &disk.installed())
        .unwrap();
    assert!(!load_order.is_active("Blank - Different.esp"));
}
