//! The card's files, each read from and written to its text.

use slot::store::cores::{core_for, core_for_cart, read_selected_cores, write_selected_core, Core};
use slot::store::display_prefs::{
    clear_target, legacy_from_disk, resolve_display, write_game, write_platform, DisplayField,
    DisplayPrefs, DisplayTarget,
};
use slot::store::favorites::{read_favorites, write_favorites};
use slot::store::font::{read_pixelify, write_pixelify};
use slot::store::gb::{cgb_flag, class, title, Class};
use slot::store::gba::{header_clean, header_code, header_title};
use slot::store::ini;
use slot::store::last_shelf::{read_last_shelf, write_last_shelf, write_last_shelf_stem, LastShelf};
use slot::store::lcd::{read_lcd, write_lcd};
use slot::store::migrate::{
    companion_platform, core_dir, dedupe_action, index_roms, indexed_platform, is_gb_family,
    is_known_state_dir, is_rom_to_sweep, misfiled_under_gba, core_dir_step, state_dir_step,
    CoreDirStep, StateDirEntry, StateDirStep,
    platform_for_rom, Dedupe, MigrationReport, move_step, Clash, MoveOutcome, MoveStep,
};
use slot::store::platform::Platform;
use slot::store::recents::{read_recents, touch_recent, write_recents, RECENTS_MAX};
use slot::store::ring::{is_stamp, StateRing, RING_MAX};
use slot::store::scan::{art_paths, is_hidden, sort_carts, Cart};
use slot::store::slot_state::{parse, read_slot_state, write_slot_state, SlotState};

fn value(text: &str, key: &str) -> Option<String> {
    ini::value(text, key)
}

fn get<'a>(map: &'a [(String, String)], key: &str) -> Option<&'a str> {
    map.iter().find(|(k, _)| k == key).map(|(_, v)| v.as_str())
}

// ---------------------------------------------------------------------------------------------
// ini
// ---------------------------------------------------------------------------------------------

#[test]
fn an_absent_file_is_an_empty_map_rather_than_an_error() {
    assert!(ini::read("").is_empty());
    assert_eq!(value("", "Emerald"), None);
}

#[test]
fn malformed_lines_are_skipped_rather_than_fatal() {
    let text = "\n# a comment\n; another comment\n[section]\nno equals sign here\n  Spaced Out   =   stretch  \n= orphaned\nTrailing =\n";
    let map = ini::read(text);
    assert_eq!(get(&map, "Spaced Out"), Some("stretch"));
    assert_eq!(get(&map, "Trailing"), Some(""));
    assert_eq!(map.len(), 2, "a comment or an orphan was stored");
}

#[test]
fn ini_a_later_duplicate_wins() {
    assert_eq!(value("Emerald = one\nEmerald = two\n", "Emerald").as_deref(), Some("two"));
}

#[test]
fn writing_creates_the_file_when_it_is_absent() {
    let text = ini::write("", "Emerald", "stretch");
    assert_eq!(value(&text, "Emerald").as_deref(), Some("stretch"));
}

#[test]
fn writing_replaces_one_line_and_leaves_the_rest_of_the_file_alone() {
    let before = "# my notes\n\nEmerald = actual\nMetroid Fusion = stretch\n";
    let text = ini::write(before, "Emerald", "stretch");
    assert!(text.contains("# my notes"), "a hand-written comment was destroyed");
    assert!(text.contains("\n\n"), "a blank line was closed up");
    assert!(text.contains("Metroid Fusion = stretch"), "another key's entry was lost");
    assert_eq!(text.matches("Emerald").count(), 1, "the old line was left");
}

#[test]
fn writing_appends_a_key_the_file_has_never_seen() {
    let text = ini::write("Emerald = actual\n", "Drill Dozer", "stretch");
    assert_eq!(value(&text, "Emerald").as_deref(), Some("actual"));
    assert_eq!(value(&text, "Drill Dozer").as_deref(), Some("stretch"));
}

#[test]
fn writing_collapses_a_duplicate_the_file_already_had() {
    let text = ini::write("Emerald = actual\nEmerald = stretch\n", "Emerald", "actual");
    assert_eq!(text.matches("Emerald").count(), 1);
    assert_eq!(value(&text, "Emerald").as_deref(), Some("actual"));
}

#[test]
fn remove_drops_a_key_and_leaves_the_neighbours() {
    let text = ini::remove("# keep\nEmerald = stretch\nFusion = actual\n", "Emerald");
    assert_eq!(value(&text, "Emerald"), None);
    assert_eq!(value(&text, "Fusion").as_deref(), Some("actual"));
    assert!(text.contains("# keep"));
}

#[test]
fn a_written_value_is_read_back_trimmed() {
    let text = ini::write("Other = x\n", "Key", "  spaced  ");
    assert_eq!(value(&text, "Key").as_deref(), Some("spaced"));
    assert_eq!(text, "Other = x\nKey =   spaced  \n");
}

// ---------------------------------------------------------------------------------------------
// cores
// ---------------------------------------------------------------------------------------------

#[test]
fn absent_file_means_everything_defaults() {
    assert!(read_selected_cores("").is_empty());
    assert_eq!(core_for("", "Emerald"), Core::Mgba);
}

#[test]
fn a_listed_stem_gets_its_core() {
    let text = "Pokemon - Emerald Version (USA, Europe) = gpsp\n";
    assert_eq!(core_for(text, "Pokemon - Emerald Version (USA, Europe)"), Core::Gpsp);
}

#[test]
fn an_unlisted_stem_defaults_to_mgba() {
    assert_eq!(core_for("Emerald = gpsp\n", "Metroid Fusion"), Core::Mgba);
}

#[test]
fn gb_and_gbc_always_resolve_to_gambatte() {
    for platform in [Platform::Gb, Platform::Gbc] {
        let cart = Cart {
            stem: "Tetris".into(),
            rom: "Games/Tetris.gb".into(),
            artwork: None,
            label: None,
            title: "TETRIS".into(),
            code: String::new(),
            platform,
        };
        assert_eq!(core_for_cart("Tetris = gpsp\n", &cart), Core::Gambatte);
    }
}

#[test]
fn malformed_lines_are_ignored_rather_than_fatal() {
    let text = "\n# a comment\n; another comment\n[cores]\nno equals sign here\nEmerald = notacore\n  Spaced Out   =   gpsp  \n= gpsp\nTrailing =\n";
    let map = read_selected_cores(text);
    let find = |k: &str| map.iter().find(|(s, _)| s == k).map(|(_, c)| *c);
    assert_eq!(find("Spaced Out"), Some(Core::Gpsp), "whitespace not trimmed");
    assert_eq!(find("Emerald"), None, "an unknown core name must not be stored");
    assert_eq!(core_for(text, "Emerald"), Core::Mgba);
    assert_eq!(map.len(), 1, "only the one good line should survive");
}

#[test]
fn core_a_later_duplicate_wins() {
    assert_eq!(core_for("Emerald = mgba\nEmerald = gpsp\n", "Emerald"), Core::Gpsp);
}

#[test]
fn core_names_round_trip() {
    for c in Core::ALL {
        assert_eq!(Core::parse(c.as_str()), Some(c));
    }
    assert_eq!(Core::parse("MGBA"), Some(Core::Mgba), "case is not the user's problem");
    assert_eq!(Core::parse("nonsense"), None);
    assert_eq!(Core::default(), Core::Mgba);
}

#[test]
fn writing_a_core_creates_the_file_when_absent() {
    let text = write_selected_core("", "Emerald", Core::Gpsp);
    assert_eq!(core_for(&text, "Emerald"), Core::Gpsp);
}

#[test]
fn writing_a_core_replaces_that_carts_line_and_leaves_the_rest_alone() {
    let before = "# my notes\n\nEmerald = mgba\nMetroid Fusion = gpsp\n";
    let text = write_selected_core(before, "Emerald", Core::Gpsp);
    assert!(text.contains("# my notes"), "a hand-written comment was destroyed");
    assert!(text.contains("Metroid Fusion = gpsp"), "another cart's entry was lost");
    assert_eq!(core_for(&text, "Emerald"), Core::Gpsp);
    assert_eq!(core_for(&text, "Metroid Fusion"), Core::Gpsp);
    assert_eq!(text.matches("Emerald").count(), 1, "the old line was left behind");
}

#[test]
fn writing_a_core_appends_a_cart_the_file_has_never_seen() {
    let text = write_selected_core("Emerald = gpsp\n", "Drill Dozer", Core::Gpsp);
    assert_eq!(core_for(&text, "Emerald"), Core::Gpsp);
    assert_eq!(core_for(&text, "Drill Dozer"), Core::Gpsp);
}

#[test]
fn writing_the_default_still_records_it() {
    let text = write_selected_core("Emerald = gpsp\n", "Emerald", Core::Mgba);
    assert_eq!(core_for(&text, "Emerald"), Core::Mgba);
    assert!(text.contains("Emerald = mgba"));
}

// ---------------------------------------------------------------------------------------------
// platform
// ---------------------------------------------------------------------------------------------

#[test]
fn every_platform_has_a_directory() {
    let names: Vec<&str> = Platform::ALL.iter().map(|p| p.dir_name()).collect();
    assert_eq!(names, vec!["GBA", "GB", "GBC"]);
}

#[test]
fn every_platform_is_a_shelf_of_its_own() {
    assert_eq!(Platform::ALL, [Platform::Gba, Platform::Gb, Platform::Gbc]);
    for (i, p) in Platform::ALL.iter().enumerate() {
        assert!(
            !Platform::ALL[..i].contains(p),
            "{p:?} is named twice in the ring, so two shelves would hold one platform"
        );
    }
}

#[test]
fn each_platform_takes_only_its_own_extensions() {
    assert!(Platform::Gba.accepts("Metroid Fusion.gba"));
    assert!(!Platform::Gba.accepts("Tetris.gb"));
    assert!(Platform::Gb.accepts("Tetris.gb"));
    assert!(Platform::Gb.accepts("Tetris.gbc"));
    assert!(!Platform::Gb.accepts("Metroid Fusion.gba"));
    assert!(Platform::Gba.accepts("Shrek.GBA"));
}

#[test]
fn a_directory_name_leads_back_to_its_platform() {
    for p in Platform::ALL {
        assert_eq!(Platform::from_dir_name(p.dir_name()), Some(p));
    }
    assert_eq!(Platform::from_dir_name("gba"), None);
    assert_eq!(Platform::Gba.picture(), (240, 160));
    assert_eq!(Platform::Gbc.picture(), (160, 144));
}

// ---------------------------------------------------------------------------------------------
// slot.state
// ---------------------------------------------------------------------------------------------

#[test]
fn corrupt_slot_state_reads_as_default_rather_than_panicking() {
    assert_eq!(read_slot_state("\u{0}\u{fffd} not json"), SlotState::default());
}

#[test]
fn slot_state_round_trips_including_a_stem_with_an_equals_sign() {
    let s = SlotState {
        cart: Some("Cheats = On".into()),
        brightness: 3,
        blue_light: 9,
        volume: 71,
        muted: true,
        clock_set: true,
        utc_offset_min: 0,
        rumble: true,
        ff_speed: 4,
        ff_sound: false,
        ..SlotState::default()
    };
    assert_eq!(read_slot_state(&write_slot_state(&s)), s);
}

#[test]
fn a_slot_state_missing_a_key_reads_as_default_not_half_populated() {
    assert_eq!(read_slot_state("cart=Emerald\nbrightness=3\nblue_light=1\n"), SlotState::default());
}

#[test]
fn an_out_of_range_level_reads_as_default() {
    for body in [
        "cart=\nbrightness=10\nblue_light=1\nvolume=50\n",
        "cart=\nbrightness=3\nblue_light=10\nvolume=50\n",
        "cart=\nbrightness=3\nblue_light=1\nvolume=101\n",
    ] {
        assert_eq!(read_slot_state(body), SlotState::default(), "accepted {body:?}");
    }
}

#[test]
fn a_first_boot_is_neither_dark_nor_silent() {
    let s = read_slot_state("");
    assert!(s.cart.is_none());
    assert!(s.brightness > 0, "boots with the backlight off");
    assert!(s.volume > 0, "boots muted");
}

#[test]
fn an_old_nine_step_brightness_keeps_the_same_physical_level() {
    let text =
        "cart=\nbrightness=5\nblue_light=0\nvolume=60\nmuted=0\nclock_set=1\nutc_offset_min=0\n";
    assert_eq!(read_slot_state(text).brightness, 9);
}

#[test]
fn slot_state_round_trips_a_negative_utc_offset() {
    let s = SlotState {
        cart: None,
        brightness: 5,
        blue_light: 0,
        volume: 60,
        muted: false,
        clock_set: true,
        utc_offset_min: -450,
        rumble: true,
        ff_speed: 4,
        ff_sound: false,
        ..SlotState::default()
    };
    assert_eq!(read_slot_state(&write_slot_state(&s)).utc_offset_min, -450);
}

#[test]
fn a_line_the_reader_does_not_know_is_skipped() {
    let text = "version=2\ncart=Emerald\nbrightness=3\nfrom_a_later_build=7\nblue_light=1\nvolume=40\nmuted=1\n\
         no equals sign at all\nclock_set=1\nutc_offset_min=-300\n";
    let s = read_slot_state(text);
    assert_eq!(s.cart.as_deref(), Some("Emerald"));
    assert_eq!(
        (s.brightness, s.blue_light, s.volume, s.muted, s.clock_set, s.utc_offset_min),
        (3, 1, 40, true, true, -300)
    );
}

#[test]
fn a_first_boot_keeps_the_existing_fast_forward_and_rumble_defaults() {
    let s = SlotState::default();
    assert!(s.rumble);
    assert_eq!(s.ff_speed, 4);
    assert!(!s.ff_sound);
}

#[test]
fn a_card_from_before_the_settings_keeps_all_its_values() {
    let text = "cart=Emerald\nbrightness=2\nblue_light=1\nvolume=40\nmuted=1\nclock_set=1\nutc_offset_min=-300\n";
    let s = read_slot_state(text);
    assert_eq!(s.cart.as_deref(), Some("Emerald"));
    assert_eq!((s.brightness, s.blue_light, s.volume), (3, 1, 40));
    assert!(s.muted && s.clock_set);
    assert_eq!(s.utc_offset_min, -300);
    assert!(s.rumble);
    assert_eq!(s.ff_speed, 4);
    assert!(!s.ff_sound);
}

#[test]
fn the_quick_menu_settings_round_trip_as_their_own_lines() {
    let s = SlotState { clock_set: true, rumble: false, ff_speed: 2, ff_sound: true, ..SlotState::default() };
    let text = write_slot_state(&s);
    assert_eq!(read_slot_state(&text), s);
    for line in ["rumble=0", "ff_speed=2", "ff_sound=1"] {
        assert!(text.lines().any(|written| written == line), "no {line}");
    }
}

#[test]
fn an_invalid_quick_menu_setting_falls_back_without_losing_the_rest() {
    let known = "version=2\ncart=Emerald\nbrightness=3\nblue_light=1\nvolume=40\nmuted=0\nclock_set=1\nutc_offset_min=0\n";
    for bad in [
        "rumble=2\nff_speed=5\nff_sound=9\n",
        "rumble=\nff_speed=1\nff_sound=on\n",
        "rumble=-1\nff_speed=0\nff_sound=-1\n",
        "ff_speed=x\n",
    ] {
        let s = read_slot_state(&format!("{known}{bad}"));
        assert_eq!((s.rumble, s.ff_speed, s.ff_sound), (true, 4, false));
        assert_eq!((s.cart.as_deref(), s.brightness, s.volume, s.clock_set), (Some("Emerald"), 3, 40, true));
    }
}

#[test]
fn an_offset_outside_the_range_of_real_zones_reads_as_default() {
    for body in [
        "cart=\nbrightness=5\nblue_light=0\nvolume=60\nmuted=0\nclock_set=1\nutc_offset_min=900\n",
        "cart=\nbrightness=5\nblue_light=0\nvolume=60\nmuted=0\nclock_set=1\nutc_offset_min=-780\n",
    ] {
        assert_eq!(read_slot_state(body), SlotState::default(), "{body}");
    }
}

#[test]
fn the_written_state_is_the_lines_every_build_reads() {
    let s = SlotState { cart: Some("Emerald".into()), cart_platform: Some(Platform::Gbc), ..SlotState::default() };
    assert_eq!(
        write_slot_state(&s),
        "version=2\ncart=Emerald\ncart_platform=gbc\nbrightness=5\nblue_light=0\nvolume=60\nmuted=0\nclock_set=0\nutc_offset_min=0\nrumble=1\nff_speed=4\nff_sound=0\ncolour_correction=0\ngb_overlay=1\n"
    );
    assert_eq!(parse("version=3\ncart=\nbrightness=1\nblue_light=0\nvolume=1\nmuted=0\nclock_set=0\nutc_offset_min=0\n"), None);
}

// ---------------------------------------------------------------------------------------------
// last shelf
// ---------------------------------------------------------------------------------------------

#[test]
fn the_last_shelf_selection_round_trips_separately_from_slot_state() {
    let text = write_last_shelf_stem("Pokemon = Emerald");
    assert_eq!(read_last_shelf(&text).stem.as_deref(), Some("Pokemon = Emerald"));
}

#[test]
fn a_full_highlight_round_trips_and_an_old_one_line_file_is_a_stem() {
    let shelf = LastShelf { stem: Some("Tetris".into()), category: Some(3), platform: Some(Platform::Gb) };
    let text = write_last_shelf(&shelf).unwrap();
    assert_eq!(text, "version=1\nstem=Tetris\ncategory=3\nplatform=GB\n");
    assert_eq!(read_last_shelf(&text), shelf);
    let old = read_last_shelf("Metroid Fusion\ncategory=2\n");
    assert_eq!(old, LastShelf { stem: Some("Metroid Fusion".into()), category: None, platform: None });
    assert_eq!(write_last_shelf(&LastShelf::default()), None);
}

// ---------------------------------------------------------------------------------------------
// favourites, recents, font, lcd
// ---------------------------------------------------------------------------------------------

#[test]
fn favorites_round_trip_in_sorted_order() {
    let favorites = read_favorites("Zelda\nAdvance Wars\n");
    assert_eq!(favorites, vec!["Advance Wars".to_string(), "Zelda".to_string()]);
    let text = write_favorites(&favorites);
    assert_eq!(read_favorites(&text), favorites);
    assert_eq!(text, "Advance Wars\nZelda\n");
}

#[test]
fn favourites_are_read_once_each_and_blank_lines_are_not_stems() {
    assert_eq!(read_favorites("b\n\na\nb\r\n"), vec!["a".to_string(), "b".to_string()]);
    assert!(read_favorites("").is_empty());
}

#[test]
fn missing_history_is_empty() {
    assert!(read_recents("").is_empty());
}

#[test]
fn recents_round_trip_newest_first() {
    let recents = vec!["Zelda".to_string(), "Advance Wars".to_string()];
    let text = write_recents(&recents);
    assert_eq!(read_recents(&text), recents);
    assert_eq!(text, "Zelda\nAdvance Wars\n");
}

#[test]
fn touching_promotes_without_duplicates_and_caps_the_history() {
    let mut recents = (0..RECENTS_MAX).map(|i| format!("Game {i}")).collect::<Vec<_>>();
    touch_recent(&mut recents, "Game 4");
    assert_eq!(recents[0], "Game 4");
    assert_eq!(recents.iter().filter(|stem| *stem == "Game 4").count(), 1);

    touch_recent(&mut recents, "New game");
    assert_eq!(recents[0], "New game");
    assert_eq!(recents.len(), RECENTS_MAX);
    assert!(!recents.contains(&"Game 9".to_string()));
}

#[test]
fn reading_repairs_duplicates_and_overlong_files_in_memory() {
    let text = (0..RECENTS_MAX + 2)
        .map(|i| if i == 2 { "Game 0".to_string() } else { format!("Game {i}") })
        .collect::<Vec<_>>()
        .join("\n");
    let recents = read_recents(&text);
    assert_eq!(recents.len(), RECENTS_MAX);
    assert_eq!(recents.iter().filter(|stem| *stem == "Game 0").count(), 1);
}

#[test]
fn font_choice_defaults_to_pixelify_and_round_trips() {
    assert!(read_pixelify(""));
    let text = write_pixelify(false);
    assert!(!read_pixelify(text));
    assert_eq!(text, "original\n");
    assert!(read_pixelify(write_pixelify(true)));
    assert!(read_pixelify("something else"));
}

#[test]
fn lcd_defaults_on_and_round_trips() {
    assert!(read_lcd(""));
    let text = write_lcd(false);
    assert!(!read_lcd(text));
    assert_eq!(text, "off\n");
    assert!(read_lcd(write_lcd(true)));
    assert!(read_lcd("  off-ish "));
}

// ---------------------------------------------------------------------------------------------
// display prefs
// ---------------------------------------------------------------------------------------------

#[test]
fn resolve_falls_back_to_legacy_when_display_ini_is_empty() {
    let lcd = write_lcd(false);
    let state = SlotState { colour_correction: true, gb_overlay: false, ..Default::default() };
    let state_text = write_slot_state(&state);
    let prefs = resolve_display("", Platform::Gba, Some("Emerald"), legacy_from_disk(lcd, &state_text));
    assert_eq!(prefs, DisplayPrefs { lcd: false, colour: true, overlay: false });
}

#[test]
fn platform_beats_legacy_and_game_beats_platform() {
    let text = write_platform("", Platform::Gba, DisplayField::Lcd, false);
    let text = write_game(&text, Platform::Gba, "Emerald", DisplayField::Lcd, true);
    let legacy = DisplayPrefs::built_in();
    assert!(!resolve_display(&text, Platform::Gba, None, legacy).lcd);
    assert!(resolve_display(&text, Platform::Gba, Some("Emerald"), legacy).lcd);
    assert!(!resolve_display(&text, Platform::Gba, Some("Fusion"), legacy).lcd);
}

#[test]
fn fields_resolve_independently() {
    let text = write_platform("", Platform::Gb, DisplayField::Lcd, false);
    let text = write_game(&text, Platform::Gb, "Tetris", DisplayField::Colour, true);
    let prefs = resolve_display(&text, Platform::Gb, Some("Tetris"), DisplayPrefs::built_in());
    assert!(!prefs.lcd);
    assert!(prefs.colour);
    assert!(prefs.overlay);
}

#[test]
fn clear_target_drops_keys_so_resolve_falls_through() {
    let text = write_platform("", Platform::Gba, DisplayField::Lcd, false);
    let text = write_game(&text, Platform::Gba, "Emerald", DisplayField::Lcd, true);
    let text = clear_target(&text, DisplayTarget::Game { platform: Platform::Gba, stem: "Emerald" });
    assert!(!resolve_display(&text, Platform::Gba, Some("Emerald"), DisplayPrefs::built_in()).lcd);
    let text = clear_target(&text, DisplayTarget::Platform(Platform::Gba));
    assert!(resolve_display(&text, Platform::Gba, Some("Emerald"), DisplayPrefs::built_in()).lcd);
}

#[test]
fn display_keys_and_values_are_spelled_as_the_file_has_them() {
    let text = write_game("", Platform::Gbc, "Zelda", DisplayField::Overlay, false);
    assert_eq!(text, "gbc/Zelda.overlay = off\n");
    let text = write_platform(&text, Platform::Gb, DisplayField::Colour, true);
    assert_eq!(text, "gbc/Zelda.overlay = off\ngb.colour = on\n");
    // any case, and the numeric and word spellings, all read
    let prefs = resolve_display("gba.lcd = TRUE\ngba.colour = 1\ngba.overlay = nonsense\n", Platform::Gba, None, DisplayPrefs { lcd: false, colour: false, overlay: false });
    assert_eq!(prefs, DisplayPrefs { lcd: true, colour: true, overlay: false });
}

#[test]
fn resetting_the_legacy_globals_puts_back_the_built_in_defaults() {
    let state = SlotState { colour_correction: true, gb_overlay: false, volume: 33, ..Default::default() };
    let (lcd, text) = slot::store::display_prefs::reset_legacy(&write_slot_state(&state));
    assert_eq!(lcd, "on\n");
    let back = read_slot_state(&text);
    assert!(!back.colour_correction);
    assert!(back.gb_overlay);
    assert_eq!(back.volume, 33);
}

// ---------------------------------------------------------------------------------------------
// Game Boy header
// ---------------------------------------------------------------------------------------------

#[test]
fn a_modern_cgb_header_does_not_append_the_manufacturer_code_to_the_title() {
    let mut gbc = vec![0u8; 0x150];
    gbc[0x134..0x13f].copy_from_slice(b"POKEMON RED");
    gbc[0x13f..0x143].copy_from_slice(b"ABCD");
    gbc[0x143] = 0x80;
    assert_eq!(title(&gbc).as_deref(), Some("POKEMON RED"));
    assert_eq!(class(&gbc), Class::DualMode);
}

#[test]
fn a_game_boy_header_uses_the_eleven_title_bytes_before_the_cgb_fields() {
    let mut gb = vec![0u8; 0x150];
    gb[0x134..0x144].copy_from_slice(b"SIXTEEN BYTE NAM");
    assert_eq!(title(&gb).as_deref(), Some("SIXTEEN BYT"));
}

#[test]
fn a_short_or_empty_or_garbled_header_has_no_title() {
    assert_eq!(title(&[0u8; 8]), None);
    assert_eq!(title(&vec![0u8; 0x150]), None);
    let mut rom = vec![0u8; 0x150];
    rom[0x134..0x13f].copy_from_slice(&[0xffu8; 11]);
    assert_eq!(title(&rom), None);
    let mut rom = vec![0u8; 0x150];
    rom[0x134..0x13a].copy_from_slice(b"  GOLF");
    assert_eq!(title(&rom).as_deref(), Some("GOLF"));
}

/// A GBA ROM of `0x100` bytes with `title` at the header's title field.
fn gba_rom(title: &[u8]) -> Vec<u8> {
    let mut rom = vec![0u8; 0x100];
    rom[0xa0..0xa0 + title.len()].copy_from_slice(title);
    rom
}

#[test]
fn header_title_of_a_truncated_rom_is_none_not_a_panic() {
    assert_eq!(header_title(&[0u8; 8]), None);
    assert_eq!(header_code(&[0u8; 8]), None);
}

#[test]
fn a_header_title_that_is_not_text_is_dropped_rather_than_mangled() {
    assert_eq!(header_title(&gba_rom(&[0xffu8; 12])), None);
}

#[test]
fn a_gba_header_gives_its_twelve_byte_title_and_four_character_code() {
    let mut rom = gba_rom(b"POKEMON EMER");
    rom[0xac..0xb0].copy_from_slice(b"BPEE");
    assert_eq!(header_title(&rom).as_deref(), Some("POKEMON EMER"));
    assert_eq!(header_code(&rom).as_deref(), Some("BPEE"));
    assert_eq!(header_title(&gba_rom(b"REAL")).as_deref(), Some("REAL"));
    assert_eq!(header_code(&gba_rom(b"REAL")), None);
    assert_eq!(header_clean(b" ZELDA \0\0junk").as_deref(), Some("ZELDA"));
    assert_eq!(header_clean(b"\0ZELDA"), None);
}

#[test]
fn the_cgb_flag_picks_the_cartridge() {
    let mut rom = vec![0u8; 0x150];
    assert_eq!(class(&rom), Class::Original);
    rom[0x143] = 0xc0;
    assert_eq!(cgb_flag(&rom), Some(0xc0));
    assert_eq!(class(&rom), Class::ColourOnly);
    rom[0x143] = 0x42;
    assert_eq!(class(&rom), Class::Original);
    assert_eq!(cgb_flag(&rom[..0x100]), None);
    assert_eq!(class(&rom[..0x100]), Class::Original);
}

// ---------------------------------------------------------------------------------------------
// shelf
// ---------------------------------------------------------------------------------------------

fn cart(stem: &str, platform: Platform) -> Cart {
    Cart {
        platform,
        stem: stem.to_string(),
        rom: format!("Games/{}/{stem}.gba", platform.dir_name()),
        artwork: None,
        label: None,
        title: String::new(),
        code: String::new(),
    }
}

#[test]
fn favorites_are_shelved_first_and_each_group_stays_alphabetical() {
    let mut carts = ["Crash", "Zelda", "Advance", "Boktai"]
        .iter()
        .map(|s| cart(s, Platform::Gba))
        .collect::<Vec<_>>();
    let favorites = read_favorites("Boktai\nZelda\n");
    sort_carts(&mut carts, &favorites);
    let stems: Vec<_> = carts.into_iter().map(|cart| cart.stem).collect();
    assert_eq!(stems, ["Boktai", "Zelda", "Advance", "Crash"]);
}

#[test]
fn a_stem_on_two_platforms_is_listed_platform_by_platform() {
    let mut carts = vec![cart("Tetris", Platform::Gbc), cart("Tetris", Platform::Gb), cart("Tetris", Platform::Gba)];
    sort_carts(&mut carts, &Vec::new());
    let platforms: Vec<_> = carts.iter().map(|c| c.platform).collect();
    assert_eq!(platforms, [Platform::Gba, Platform::Gb, Platform::Gbc]);
}

#[test]
fn an_appledouble_sidecar_is_hidden() {
    assert!(is_hidden("Games/._Metroid Fusion.gba"));
    assert!(!is_hidden("Games/Metroid Fusion.gba"));
    assert!(is_hidden(".hidden"));
}

#[test]
fn artwork_is_looked_for_beside_the_platform_then_loose_for_gba() {
    let (nested, loose) = art_paths("/mnt/sdcard", "Labels", Platform::Gba, false, "Emerald");
    assert_eq!(nested, "/mnt/sdcard/Labels/GBA/Emerald.png");
    assert_eq!(loose.as_deref(), Some("/mnt/sdcard/Labels/Emerald.png"));
    let (nested, loose) = art_paths("/mnt/sdcard/", "Cartridges", Platform::Gb, false, "Tetris");
    assert_eq!(nested, "/mnt/sdcard/Cartridges/GB/Tetris.png");
    assert_eq!(loose, None);
}

// ---------------------------------------------------------------------------------------------
// state ring
// ---------------------------------------------------------------------------------------------

#[test]
fn files_that_are_not_stamped_states_are_neither_listed_nor_evicted() {
    let ring = StateRing::new("/card", Platform::Gba, Core::Mgba, "Emerald");
    assert_eq!(ring.dir(), "/card/States/GBA/mgba/Emerald");
    let names = [
        "2024-01-01_10-00-00.state",
        "2024-01-01_10-00-00.png",
        "resume.state",
        "notes.txt",
        "2024-01-02_10-00-00.state",
        "resume-refused-2024-01-03_10-00-00.state",
        "2024-13-xx_10-00-00.state",
        "._2024-01-04_10-00-00.state",
    ]
    .iter()
    .map(|s| s.to_string())
    .collect::<Vec<_>>();
    let entries = ring.entries(&names);
    let stamps: Vec<_> = entries.iter().map(|e| e.stamp.as_str()).collect();
    assert_eq!(stamps, ["2024-01-02_10-00-00", "2024-01-01_10-00-00"]);
    assert_eq!(entries[1].thumb, "/card/States/GBA/mgba/Emerald/2024-01-01_10-00-00.png");
    assert_eq!(entries[1].state, "/card/States/GBA/mgba/Emerald/2024-01-01_10-00-00.state");
}

#[test]
fn eviction_is_by_stamp_not_by_write_order() {
    let ring = StateRing::new("/card", Platform::Gb, Core::Gambatte, "Tetris");
    let mut names = Vec::new();
    for n in [5, 1, 9, 3, 12, 7, 11, 2, 10, 4, 8, 6] {
        names.push(format!("2024-01-{n:02}_00-00-00.state"));
    }
    let entries = ring.entries(&names);
    assert_eq!(entries.len(), 12);
    let evicted: Vec<_> = entries.iter().skip(RING_MAX).map(|e| e.stamp.as_str()).collect();
    assert_eq!(evicted, ["2024-01-02_00-00-00", "2024-01-01_00-00-00"]);
}

#[test]
fn a_save_evicts_everything_past_the_newest_ring_max() {
    let ring = StateRing::new("/card", Platform::Gb, Core::Gambatte, "Tetris");
    let mut names = Vec::new();
    for n in [5, 1, 9, 3, 12, 7, 11, 2, 10, 4, 8, 6] {
        names.push(format!("2024-01-{n:02}_00-00-00.state"));
    }
    names.push("resume.state".to_string());
    let evicted = ring.evicted(&names);
    let stamps: Vec<_> = evicted.iter().map(|e| e.stamp.as_str()).collect();
    assert_eq!(stamps, ["2024-01-02_00-00-00", "2024-01-01_00-00-00"]);
    assert_eq!(evicted[1].state, format!("{}/2024-01-01_00-00-00.state", ring.dir()));
    assert_eq!(evicted[1].thumb, format!("{}/2024-01-01_00-00-00.png", ring.dir()));
    assert!(ring.evicted(&names[..RING_MAX].to_vec()).is_empty());
}

#[test]
fn a_destination_that_exists_is_never_written_over() {
    assert_eq!(move_step(true, Clash::KeepSource), MoveStep::Leave);
    assert_eq!(move_step(true, Clash::DropSource), MoveStep::RemoveSource);
    assert_eq!(move_step(false, Clash::KeepSource), MoveStep::Rename);
    assert_eq!(move_step(false, Clash::DropSource), MoveStep::Rename);
    let mut report = MigrationReport::default();
    report.record_move(MoveStep::Leave, MoveOutcome::Done);
    report.record_move(MoveStep::Leave, MoveOutcome::Failed);
    assert_eq!(report, MigrationReport { moved: 0, failed: 0 });
    report.record_move(MoveStep::Rename, MoveOutcome::Done);
    report.record_move(MoveStep::RemoveSource, MoveOutcome::Nothing);
    report.record_move(MoveStep::RemoveSource, MoveOutcome::Failed);
    assert_eq!(report, MigrationReport { moved: 1, failed: 1 });
}

#[test]
fn remove_refuses_anything_that_is_not_a_stamp() {
    let ring = StateRing::new("/card", Platform::Gba, Core::Gpsp, "Emerald");
    assert_eq!(ring.stamped("resume", "state"), None);
    assert_eq!(ring.stamped("../../etc", "state"), None);
    assert_eq!(
        ring.stamped("2024-05-06_07-08-09", "state").as_deref(),
        Some("/card/States/GBA/gpsp/Emerald/2024-05-06_07-08-09.state")
    );
    assert!(is_stamp("2024-05-06_07-08-09"));
    assert!(!is_stamp("2024-05-06 07-08-09"));
}

#[test]
fn a_retired_resume_is_not_a_ring_entry() {
    let ring = StateRing::new("/card", Platform::Gba, Core::Mgba, "Emerald");
    assert_eq!(ring.resume_path(), "/card/States/GBA/mgba/Emerald/resume.state");
    assert_eq!(
        ring.refused_path("2024-01-01_00-00-00", None),
        "/card/States/GBA/mgba/Emerald/resume-refused-2024-01-01_00-00-00.state"
    );
    assert_eq!(
        ring.refused_path("2024-01-01_00-00-00", Some(2)),
        "/card/States/GBA/mgba/Emerald/resume-refused-2024-01-01_00-00-00-2.state"
    );
    assert_eq!(ring.rejected_path(0), "/card/States/GBA/mgba/Emerald/resume.rejected-0.state");
    let names = vec![
        "resume-refused-2024-01-01_00-00-00.state".to_string(),
        "resume.rejected-0.state".to_string(),
        "resume.state".to_string(),
    ];
    assert!(ring.entries(&names).is_empty());
}

// ---------------------------------------------------------------------------------------------
// migration
// ---------------------------------------------------------------------------------------------

#[test]
fn platform_directories_are_not_mistaken_for_carts() {
    for name in ["mgba", "gpsp", "gambatte", "GBA", "GB", "GBC"] {
        assert!(is_known_state_dir(name), "{name}");
    }
    assert!(!is_known_state_dir("Pokemon Emerald"));
    assert!(!is_known_state_dir("gb"));
}

#[test]
fn a_loose_gb_rom_goes_to_gb_not_gba() {
    assert_eq!(platform_for_rom("Games/Tetris.gb", Class::Original), Platform::Gb);
    assert_eq!(platform_for_rom("Games/Tetris.GB", Class::DualMode), Platform::Gb);
    assert_eq!(platform_for_rom("Games/Emerald.gba", Class::ColourOnly), Platform::Gba);
    assert_eq!(platform_for_rom("Games/readme", Class::Original), Platform::Gba);
    assert!(is_rom_to_sweep("Games/Zelda.GBC"));
    assert!(!is_rom_to_sweep("Games/notes.txt"));
}

#[test]
fn a_loose_colour_only_rom_goes_to_gbc() {
    assert_eq!(platform_for_rom("Games/Zelda DX.gbc", Class::ColourOnly), Platform::Gbc);
    assert_eq!(platform_for_rom("Games/Zelda DX.gb", Class::ColourOnly), Platform::Gbc);
}

#[test]
fn a_stem_on_two_platforms_places_no_companion() {
    let found = vec![
        (Platform::Gba, "Emerald".to_string()),
        (Platform::Gb, "Tetris".to_string()),
        (Platform::Gbc, "Zelda".to_string()),
        (Platform::Gba, "Zelda".to_string()),
        (Platform::Gb, "Tetris".to_string()),
    ];
    let index = index_roms(&found);
    assert_eq!(index.len(), 2);
    assert_eq!(companion_platform(&index, "Tetris"), Platform::Gb);
    assert_eq!(companion_platform(&index, "Emerald"), Platform::Gba);
    assert_eq!(companion_platform(&index, "Zelda"), Platform::Gba);
    assert_eq!(companion_platform(&index, "Nothing"), Platform::Gba);
}

#[test]
fn only_game_boy_roms_leave_the_gba_folder() {
    assert!(is_gb_family("Games/GBA/Tetris.gb"));
    assert!(is_gb_family("Games/GBA/Zelda.GBC"));
    assert!(!is_gb_family("Games/GBA/Emerald.gba"));
    assert!(!is_gb_family("Games/GBA/README"));
}

#[test]
fn companions_under_gba_follow_a_game_boy_rom() {
    let found = vec![
        (Platform::Gba, "Emerald".to_string()),
        (Platform::Gb, "Tetris".to_string()),
        (Platform::Gbc, "Zelda".to_string()),
    ];
    let index = index_roms(&found);
    assert_eq!(indexed_platform(&index, "Zelda"), Some(Platform::Gbc));
    assert_eq!(indexed_platform(&index, "Nothing"), None);
    assert_eq!(misfiled_under_gba(&index, "Tetris"), Some(Platform::Gb));
    assert_eq!(misfiled_under_gba(&index, "Emerald"), None);
    assert_eq!(misfiled_under_gba(&index, "Nothing"), None);
}

#[test]
fn state_core_directories_are_spelled_exactly() {
    assert_eq!(core_dir("mgba"), Some(Core::Mgba));
    assert_eq!(core_dir("gambatte"), Some(Core::Gambatte));
    assert_eq!(core_dir("gpsp"), Some(Core::Gpsp));
    assert_eq!(core_dir("MGBA"), None);
    assert_eq!(core_dir("Zelda"), None);
}

#[test]
fn duplicated_gambatte_states_keep_only_the_roms_platform() {
    assert_eq!(dedupe_action(true, true, Some(Platform::Gbc)), Dedupe::RemoveGb);
    assert_eq!(dedupe_action(true, true, Some(Platform::Gb)), Dedupe::RemoveGbc);
    assert_eq!(dedupe_action(true, false, Some(Platform::Gbc)), Dedupe::MoveToGbc);
    assert_eq!(dedupe_action(false, true, Some(Platform::Gb)), Dedupe::MoveToGb);
    assert_eq!(dedupe_action(true, true, None), Dedupe::RemoveGbc);
    assert_eq!(dedupe_action(false, true, None), Dedupe::Nothing);
    assert_eq!(dedupe_action(true, true, Some(Platform::Gba)), Dedupe::Nothing);
}

#[test]
fn reports_add_up() {
    let mut r = MigrationReport::default();
    r.add(MigrationReport { moved: 2, failed: 1 });
    r.add(MigrationReport { moved: 3, failed: 0 });
    assert_eq!(r, MigrationReport { moved: 5, failed: 1 });
}

#[test]
fn what_state_migration_leaves_behind_stays_put() {
    for core in Core::ALL {
        assert!(is_known_state_dir(core.as_str()));
        assert_eq!(core_dir(core.as_str()), Some(core));
    }
    for platform in Platform::ALL {
        assert!(is_known_state_dir(platform.dir_name()));
        assert_eq!(core_dir(platform.dir_name()), None);
    }
    assert!(!is_known_state_dir("Emerald"));
}

fn dir(name: &str, dest_exists: bool) -> StateDirEntry {
    StateDirEntry::Dir { name: name.to_string(), dest_exists }
}

#[test]
fn a_pre_namespacing_state_dir_moves_under_mgba_unless_that_would_clobber() {
    assert_eq!(state_dir_step(&dir("Emerald", false)), StateDirStep::MoveToMgba);
    assert_eq!(state_dir_step(&dir("Emerald", true)), StateDirStep::Skip);
    assert_eq!(state_dir_step(&dir("mgba", false)), StateDirStep::Skip);
    assert_eq!(state_dir_step(&dir("GB", false)), StateDirStep::Skip);
    assert_eq!(state_dir_step(&StateDirEntry::NotADirectory), StateDirStep::Skip);
    assert_eq!(state_dir_step(&StateDirEntry::Unreadable), StateDirStep::Fail);
    assert_eq!(state_dir_step(&StateDirEntry::BadName), StateDirStep::Fail);
}

#[test]
fn failures_are_counted_rather_than_propagated() {
    let mut report = MigrationReport::default();
    report.record(StateDirStep::MoveToMgba, true);
    report.record(StateDirStep::MoveToMgba, false);
    report.record(StateDirStep::Fail, false);
    report.record(StateDirStep::Skip, false);
    assert_eq!(report, MigrationReport { moved: 1, failed: 2 });
    report.record_core(CoreDirStep::MoveToGba, true);
    report.record_core(CoreDirStep::SplitPerStem, true);
    report.record_core(CoreDirStep::Fail, false);
    assert_eq!(report, MigrationReport { moved: 2, failed: 3 });
}

#[test]
fn loose_core_dirs_go_under_their_platform() {
    assert_eq!(core_dir_step(&dir("mgba", false)), CoreDirStep::MoveToGba);
    assert_eq!(core_dir_step(&dir("gpsp", true)), CoreDirStep::Skip);
    assert_eq!(core_dir_step(&dir("gambatte", true)), CoreDirStep::SplitPerStem);
    assert_eq!(core_dir_step(&dir("GBA", false)), CoreDirStep::Skip);
    assert_eq!(core_dir_step(&dir("Emerald", false)), CoreDirStep::Skip);
    assert_eq!(core_dir_step(&StateDirEntry::BadName), CoreDirStep::Fail);
}

#[test]
fn rings_for_other_platforms_cores_or_stems_live_apart() {
    let a = StateRing::new("/mnt/sdcard", Platform::Gba, Core::Mgba, "Emerald");
    let b = StateRing::new("/mnt/sdcard", Platform::Gba, Core::Gpsp, "Emerald");
    let c = StateRing::new("/mnt/sdcard", Platform::Gb, Core::Mgba, "Emerald");
    let d = StateRing::new("/mnt/sdcard", Platform::Gba, Core::Mgba, "Emerald 2");
    assert_eq!(a.dir(), "/mnt/sdcard/States/GBA/mgba/Emerald");
    for other in [&b, &c, &d] {
        assert_ne!(a.dir(), other.dir());
        assert!(!other.dir().starts_with(&format!("{}/", a.dir())));
        assert!(!a.dir().starts_with(&format!("{}/", other.dir())));
    }
}
