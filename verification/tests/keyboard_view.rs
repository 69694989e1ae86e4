use keyboard_configurator::application::backlight::{row_visible, BacklightRow};
use keyboard_configurator::application::key::{Key, Rect};
use keyboard_configurator::application::keyboard::{
    click_key, display_name, import_keymap, keymap_importable, keymap_names_known_keys, visible_pages,
};
use keyboard_configurator::application::layout::{KeyMap, KeyMapLayer};
use keyboard_configurator::application::page::Page;
use keyboard_configurator::cli::{choose_board, match_board, matching_boards, BoardChoice, Device};
use keyboard_configurator::color::Rgb;
use keyboard_configurator::configurator_app::{phony_board_names, AppOptions};
use keyboard_configurator::selected_keys::{LayerSelection, SelectedKeys};
use keyboard_configurator::strmap::StrMap;
use keyboard_configurator::keyboard::{
    invert_f_enabled, keyboard_tabs, layers_selectable, leds_description_id, picker_sensitive,
};
use keyboard_configurator::application::keyboard::picker_selection;
use keyboard_configurator::application::keyboard::{after_matrix, refresh_pressed, refresh_step, RefreshStep};
use keyboard_configurator::matrix::Matrix;
use keyboard_configurator::picker::key_pressed_sets;
use keyboard_configurator::application::keyboard::save_extension;

fn key(logical_name: &str, electrical: (u8, u8), pressed: bool) -> Key {
    Key {
        logical: (0, 0),
        logical_name: logical_name.to_string(),
        physical: Rect::new(0, 0, 1000, 1000),
        physical_name: String::new(),
        electrical,
        electrical_name: String::new(),
        leds: Vec::new(),
        led_name: String::new(),
        pressed,
        scancodes: Vec::new(),
        background_color: Rgb::new(0, 0, 0),
        foreground_color: Rgb::new(0, 0, 0),
    }
}

#[test]
fn display_name_shows_model_after_vendor() {
    assert_eq!(display_name("Launch Configurable Keyboard", "system76/launch_1", false), "Launch Configurable Keyboard (launch_1)");
    assert_eq!(display_name("Lemur Pro", "system76/lemp9", true), "Lemur Pro (lemp9, fake)");
    assert_eq!(display_name("X", "a/b/c", false), "X (b/c)");
}

#[test]
fn visible_pages_hide_debug_pages_and_missing_layers() {
    let v = visible_pages(false, 2);
    assert_eq!(v, vec![(0, Page::Layer1), (1, Page::Layer2), (4, Page::Keycaps)]);
    let v = visible_pages(true, 4);
    assert_eq!(v.len(), 8);
    assert_eq!(v[7], (7, Page::Leds));
    let v = visible_pages(true, 0);
    assert_eq!(v, vec![(4, Page::Keycaps), (5, Page::Logical), (6, Page::Electrical), (7, Page::Leds)]);
    let v = visible_pages(false, 3);
    assert_eq!(v, vec![(0, Page::Layer1), (1, Page::Layer2), (2, Page::Layer3), (4, Page::Keycaps)]);
}

#[test]
fn click_toggles_the_single_selection() {
    assert_eq!(click_key(None, 3), Some(3));
    assert_eq!(click_key(Some(3), 3), None);
    assert_eq!(click_key(Some(2), 3), Some(3));
}

#[test]
fn selected_keys_click() {
    let mut s = SelectedKeys::new();
    assert!(s.is_empty());
    s.click(1, false, true);
    assert!(s.contains(1));
    assert_eq!(s.len(), 1);
    s.click(2, true, true);
    assert!(s.contains(1) && s.contains(2));
    assert_eq!(s.len(), 2);
    s.click(1, true, true);
    assert!(!s.contains(1) && s.contains(2));
    s.click(5, true, false);
    assert!(s.contains(5) && !s.contains(2));
    assert_eq!(s.len(), 1);
    s.click(5, false, true);
    assert!(s.is_empty());
}

#[test]
fn selected_keys_shift_click_twice_restores() {
    let mut s = SelectedKeys::new();
    s.insert(4);
    s.insert(6);
    s.click(9, true, true);
    s.click(9, true, true);
    assert_eq!(s.len(), 2);
    assert!(s.contains(4) && s.contains(6) && !s.contains(9));
    assert!(s.remove(4));
    assert!(!s.remove(4));
    assert!(!s.insert(6));
    s.clear();
    assert_eq!(s.len(), 0);
}

fn keymap(board: &str) -> KeyMap {
    let mut map = StrMap::new();
    map.insert("K01".to_string(), vec!["A".to_string(), "B".to_string()]);
    map.insert("K00".to_string(), vec!["ESC".to_string()]);
    KeyMap { board: board.to_string(), map, key_leds: StrMap::new(), layers: vec![] }
}

#[test]
fn import_keymap_sets_each_layer_in_order() {
    let keys = vec![key("K00", (0, 0), false), key("K01", (0, 1), false), key("K01", (0, 2), false)];
    let km = keymap("system76/launch_1");
    assert!(keymap_names_known_keys(&km, &keys));
    assert!(keymap_importable(&km, &keys, 0));
    let import = import_keymap(&km, "system76/launch_1", &keys, 0).unwrap();
    let got: Vec<(usize, usize, String)> = import.scancodes.into_iter().map(|s| (s.key, s.layer, s.scancode_name)).collect();
    assert_eq!(
        got,
        vec![(1, 0, "A".to_string()), (1, 1, "B".to_string()), (0, 0, "ESC".to_string())]
    );
    assert!(import.leds.is_empty());
    assert!(import.layers.is_empty());
}

#[test]
fn import_keymap_sets_key_leds_and_layer_lighting() {
    let keys = vec![key("K00", (0, 0), false), key("K01", (0, 1), false)];
    let mut km = keymap("b");
    km.key_leds.insert("K01".to_string(), Some(3));
    km.key_leds.insert("K00".to_string(), None);
    km.layers = vec![
        KeyMapLayer { mode: Some((2, 128)), brightness: 50, color: 0 },
        KeyMapLayer { mode: None, brightness: 10, color: 1 },
    ];
    assert!(keymap_importable(&km, &keys, 2));
    assert!(!keymap_importable(&km, &keys, 1));
    let import = import_keymap(&km, "b", &keys, 2).unwrap();
    assert_eq!(import.leds, vec![(1, Some(3)), (0, None)]);
    let layers: Vec<(usize, Option<(u8, u8)>, i32, usize)> =
        import.layers.iter().map(|l| (l.layer, l.mode, l.brightness, l.color)).collect();
    assert_eq!(layers, vec![(0, Some((2, 128)), 50, 0), (1, None, 10, 1)]);
    let mut unknown = keymap("b");
    unknown.map = StrMap::new();
    unknown.key_leds.insert("K09".to_string(), None);
    assert!(!keymap_names_known_keys(&unknown, &keys));
}

#[test]
fn import_keymap_of_another_board_is_refused() {
    let keys = vec![key("K00", (0, 0), false)];
    let km = keymap("system76/lemp9");
    match import_keymap(&km, "system76/launch_1", &keys, 0) {
        Err(e) => assert_eq!(e, "Keymap is for board 'system76/lemp9'"),
        Ok(_) => panic!("refusal expected"),
    }
}

#[test]
fn unknown_keys_are_found_before_import() {
    let keys = vec![key("K00", (0, 0), false)];
    assert!(!keymap_names_known_keys(&keymap("x"), &keys));
    let empty = KeyMap { board: "x".to_string(), map: StrMap::new(), key_leds: StrMap::new(), layers: vec![] };
    assert!(keymap_names_known_keys(&empty, &keys));
    assert_eq!(import_keymap(&empty, "x", &keys, 0).unwrap().scancodes.len(), 0);
}

#[test]
fn device_kind_from_flags() {
    assert_eq!(Device::new(true, true), Device::Internal);
    assert_eq!(Device::new(true, false), Device::Internal);
    assert_eq!(Device::new(false, true), Device::Usb);
    assert_eq!(Device::new(false, false), Device::Any);
    assert!(match_board(true, &Device::Any));
    assert!(match_board(false, &Device::Internal));
    assert!(!match_board(true, &Device::Internal));
    assert!(match_board(true, &Device::Usb));
    assert!(!match_board(false, &Device::Usb));
}

#[test]
fn board_choice() {
    let boards = vec![false, true, true];
    assert_eq!(matching_boards(&boards, &Device::Usb), vec![1, 2]);
    assert_eq!(matching_boards(&boards, &Device::Any), vec![0, 1, 2]);
    assert!(matches!(choose_board(&boards, &Device::Internal), BoardChoice::Only(0)));
    assert!(matches!(choose_board(&boards, &Device::Usb), BoardChoice::Ask(v) if v == vec![1, 2]));
    assert!(matches!(choose_board(&vec![false], &Device::Usb), BoardChoice::NoBoard));
    assert!(matches!(choose_board(&vec![], &Device::Any), BoardChoice::NoBoard));
}

#[test]
fn fake_keyboard_option() {
    assert_eq!(phony_board_names(None), Vec::<String>::new());
    assert_eq!(phony_board_names(Some("system76/lemp9")), vec!["system76/lemp9".to_string()]);
    assert_eq!(
        phony_board_names(Some("system76/lemp9,system76/launch_1")),
        vec!["system76/lemp9".to_string(), "system76/launch_1".to_string()]
    );
    let all = phony_board_names(Some("all"));
    assert_eq!(all.len(), 12);
    assert_eq!(all[0], "system76/addw1");
    assert_eq!(phony_board_names(Some("")), vec!["".to_string()]);
    let o = AppOptions::new(Some("a,b"), true, false);
    assert_eq!(o.phony_board_names, vec!["a".to_string(), "b".to_string()]);
    assert!(o.debug_layers);
    assert!(!o.launch_test);
}

#[test]
fn backlight_rows() {
    assert!(row_visible(BacklightRow::Mode, true, false, false));
    assert!(!row_visible(BacklightRow::Mode, false, true, true));
    assert!(row_visible(BacklightRow::Speed, true, true, false));
    assert!(!row_visible(BacklightRow::Speed, false, true, false));
    assert!(!row_visible(BacklightRow::Speed, true, false, false));
    assert!(row_visible(BacklightRow::Color, false, false, true));
    assert!(!row_visible(BacklightRow::Saturation, false, false, true));
    assert!(row_visible(BacklightRow::Saturation, false, false, false));
    assert!(row_visible(BacklightRow::Brightness, false, false, false));
}

#[test]
fn keyboard_tabs_and_descriptions() {
    assert_eq!(keyboard_tabs(true, true), vec!["testing", "keymap", "leds"]);
    assert_eq!(keyboard_tabs(false, true), vec!["keymap", "leds"]);
    assert_eq!(keyboard_tabs(false, false), vec!["keymap"]);
    assert_eq!(leds_description_id(true), "stack-leds-desc");
    assert_eq!(leds_description_id(false), "stack-leds-desc-builtin");
    assert!(invert_f_enabled(false));
    assert!(!invert_f_enabled(true));
    assert!(layers_selectable(Some("keymap"), false));
    assert!(layers_selectable(Some("leds"), true));
    assert!(!layers_selectable(Some("leds"), false));
    assert!(!layers_selectable(Some("testing"), true));
    assert!(!layers_selectable(None, true));
    assert!(picker_sensitive(2, Some(0)));
    assert!(!picker_sensitive(0, Some(0)));
    assert!(!picker_sensitive(1, None));
}

#[test]
fn picker_shows_the_selected_scancode() {
    let mut k = key("K00", (0, 0), false);
    k.scancodes = vec![(41, "ESC".to_string()), (58, "F1".to_string())];
    let keys = vec![key("K01", (0, 1), false), k];
    assert_eq!(picker_selection(&keys, Some(1), Some(1)), (Some("F1".to_string()), true));
    assert_eq!(picker_selection(&keys, Some(1), Some(2)), (None, true));
    assert_eq!(picker_selection(&keys, Some(0), Some(0)), (None, true));
    assert_eq!(picker_selection(&keys, None, Some(0)), (None, false));
    assert_eq!(picker_selection(&keys, Some(1), None), (None, false));
}

#[test]
fn refresh_reads_pressed_keys_from_the_matrix() {
    let m = Matrix::new(2, 2, vec![false, true, false, false]).unwrap();
    let mut keys = vec![key("K00", (0, 0), true), key("K01", (0, 1), false), key("K02", (5, 5), false)];
    assert!(refresh_pressed(&mut keys, &m));
    assert_eq!(keys.iter().map(|k| k.pressed).collect::<Vec<_>>(), vec![false, true, false]);
    assert!(!refresh_pressed(&mut keys, &m));
}

#[test]
fn refresh_polls_only_while_the_board_reports_its_switches() {
    assert!(matches!(refresh_step(false, Some(true)), RefreshStep::Stop));
    assert!(matches!(refresh_step(false, None), RefreshStep::Stop));
    assert!(matches!(refresh_step(true, None), RefreshStep::Wait));
    assert!(matches!(refresh_step(true, Some(false)), RefreshStep::Wait));
    assert!(matches!(refresh_step(true, Some(true)), RefreshStep::ReadMatrix));

    let mut keys = vec![key("K00", (0, 0), true), key("K01", (0, 1), false)];
    let m = Matrix::new(2, 2, vec![false, true, false, false]).unwrap();
    assert_eq!(after_matrix(&mut keys, Ok(m)), (true, true));
    assert_eq!(keys.iter().map(|k| k.pressed).collect::<Vec<_>>(), vec![false, true]);
    let m = Matrix::new(2, 2, vec![false, true, false, false]).unwrap();
    assert_eq!(after_matrix(&mut keys, Ok(m)), (true, false));
    assert_eq!(after_matrix(&mut keys, Err("no matrix".to_string())), (false, false));
    assert_eq!(keys.iter().map(|k| k.pressed).collect::<Vec<_>>(), vec![false, true]);
}

#[test]
fn picker_key_goes_to_every_selected_key() {
    let mut s = SelectedKeys::new();
    s.insert(3);
    s.insert(1);
    let mut v = s.to_vec();
    v.sort();
    assert_eq!(v, vec![1, 3]);
    let sets = key_pressed_sets(&s, Some(2), "ESC");
    let mut got: Vec<(usize, usize, String)> = sets.into_iter().map(|k| (k.key, k.layer, k.scancode_name)).collect();
    got.sort();
    assert_eq!(got, vec![(1, 2, "ESC".to_string()), (3, 2, "ESC".to_string())]);
    assert!(key_pressed_sets(&s, None, "ESC").is_empty());
    assert!(key_pressed_sets(&SelectedKeys::new(), Some(0), "ESC").is_empty());
}

#[test]
fn layer_selection_takes_clicks_only_when_selectable() {
    let mut l = LayerSelection::new();
    l.click(1, false);
    assert!(l.selected().is_empty());
    l.set_selectable(true);
    l.click(1, false);
    assert!(l.selected().contains(1));
    l.click(2, true);
    assert!(l.selected().contains(2) && !l.selected().contains(1));
    l.set_multiple(true);
    l.click(1, true);
    assert_eq!(l.selected().len(), 2);
    l.set_selectable(false);
    assert!(l.selected().is_empty());
    let mut s = SelectedKeys::new();
    s.insert(7);
    l.set_selected(s);
    assert!(l.selected().contains(7));
}

#[test]
fn saved_layouts_end_in_json() {
    assert_eq!(save_extension(None), "json");
    assert_eq!(save_extension(Some("json")), "json");
    assert_eq!(save_extension(Some("txt")), "txt.json");
    assert_eq!(save_extension(Some("JSON")), "JSON.json");
}
