use keyboard_configurator::application::key::{Key, Rect};
use keyboard_configurator::application::page::Page as AppPage;
use keyboard_configurator::color::Rgb;
use keyboard_configurator::keycode::{Keycode, Mods};
use keyboard_configurator::page::{keycode_label, keycode_text_of, layer_key_names, mods_label, Page};
use keyboard_configurator::picker::group_box::{
    allocate_rows, chosen_keys, group_visibility, max_width_for_rows, preferred_group_width, place_keys, rows_for_width, total_height_for_rows, PickerGroup, PickerGroupBox,
};
use keyboard_configurator::picker::picker_json::{scancode_labels, section_groups, PickerJsonGroup, PickerJsonKey};
use keyboard_configurator::picker::tap_hold::{modifier_key_names, Hold, TapHold};
use keyboard_configurator::text::str_starts_with;
use keyboard_configurator::strmap::StrMap;

fn key() -> Key {
    Key {
        logical: (0, 1),
        logical_name: "K01".to_string(),
        physical: Rect::new(0, 0, 1000, 1000),
        physical_name: "Esc".to_string(),
        electrical: (2, 3),
        electrical_name: "2, 3".to_string(),
        leds: vec![7],
        led_name: "7".to_string(),
        pressed: false,
        scancodes: vec![(41, "ESC".to_string()), (58, "F1".to_string())],
        background_color: Rgb::new(0, 0, 0),
        foreground_color: Rgb::new(0, 0, 0),
    }
}

fn labels() -> StrMap<String> {
    let mut l = StrMap::new();
    l.insert("ESC".to_string(), "Esc".to_string());
    l.insert("A".to_string(), "A".to_string());
    l.insert("FN".to_string(), "Fn".to_string());
    l
}

#[test]
fn application_pages() {
    let all = AppPage::iter_all();
    assert_eq!(all.len(), 8);
    assert_eq!(all[0].name(), "Layer 1");
    assert_eq!(all[7].name(), "LEDs");
    assert_eq!(AppPage::Layer3.layer(), Some(2));
    assert_eq!(AppPage::Keycaps.layer(), None);
    assert!(AppPage::Electrical.is_debug());
    assert!(!AppPage::Keycaps.is_debug());
}

#[test]
fn application_key_labels() {
    let k = key();
    let l = labels();
    assert_eq!(AppPage::Layer1.get_label(&k, &l), "Esc");
    assert_eq!(AppPage::Layer2.get_label(&k, &l), "F1");
    assert_eq!(AppPage::Keycaps.get_label(&k, &l), "Esc");
    assert_eq!(AppPage::Logical.get_label(&k, &l), "K01");
    assert_eq!(AppPage::Electrical.get_label(&k, &l), "2, 3");
    assert_eq!(AppPage::Leds.get_label(&k, &l), "7");
    assert_eq!(k.get_label(AppPage::Layer1, &l), "Esc");
}

#[test]
fn pages_and_their_message_ids() {
    let all = Page::iter_all();
    assert_eq!(all.len(), 8);
    assert_eq!(all[0].name_id(), "page-layer1");
    assert_eq!(all[4].name_id(), "page-keycaps");
    assert_eq!(Page::Layer4.layer(), Some(3));
    assert!(Page::Keycaps.is_debug());
    assert!(!Page::Layer1.is_debug());
    assert_eq!(Page::default(), Page::Layer1);
    assert_eq!(layer_key_names(), vec!["LAYER_ACCESS_1", "FN", "LAYER_ACCESS_3", "LAYER_ACCESS_4"]);
}

#[test]
fn modifier_labels() {
    assert_eq!(mods_label(Mods::empty()), "");
    assert_eq!(mods_label(Mods::ctrl()), "Left Ctrl");
    let m = Mods { ctrl: true, shift: true, alt: false, super_key: true, right: true };
    assert_eq!(mods_label(m), "Right Ctrl + Shift + Super");
    assert_eq!(Mods::from_mod_str("LEFT_ALT"), Some(Mods::alt()));
    assert_eq!(Mods::from_mod_str("RIGHT_CTRL"), Some(Mods { ctrl: true, right: true, ..Mods::empty() }));
    assert_eq!(Mods::from_mod_str("A"), None);
    assert!(m.contains(Mods::shift()));
    assert!(!m.contains(Mods::alt()));
}

#[test]
fn keycode_labels() {
    let l = labels();
    assert_eq!(keycode_label(&Keycode::Basic(Mods::empty(), "ESC".to_string()), &l), Some(vec!["Esc".to_string()]));
    assert_eq!(keycode_label(&Keycode::Basic(Mods::shift(), "A".to_string()), &l), Some(vec!["Left Shift + A".to_string()]));
    assert_eq!(keycode_label(&Keycode::Basic(Mods::shift(), "NONE".to_string()), &l), Some(vec!["Left Shift".to_string()]));
    assert_eq!(keycode_label(&Keycode::MT(Mods::ctrl(), "A".to_string()), &l), Some(vec!["Left Ctrl".to_string(), "A".to_string()]));
    assert_eq!(keycode_label(&Keycode::LT(1, "A".to_string()), &l), Some(vec!["Fn".to_string(), "A".to_string()]));
    assert_eq!(keycode_label(&Keycode::LT(0, "A".to_string()), &l), None);
    assert_eq!(keycode_label(&Keycode::Basic(Mods::empty(), "Q".to_string()), &l), None);
}

#[test]
fn page_labels_on_layers() {
    let k = key();
    let l = labels();
    let scancodes = vec![
        (41, Some(Keycode::Basic(Mods::empty(), "ESC".to_string()))),
        (7, None),
        (9, Some(Keycode::Basic(Mods::empty(), "Q".to_string()))),
    ];
    assert_eq!(Page::Layer1.get_label(&k, &scancodes, &l), vec!["Esc".to_string()]);
    assert_eq!(Page::Layer2.get_label(&k, &scancodes, &l), vec!["7".to_string()]);
    assert_eq!(
        Page::Layer3.get_label(&k, &scancodes, &l),
        vec!["Q".to_string()]
    );
    assert_eq!(Page::Keycaps.get_label(&k, &scancodes, &l), vec!["Esc".to_string()]);
    assert_eq!(Page::Logical.get_label(&k, &scancodes, &l), vec!["K01".to_string()]);
    assert_eq!(Page::Leds.get_label(&k, &scancodes, &l), vec!["7".to_string()]);
}

#[test]
fn picker_json_labels_last_wins() {
    let groups = vec![
        PickerJsonGroup {
            label: "Letters".to_string(),
            section: "Keyboard".to_string(),
            cols: 3,
            width: 1,
            keys: vec![
                PickerJsonKey { keysym: "A".to_string(), label: "a".to_string() },
                PickerJsonKey { keysym: "B".to_string(), label: "b".to_string() },
            ],
        },
        PickerJsonGroup {
            label: "More".to_string(),
            section: "Keyboard".to_string(),
            cols: 2,
            width: 2,
            keys: vec![PickerJsonKey { keysym: "A".to_string(), label: "A!".to_string() }],
        },
    ];
    let l = scancode_labels(&groups);
    assert_eq!(l.len(), 2);
    assert_eq!(l.get("A").map(|s| s.as_str()), Some("A!"));
    assert_eq!(l.get("B").map(|s| s.as_str()), Some("b"));
}

#[test]
fn rows_for_width_cases() {
    assert_eq!(rows_for_width(&vec![100, 100, 100, 100], 1000), vec![(0, 3), (3, 4)]);
    assert_eq!(rows_for_width(&vec![300, 300], 500), vec![(0, 1), (1, 2)]);
    assert_eq!(rows_for_width(&vec![600], 500), vec![(0, 0), (0, 1)]);
    assert_eq!(rows_for_width(&vec![], 500), Vec::<(usize, usize)>::new());
    assert_eq!(rows_for_width(&vec![100, 100], 264), vec![(0, 2)]);
    assert_eq!(rows_for_width(&vec![100, 100], 263), vec![(0, 1), (1, 2)]);
}

#[test]
fn row_sizes() {
    assert_eq!(total_height_for_rows(&vec![vec![10, 20], vec![5]]), 57);
    assert_eq!(total_height_for_rows(&vec![]), -32);
    assert_eq!(total_height_for_rows(&vec![vec![]]), 0);
    assert_eq!(max_width_for_rows(&vec![vec![10, 20], vec![5]]), 94);
    assert_eq!(max_width_for_rows(&vec![]), 0);
    assert_eq!(max_width_for_rows(&vec![vec![]]), -64);
}

#[test]
fn variable_width_keys_are_placed() {
    let rows = vec![vec!["A".to_string(), "B".to_string()], vec!["C".to_string()]];
    let widths = vec![(100, vec!["A".to_string()])];
    let heights = vec![(96, vec!["C".to_string()]), (10, vec!["C".to_string()])];
    let keys = place_keys(&rows, &widths, &heights);
    let got: Vec<(String, i32, i32, i32, i32)> = keys.into_iter().map(|k| (k.name, k.x, k.y, k.width, k.height)).collect();
    assert_eq!(
        got,
        vec![
            ("A".to_string(), 0, 0, 100, 48),
            ("B".to_string(), 104, 0, 48, 48),
            ("C".to_string(), 0, 52, 48, 96),
        ]
    );
}

#[test]
fn basics_and_extras_groups() {
    let b = PickerGroupBox::basics();
    assert_eq!(b.groups.len(), 9);
    assert!(matches!(&b.groups[1], PickerGroup::Basic { name, cols: 4, width: 1500, keys } if name == "Other actions" && keys.len() == 7));
    assert!(matches!(&b.groups[8], PickerGroup::Basic { name, cols: 4, width: 2000, keys } if name == "Layer keys" && keys[1] == "FN"));
    let e = PickerGroupBox::extras();
    assert_eq!(e.groups.len(), 3);
    assert!(matches!(&e.groups[0], PickerGroup::Basic { name, cols: 6, keys, .. } if name == "Additional Function Keys" && keys.len() == 12));
    assert!(matches!(&e.groups[1], PickerGroup::Basic { cols: 5, keys, .. } if keys.len() == 19));
    assert!(matches!(&e.groups[2], PickerGroup::International { .. }));
    assert_eq!(b.keys.get("ESC"), Some(&(0, 0)));
    assert_eq!(b.keys.get("ENTER"), Some(&(0, 54)));
    assert_eq!(b.keys.get("NUM_ENTER"), Some(&(2, 14)));
    assert_eq!(b.keys.get("FN"), Some(&(8, 1)));
    assert_eq!(e.keys.get("INT1"), Some(&(2, 0)));
    assert_eq!(e.keys.get("LANG1"), Some(&(2, 9)));
    assert_eq!(e.keys.len(), 49);
    assert_eq!(e.keys.get("ESC"), None);
}

#[test]
fn group_box_finds_the_last_key_of_each_name() {
    let g = |keys: &[&str]| PickerGroup::Basic {
        name: "G".to_string(),
        cols: 2,
        width: 1000,
        keys: keys.iter().map(|k| k.to_string()).collect(),
    };
    let rows = PickerGroup::VariableWidth {
        rows: vec![vec!["Z".to_string()], vec!["X".to_string(), "W".to_string()]],
        widths: Vec::new(),
        heights: Vec::new(),
        label: None,
        description_id: None,
    };
    let b = PickerGroupBox::new(vec![g(&["X", "Y"]), rows, g(&["Y"])]);
    assert_eq!(b.groups.len(), 3);
    assert_eq!(b.keys.len(), 4);
    assert_eq!(b.keys.get("X"), Some(&(1, 1)));
    assert_eq!(b.keys.get("Y"), Some(&(2, 0)));
    assert_eq!(b.keys.get("Z"), Some(&(1, 0)));
    assert_eq!(b.keys.get("W"), Some(&(1, 2)));
    assert_eq!(b.keys.get("V"), None);
}

#[test]
fn tap_hold_choices() {
    assert_eq!(modifier_key_names().len(), 8);
    assert!(str_starts_with("LEFT_CTRL", "LEFT_"));
    assert!(!str_starts_with("LEF", "LEFT_"));
    let mut t = TapHold::new();
    assert!(t.update().is_none());
    assert!(!t.tap_keys_sensitive());
    t.hold = Hold::Mods(Mods::ctrl());
    assert!(t.tap_keys_sensitive());
    let k = t.tap_key_pressed("A".to_string());
    assert!(matches!(k, Some(Keycode::MT(m, ref n)) if m == Mods::ctrl() && n == "A"));
    t.hold = Hold::Layer(1);
    assert!(matches!(t.update(), Some(Keycode::LT(1, ref n)) if n == "A"));
    let (hold, tap) = t.set_selected(vec![Keycode::MT(Mods { shift: true, right: true, ..Mods::empty() }, "B".to_string())]);
    assert_eq!(hold.len(), 1);
    assert!(matches!(&hold[0], Keycode::Basic(m, n) if *m == Mods { shift: true, right: true, ..Mods::empty() } && n == "NONE"));
    assert_eq!(tap.len(), 1);
    assert!(matches!(&tap[0], Keycode::Basic(_, n) if n == "B"));
    assert_eq!(t.keycode.as_deref(), Some("B"));
    let (hold, tap) = t.set_selected(vec![Keycode::LT(1, "C".to_string())]);
    assert!(matches!(&hold[0], Keycode::Basic(_, n) if n == "FN"));
    assert_eq!(tap.len(), 1);
    assert_eq!(t.hold, Hold::Layer(1));
    t.set_shift(true);
    assert!(t.shift);
    assert!(!t.hold_key_sensitive("LEFT_CTRL"));
    assert!(!t.hold_key_sensitive("FN"));
    let (hold, tap) = t.set_selected(vec![]);
    assert!(hold.is_empty() && tap.is_empty());
    assert_eq!(t.hold, Hold::Mods(Mods::empty()));
    assert!(t.hold_key_sensitive("LEFT_CTRL"));
    assert!(t.hold_key_sensitive("FN"));
}

#[test]
fn groups_are_allocated_row_by_row() {
    let rows = vec![vec![(100, 40), (50, 60)], vec![(30, 20)]];
    assert_eq!(allocate_rows(&rows), vec![(0, 0, 100, 40), (164, 0, 50, 60), (0, 92, 30, 20)]);
    assert_eq!(allocate_rows(&vec![]), Vec::<(i32, i32, i32, i32)>::new());
}

#[test]
fn group_box_width_and_sections() {
    assert_eq!(preferred_group_width(&vec![10, 30, 20]), 30);
    assert_eq!(preferred_group_width(&vec![]), 0);
    let group = |section: &str| PickerJsonGroup {
        label: "g".to_string(),
        section: section.to_string(),
        cols: 1,
        width: 1,
        keys: vec![],
    };
    let groups = vec![group("Keyboard"), group("Other"), group("Keyboard")];
    assert_eq!(section_groups(&groups, "Keyboard"), vec![0, 2]);
    assert_eq!(section_groups(&groups, "Other"), vec![1]);
    assert_eq!(section_groups(&groups, "None"), Vec::<usize>::new());
}

#[test]
fn groups_show_when_a_key_shows() {
    assert_eq!(
        group_visibility(&vec![vec![false, true], vec![false, false], vec![], vec![true]]),
        vec![true, false, false, true]
    );
}

#[test]
fn keycodes_written_with_raw_names() {
    assert_eq!(keycode_text_of(&Keycode::Basic(Mods::empty(), "Q".to_string())), "Q");
    assert_eq!(keycode_text_of(&Keycode::Basic(Mods::ctrl(), "Q".to_string())), "Left Ctrl + Q");
    assert_eq!(keycode_text_of(&Keycode::MT(Mods { shift: true, right: true, ..Mods::empty() }, "A".to_string())), "MT(Right Shift, A)");
    assert_eq!(keycode_text_of(&Keycode::LT(12, "B".to_string())), "LT(12, B)");
}

#[test]
fn picker_marks_keys_and_modifiers_of_plain_keycodes() {
    let names: Vec<String> = ["A", "B", "NONE", "LEFT_CTRL", "RIGHT_CTRL", "LEFT_SHIFT", "FN"].iter().map(|s| s.to_string()).collect();
    let keycodes = vec![
        Keycode::Basic(Mods { ctrl: true, shift: true, ..Mods::empty() }, "A".to_string()),
        Keycode::Basic(Mods::ctrl(), "NONE".to_string()),
        Keycode::MT(Mods::ctrl(), "B".to_string()),
        Keycode::LT(1, "B".to_string()),
    ];
    assert_eq!(chosen_keys(&names, &keycodes), vec![true, false, false, true, false, true, false]);
    let none = vec![Keycode::Basic(Mods::empty(), "NONE".to_string())];
    assert_eq!(chosen_keys(&names, &none), vec![false, false, true, false, false, false, false]);
    let right = vec![Keycode::Basic(Mods { ctrl: true, right: true, ..Mods::empty() }, "NONE".to_string())];
    assert_eq!(chosen_keys(&names, &right), vec![false, false, false, false, true, false, false]);
    assert_eq!(chosen_keys(&names, &vec![]), vec![false; 7]);
}
