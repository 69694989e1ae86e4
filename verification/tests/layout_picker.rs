use keyboard_configurator::application::key::Rect;
use keyboard_configurator::application::layout::meta::num_layers_default;
use keyboard_configurator::application::layout::physical_layout::{
    PhysicalKeyEnum, PhysicalKeyMeta, PhysicalLayout, PhysicalLayoutEntry, PhysicalLayoutMeta, PhysicalRow,
};
use keyboard_configurator::application::layout::{
    first_line_of, keymap_json_is_readable, layouts, read_marked_color, try_parse_keymap_json, KeyMap, Layout,
};
use keyboard_configurator::application::picker::picker_csv::{
    picker_csv_from_records, picker_csv_is_readable, records_readable, try_picker_csv, PickerCsv,
};
use keyboard_configurator::application::picker::Picker;
use keyboard_configurator::color::Rgb;
use keyboard_configurator::strmap::StrMap;

fn small_layout() -> Layout {
    let physical = PhysicalLayout(vec![
        PhysicalLayoutEntry::Meta(PhysicalLayoutMeta { name: "test".to_string(), author: "me".to_string() }),
        PhysicalLayoutEntry::Row(PhysicalRow(vec![
            PhysicalKeyEnum::Name("Esc".to_string()),
            PhysicalKeyEnum::Meta(PhysicalKeyMeta {
                x: 250,
                y: 0,
                w: Some(1500),
                h: None,
                c: Some("#ff0000".to_string()),
                t: Some("#00ff00\nfoo".to_string()),
            }),
            PhysicalKeyEnum::Name("Tab".to_string()),
        ])),
        PhysicalLayoutEntry::Row(PhysicalRow(vec![PhysicalKeyEnum::Name("A".to_string())])),
    ]);
    let mut layout = StrMap::new();
    layout.insert("K00".to_string(), (1u8, 2u8));
    layout.insert("K01".to_string(), (3u8, 4u8));
    let default = KeyMap { board: "system76/test".to_string(), map: StrMap::new(), key_leds: StrMap::new(), layers: vec![] };
    Layout::try_from_data(default, "[[\"ESC\", 41], [\"TAB\", 43]]", layout, physical).unwrap()
}

#[test]
fn layout_reads_keymap_json() {
    let l = small_layout();
    assert_eq!(l.keymap.get("ESC"), Some(&41));
    assert_eq!(l.keymap.get("TAB"), Some(&43));
    assert_eq!(l.keymap.len(), 2);
    assert_eq!(l.scancode_names.get(&41).map(|s| s.as_str()), Some("ESC"));
    assert_eq!(l.scancode_names.get(&43).map(|s| s.as_str()), Some("TAB"));
    assert_eq!(l.default.board, "system76/test");
}

#[test]
fn keymap_json_later_entries_win() {
    let (keymap, names) = try_parse_keymap_json("[[\"A\", 4], [\"B\", 4], [\"A\", 5]]").unwrap();
    assert_eq!(keymap.get("A"), Some(&5));
    assert_eq!(keymap.get("B"), Some(&4));
    assert_eq!(names.get(&4).map(|s| s.as_str()), Some("B"));
    assert_eq!(names.get(&5).map(|s| s.as_str()), Some("A"));
}

#[test]
fn unreadable_keymap_json_is_refused() {
    assert!(!keymap_json_is_readable("{\"A\": 4}"));
    assert!(try_parse_keymap_json("not json").is_none());
    assert!(try_parse_keymap_json("[[\"A\", 70000]]").is_none());
    assert!(keymap_json_is_readable("[]"));
    let physical = PhysicalLayout(vec![]);
    let default = KeyMap { board: "b".to_string(), map: StrMap::new(), key_leds: StrMap::new(), layers: vec![] };
    assert!(Layout::try_from_data(default, "[", StrMap::new(), physical).is_none());
}

#[test]
fn layout_places_keys_row_by_row() {
    let l = small_layout();
    let keys = l.keys();
    assert_eq!(keys.len(), 3);

    let esc = &keys[0];
    assert_eq!(esc.logical, (0, 0));
    assert_eq!(esc.logical_name, "K00");
    assert_eq!(esc.physical, Rect::new(0, 0, 1000, 1000));
    assert_eq!(esc.physical_name, "Esc");
    assert_eq!(esc.electrical, (1, 2));
    assert_eq!(esc.electrical_name, "1, 2");
    assert_eq!(esc.background_color, Rgb::new(0xcc, 0xcc, 0xcc));
    assert_eq!(esc.foreground_color, Rgb::new(0, 0, 0));
    assert!(esc.leds.is_empty());
    assert_eq!(esc.led_name, "");
    assert!(!esc.pressed);
    assert!(esc.scancodes.is_empty());

    let tab = &keys[1];
    assert_eq!(tab.logical, (0, 1));
    assert_eq!(tab.logical_name, "K01");
    assert_eq!(tab.physical, Rect::new(1250, 0, 1500, 1000));
    assert_eq!(tab.physical_name, "Tab");
    assert_eq!(tab.electrical, (3, 4));
    assert_eq!(tab.electrical_name, "3, 4");
    assert_eq!(tab.background_color, Rgb::new(0xff, 0, 0));
    assert_eq!(tab.foreground_color, Rgb::new(0, 0xff, 0));

    let a = &keys[2];
    assert_eq!(a.logical, (1, 0));
    assert_eq!(a.logical_name, "K10");
    assert_eq!(a.physical, Rect::new(0, -1000, 1000, 1000));
    assert_eq!(a.electrical, (0, 0));
    assert_eq!(a.electrical_name, "0, 0");
    assert_eq!(a.background_color, Rgb::new(0xff, 0, 0));
}

#[test]
fn marked_colors_and_first_lines() {
    assert_eq!(read_marked_color("#cccccc"), Some(Rgb::new(0xcc, 0xcc, 0xcc)));
    assert_eq!(read_marked_color("xABCDEF"), Some(Rgb::new(0xab, 0xcd, 0xef)));
    assert_eq!(read_marked_color("#ccc"), None);
    assert_eq!(read_marked_color(""), None);
    assert_eq!(read_marked_color("é123456"), None);
    assert_eq!(first_line_of("a\nb"), Some("a"));
    assert_eq!(first_line_of("a\r\nb"), Some("a"));
    assert_eq!(first_line_of("abc"), Some("abc"));
    assert_eq!(first_line_of("\nb"), Some(""));
    assert_eq!(first_line_of(""), None);
    for t in &["a\nb", "a\r\nb", "abc", "\nb", "", "x\r", "\r\n"] {
        assert_eq!(first_line_of(t), t.lines().next(), "{:?}", t);
    }
}

#[test]
fn layout_boards_and_default_layers() {
    let l = layouts();
    assert_eq!(l.len(), 12);
    assert_eq!(l[0], "system76/addw1");
    assert_eq!(l[8], "system76/launch_1");
    assert_eq!(l[11], "system76/oryp6");
    assert_eq!(num_layers_default(), 2);
}

const PICKER_CSV: &str = "Letters,3,1\nA,a,\nB,b,B\n,,\nNumbers,2,2\n1,1,!\n";

#[test]
fn picker_csv_lists_groups_and_keys() {
    assert!(picker_csv_is_readable(PICKER_CSV));
    let entries = try_picker_csv(PICKER_CSV).unwrap();
    assert_eq!(entries.len(), 5);
    assert!(matches!(&entries[0], PickerCsv::Group { name, cols: 3, width: 1 } if name == "Letters"));
    assert!(matches!(&entries[1], PickerCsv::Key { name, top, bottom } if name == "A" && top == "a" && bottom == ""));
    assert!(matches!(&entries[2], PickerCsv::Key { name, top, bottom } if name == "B" && top == "b" && bottom == "B"));
    assert!(matches!(&entries[3], PickerCsv::Group { name, cols: 2, width: 2 } if name == "Numbers"));
    assert!(matches!(&entries[4], PickerCsv::Key { name, top, bottom } if name == "1" && top == "1" && bottom == "!"));
}

#[test]
fn picker_csv_with_unreadable_numbers_is_refused() {
    assert!(!picker_csv_is_readable("Letters,x,1\nA,a,\n"));
    assert!(try_picker_csv("Letters,3,y\nA,a,\n").is_none());
    assert!(try_picker_csv("a,b\nc\n").is_none());
}

#[test]
fn picker_groups_and_keys() {
    let p = Picker::try_new(PICKER_CSV).unwrap();
    assert_eq!(p.groups.len(), 2);
    assert_eq!(p.groups[0].name, "Letters");
    assert_eq!(p.groups[0].cols, 3);
    assert_eq!(p.groups[0].width, 1);
    assert_eq!(p.groups[0].keys.len(), 2);
    assert_eq!(p.groups[0].keys[0].name, "A");
    assert_eq!(p.groups[0].keys[0].text, "a");
    assert_eq!(p.groups[0].keys[1].text, "b\nB");
    assert_eq!(p.groups[1].name, "Numbers");
    assert_eq!(p.groups[1].keys[0].text, "1\n!");
    assert_eq!(p.keys.len(), 3);
    assert_eq!(p.keys.get("B").map(|k| k.text.as_str()), Some("b\nB"));
    assert_eq!(p.keys.get("1").map(|k| k.name.as_str()), Some("1"));
}

#[test]
fn picker_defaults_unreadable_numbers() {
    let p = Picker::try_new("Letters,x,y\nA,a,\n").unwrap();
    assert_eq!(p.groups[0].cols, 3);
    assert_eq!(p.groups[0].width, 1);
    assert!(Picker::try_new("a,b\nc\n").is_none());
}

fn layout_with(items: Vec<PhysicalKeyEnum>, rows: usize) -> Layout {
    let mut entries = Vec::new();
    for _ in 0..rows {
        entries.push(PhysicalLayoutEntry::Row(PhysicalRow(vec![])));
    }
    entries.push(PhysicalLayoutEntry::Row(PhysicalRow(items)));
    let default = KeyMap { board: "b".to_string(), map: StrMap::new(), key_leds: StrMap::new(), layers: vec![] };
    Layout::try_from_data(default, "[]", StrMap::new(), PhysicalLayout(entries)).unwrap()
}

fn meta(x: i64, c: Option<&str>, t: Option<&str>) -> PhysicalKeyEnum {
    PhysicalKeyEnum::Meta(PhysicalKeyMeta { x, y: 0, w: None, h: None, c: c.map(str::to_string), t: t.map(str::to_string) })
}

#[test]
fn well_defined_layouts_give_their_keys() {
    let l = small_layout();
    assert!(l.keys_well_defined());
    assert_eq!(l.try_keys().unwrap().len(), 3);
    let l = layout_with(vec![PhysicalKeyEnum::Name("A".to_string())], 35);
    assert!(l.keys_well_defined());
    assert_eq!(l.try_keys().unwrap()[0].logical_name, "KZ0");
}

#[test]
fn ill_defined_layouts_are_refused() {
    let l = layout_with(vec![meta(0, Some("#zz0000"), None), PhysicalKeyEnum::Name("A".to_string())], 0);
    assert!(!l.keys_well_defined());
    assert!(l.try_keys().is_none());
    let l = layout_with(vec![meta(0, None, Some("#00ff0\nx"))], 0);
    assert!(!l.keys_well_defined());
    let l = layout_with(vec![meta(i64::MAX, None, None), PhysicalKeyEnum::Name("A".to_string())], 0);
    assert!(!l.keys_well_defined());
    let l = layout_with(vec![PhysicalKeyEnum::Name("A".to_string())], 36);
    assert!(!l.keys_well_defined());
    let many: Vec<PhysicalKeyEnum> = (0..37).map(|i| PhysicalKeyEnum::Name(i.to_string())).collect();
    let l = layout_with(many, 0);
    assert!(!l.keys_well_defined());
}

fn records(rows: &[&[&str]]) -> Vec<Vec<String>> {
    rows.iter().map(|r| r.iter().map(|f| f.to_string()).collect()).collect()
}

#[test]
fn picker_csv_records_give_groups_and_keys() {
    let r = records(&[&["Letters", "3", "1"], &["A", "a"], &[""], &["Numbers", "2", "2"], &["1", "1", "!"]]);
    assert!(records_readable(&r));
    let entries = picker_csv_from_records(&r);
    assert_eq!(entries.len(), 4);
    assert!(matches!(&entries[0], PickerCsv::Group { name, cols: 3, width: 1 } if name == "Letters"));
    assert!(matches!(&entries[1], PickerCsv::Key { name, top, bottom } if name == "A" && top == "a" && bottom == ""));
    assert!(matches!(&entries[2], PickerCsv::Group { name, cols: 2, width: 2 } if name == "Numbers"));
    assert!(!records_readable(&records(&[&["Letters", "x", "1"]])));
    assert!(!records_readable(&records(&[&["A", "a"], &["B", "x", "y"]])));
    assert!(records_readable(&records(&[])));
}

#[test]
fn picker_from_records_joins_top_and_bottom_text() {
    let r = records(&[&["Letters", "x"], &["A", "a", "b"], &["B", "c"], &["", ""], &["Other", "2", "2"], &["A", "z"]]);
    let p = Picker::from_records(&r);
    assert_eq!(p.groups.len(), 2);
    assert_eq!(p.groups[0].cols, 3);
    assert_eq!(p.groups[0].width, 1);
    assert_eq!(p.groups[0].keys[0].text, "a\nb");
    assert_eq!(p.groups[0].keys[1].text, "c");
    assert_eq!(p.groups[1].keys.len(), 1);
    assert_eq!(p.keys.len(), 2);
    assert_eq!(p.keys.get("A").map(|k| k.text.as_str()), Some("z"));
}
