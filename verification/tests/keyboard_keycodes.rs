use keyboard_configurator::application::keyboard::{parsed_stores, KeymapSet};
use keyboard_configurator::keyboard::{invert_f_keys, selected_scancodes};
use keyboard_configurator::keycode::{Keycode, Mods};

fn basic(name: &str) -> Option<Keycode> {
    Some(Keycode::Basic(Mods::empty(), name.to_string()))
}

fn name_of(k: &Keycode) -> String {
    match k {
        Keycode::Basic(m, n) if m.is_empty() => n.clone(),
        _ => panic!("plain key expected"),
    }
}

#[test]
fn picker_gets_the_selected_keycodes_on_the_layer() {
    let keys = vec![
        vec![(1, basic("A")), (2, basic("B"))],
        vec![(3, None), (4, basic("D"))],
        vec![(5, basic("E"))],
    ];
    let got: Vec<String> = selected_scancodes(&keys, &vec![2, 0, 1], Some(0)).iter().map(name_of).collect();
    assert_eq!(got, vec!["E".to_string(), "A".to_string()]);
    let got: Vec<String> = selected_scancodes(&keys, &vec![0, 1, 2], Some(1)).iter().map(name_of).collect();
    assert_eq!(got, vec!["B".to_string(), "D".to_string()]);
    assert!(selected_scancodes(&keys, &vec![0, 1], None).is_empty());
}

#[test]
fn function_keys_swap_their_first_two_layers() {
    let names: Vec<String> = ["K00", "K01", "K02"].iter().map(|s| s.to_string()).collect();
    let keys = vec![
        vec![(1, basic("F1")), (2, basic("MUTE"))],
        vec![(3, basic("F2")), (4, None)],
        vec![(5, basic("F3")), (6, basic("ROLL_OVER"))],
    ];
    let f_keys: Vec<String> = ["K00", "K01", "K02"].iter().map(|s| s.to_string()).collect();
    let sets = invert_f_keys(&f_keys, &names, &keys);
    let got: Vec<(usize, usize, String)> = sets.iter().map(|(k, l, c)| (*k, *l, name_of(c))).collect();
    assert_eq!(
        got,
        vec![
            (0, 0, "MUTE".to_string()),
            (0, 1, "F1".to_string()),
            (1, 0, "NONE".to_string()),
            (1, 1, "F2".to_string()),
        ]
    );
}

#[test]
fn function_keys_swapped_twice_are_back() {
    let names: Vec<String> = ["K00", "K01"].iter().map(|s| s.to_string()).collect();
    let mut keys = vec![vec![(1, basic("F1")), (2, basic("MUTE"))], vec![(3, basic("F2")), (4, basic("PLAY"))]];
    let f_keys = names.clone();
    for _ in 0..2 {
        for (k, l, c) in invert_f_keys(&f_keys, &names, &keys) {
            keys[k][l].1 = Some(c);
        }
    }
    let got: Vec<Vec<String>> = keys.iter().map(|r| r.iter().map(|(_, c)| name_of(c.as_ref().unwrap())).collect()).collect();
    assert_eq!(got, vec![vec!["F1".to_string(), "MUTE".to_string()], vec!["F2".to_string(), "PLAY".to_string()]]);
}

#[test]
fn keycode_copies_are_equal() {
    let k = Keycode::LT(2, "A".to_string());
    assert!(matches!(k.copy_of(), Keycode::LT(2, ref n) if n == "A"));
}

#[test]
fn import_skips_scancode_names_that_do_not_parse() {
    let set = |key: usize, layer: usize, name: &str| KeymapSet { key, layer, scancode_name: name.to_string() };
    let sets = vec![set(0, 0, "A"), set(0, 1, "BOGUS"), set(2, 0, "LT(1, B)"), set(3, 1, "C")];
    let parsed = vec![
        Some(Keycode::Basic(Mods::empty(), "A".to_string())),
        None,
        Some(Keycode::LT(1, "B".to_string())),
    ];
    let v = parsed_stores(&sets, &parsed);
    assert_eq!(v.len(), 2);
    assert!(matches!(&v[0], (0, 0, Keycode::Basic(m, k)) if *m == Mods::empty() && k == "A"));
    assert!(matches!(&v[1], (2, 0, Keycode::LT(1, k)) if k == "B"));
    assert!(parsed_stores(&sets, &Vec::new()).is_empty());
}
