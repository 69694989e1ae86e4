use keyboard_configurator::color::Rgb;
use keyboard_configurator::daemon::board::DaemonBoard;
use keyboard_configurator::daemon::dummy::DaemonDummy;
use keyboard_configurator::daemon::s76power::{
    brightness_from_property, color_from_property, is_keyboard_path, max_brightness_from_property, model_from_property,
};
use keyboard_configurator::daemon::server::is_launch_hid_ec;
use keyboard_configurator::daemon::{dispatch_command_to_method, BoardId, Daemon, DaemonCommand, DaemonResponse};

fn dummy() -> DaemonDummy {
    DaemonDummy::new(vec!["system76/launch_1".to_string(), "system76/lemp9".to_string()])
}

#[test]
fn dummy_lists_its_boards() {
    let d = dummy();
    assert_eq!(d.boards(), Ok(vec![BoardId(0), BoardId(1)]));
    assert_eq!(d.model(BoardId(0)), Ok("system76/launch_1".to_string()));
    assert_eq!(d.model(BoardId(1)), Ok("system76/lemp9".to_string()));
    assert!(d.is_fake());
}

#[test]
fn dummy_new_boards_are_blank() {
    let d = dummy();
    assert_eq!(d.keymap_get(BoardId(0), 0, 1, 2), Ok(0));
    assert_eq!(d.color(BoardId(1)), Ok(Rgb::new(0, 0, 0)));
    assert_eq!(d.brightness(BoardId(1)), Ok(0));
    assert_eq!(d.max_brightness(BoardId(0)), Ok(100));
}

#[test]
fn dummy_keymap_read_after_write() {
    let mut d = dummy();
    assert_eq!(d.keymap_set(BoardId(0), 1, 2, 3, 0x1234), Ok(()));
    assert_eq!(d.keymap_get(BoardId(0), 1, 2, 3), Ok(0x1234));
    assert_eq!(d.keymap_get(BoardId(0), 1, 3, 2), Ok(0));
    assert_eq!(d.keymap_get(BoardId(1), 1, 2, 3), Ok(0));
    assert_eq!(d.keymap_set(BoardId(0), 1, 2, 3, 7), Ok(()));
    assert_eq!(d.keymap_get(BoardId(0), 1, 2, 3), Ok(7));
    assert_eq!(d.keymap_set(BoardId(0), 255, 255, 255, 9), Ok(()));
    assert_eq!(d.keymap_get(BoardId(0), 255, 255, 255), Ok(9));
}

#[test]
fn dummy_color_and_brightness_read_after_write() {
    let mut d = dummy();
    assert_eq!(d.set_color(BoardId(1), Rgb::new(1, 2, 3)), Ok(()));
    assert_eq!(d.set_brightness(BoardId(1), 42), Ok(()));
    assert_eq!(d.color(BoardId(1)), Ok(Rgb::new(1, 2, 3)));
    assert_eq!(d.brightness(BoardId(1)), Ok(42));
    assert_eq!(d.color(BoardId(0)), Ok(Rgb::new(0, 0, 0)));
    assert_eq!(d.brightness(BoardId(0)), Ok(0));
}

#[test]
fn dummy_refuses_a_missing_board() {
    let mut d = dummy();
    let no_board = Err("No board".to_string());
    assert_eq!(d.model(BoardId(2)), no_board.clone());
    assert_eq!(d.keymap_get(BoardId(2), 0, 0, 0), Err("No board".to_string()));
    assert_eq!(d.keymap_set(BoardId(2), 0, 0, 0, 1), Err("No board".to_string()));
    assert_eq!(d.color(BoardId(5)), Err("No board".to_string()));
    assert_eq!(d.set_color(BoardId(5), Rgb::new(1, 1, 1)), Err("No board".to_string()));
    assert_eq!(d.brightness(BoardId(5)), Err("No board".to_string()));
    assert_eq!(d.set_brightness(BoardId(5), 3), Err("No board".to_string()));
    assert_eq!(d.exit(), Ok(()));
}

#[test]
fn dummy_without_boards() {
    let d = DaemonDummy::new(vec![]);
    assert_eq!(d.boards(), Ok(vec![]));
    assert_eq!(d.model(BoardId(0)), Err("No board".to_string()));
}

#[test]
fn dispatch_runs_the_named_operation() {
    let mut d = dummy();
    let r = dispatch_command_to_method(&mut d, DaemonCommand::keymap_set { board: BoardId(0), layer: 0, output: 4, input: 5, value: 0x29 });
    assert!(matches!(r, Ok(DaemonResponse::keymap_set(()))));
    let r = dispatch_command_to_method(&mut d, DaemonCommand::keymap_get { board: BoardId(0), layer: 0, output: 4, input: 5 });
    assert!(matches!(r, Ok(DaemonResponse::keymap_get(0x29))));
    let r = dispatch_command_to_method(&mut d, DaemonCommand::model { board: BoardId(1) });
    match r {
        Ok(DaemonResponse::model(m)) => assert_eq!(m, "system76/lemp9"),
        _ => panic!("model expected"),
    }
    let r = dispatch_command_to_method(&mut d, DaemonCommand::boards {});
    match r {
        Ok(DaemonResponse::boards(b)) => assert_eq!(b, vec![BoardId(0), BoardId(1)]),
        _ => panic!("boards expected"),
    }
    let r = dispatch_command_to_method(&mut d, DaemonCommand::set_color { board: BoardId(0), color: Rgb::new(9, 8, 7) });
    assert!(matches!(r, Ok(DaemonResponse::set_color(()))));
    let r = dispatch_command_to_method(&mut d, DaemonCommand::color { board: BoardId(0) });
    assert!(matches!(r, Ok(DaemonResponse::color(Rgb { r: 9, g: 8, b: 7 }))));
    let r = dispatch_command_to_method(&mut d, DaemonCommand::set_brightness { board: BoardId(0), brightness: 50 });
    assert!(matches!(r, Ok(DaemonResponse::set_brightness(()))));
    let r = dispatch_command_to_method(&mut d, DaemonCommand::brightness { board: BoardId(0) });
    assert!(matches!(r, Ok(DaemonResponse::brightness(50))));
    let r = dispatch_command_to_method(&mut d, DaemonCommand::max_brightness { board: BoardId(0) });
    assert!(matches!(r, Ok(DaemonResponse::max_brightness(100))));
    let r = dispatch_command_to_method(&mut d, DaemonCommand::exit {});
    assert!(matches!(r, Ok(DaemonResponse::exit(()))));
}

#[test]
fn dispatch_passes_errors_on() {
    let mut d = dummy();
    let r = dispatch_command_to_method(&mut d, DaemonCommand::brightness { board: BoardId(9) });
    match r {
        Err(e) => assert_eq!(e, "No board"),
        Ok(_) => panic!("error expected"),
    }
}

#[test]
fn daemon_board_fills_in_its_board() {
    let mut b = DaemonBoard(dummy(), BoardId(1));
    assert_eq!(b.model(), Ok("system76/lemp9".to_string()));
    assert_eq!(b.keymap_set(2, 3, 4, 5), Ok(()));
    assert_eq!(b.keymap_get(2, 3, 4), Ok(5));
    assert_eq!(b.0.keymap_get(BoardId(0), 2, 3, 4), Ok(0));
    assert_eq!(b.set_color(Rgb::new(4, 5, 6)), Ok(()));
    assert_eq!(b.color(), Ok(Rgb::new(4, 5, 6)));
    assert_eq!(b.set_brightness(77), Ok(()));
    assert_eq!(b.brightness(), Ok(77));
    assert_eq!(b.max_brightness(), Ok(100));
    let missing = DaemonBoard(dummy(), BoardId(3));
    assert_eq!(missing.model(), Err("No board".to_string()));
}

#[test]
fn launch_controller_is_found_by_vendor_product_and_interface() {
    assert!(is_launch_hid_ec(0x3384, 0x0001, 1));
    assert!(!is_launch_hid_ec(0x3384, 0x0001, 0));
    assert!(!is_launch_hid_ec(0x3384, 0x0002, 1));
    assert!(!is_launch_hid_ec(0x1234, 0x0001, 1));
}

#[test]
fn power_daemon_keyboards_and_properties() {
    assert!(is_keyboard_path("/com/system76/PowerDaemon/keyboard0"));
    assert!(!is_keyboard_path("/com/system76/PowerDaemon/battery"));
    assert!(!is_keyboard_path("/com/system76"));
    assert_eq!(model_from_property(Some("Oryx Pro".to_string())), "Oryx Pro");
    assert_eq!(model_from_property(None), "");
    assert_eq!(color_from_property(Some("ff8000")), Rgb::new(255, 128, 0));
    assert_eq!(color_from_property(Some("red")), Rgb::new(0, 0, 0));
    assert_eq!(color_from_property(None), Rgb::new(0, 0, 0));
    assert_eq!(max_brightness_from_property(None), 100);
    assert_eq!(max_brightness_from_property(Some(255)), 255);
    assert_eq!(brightness_from_property(None), 0);
    assert_eq!(brightness_from_property(Some(40)), 40);
}
