//! The command-line options of the configurator application.

use vstd::prelude::*;
use vstd::string::StringExecFns;

use crate::application::layout::{layout_boards, layouts};
use crate::text::{split_on, split_text, str_eq};

verus! {

/// The boards to pretend to have for the `--fake-keyboard` option: every
/// board with a layout for "all", otherwise the comma-separated models given;
/// none without the option.
pub open spec fn phony_names(fake_keyboard: Option<Seq<char>>) -> Seq<Seq<char>> {
    match fake_keyboard {
        Some(v) => if v == "all"@ {
            layout_boards()
        } else {
            split_on(v, ',')
        },
        None => Seq::empty(),
    }
}

/// The characters of an optional text.
pub open spec fn option_text(o: Option<&str>) -> Option<Seq<char>> {
    match o {
        Some(s) => Some(s@),
        None => None,
    }
}

/// The pretend boards asked for by the value of `--fake-keyboard`, if given.
pub fn phony_board_names(fake_keyboard: Option<&str>) -> (v: Vec<String>)
    ensures
        v@.map_values(|s: String| s@) == phony_names(option_text(fake_keyboard)),
{
    match fake_keyboard {
        Some(value) => {
            if str_eq(value, "all") {
                let boards = layouts();
                let mut v: Vec<String> = Vec::new();
                let mut i: usize = 0;
                while i < boards.len()
                    invariant
                        boards@.map_values(|s: &str| s@) == layout_boards(),
                        i <= boards@.len(),
                        v@.map_values(|s: String| s@) == layout_boards().take(i as int),
                    decreases boards@.len() - i,
                {
                    let name = String::from_str(boards[i]);
                    assert(name@ == layout_boards()[i as int]) by {
                        assert(boards@.map_values(|s: &str| s@)[i as int] == boards@[i as int]@);
                    }
                    let ghost prev = v@;
                    v.push(name);
                    assert(v@.map_values(|s: String| s@) =~= prev.map_values(|s: String| s@).push(layout_boards()[i as int]));
                    assert(v@.map_values(|s: String| s@) =~= layout_boards().take(i + 1));
                    i = i + 1;
                }
                assert(layout_boards().take(i as int) =~= layout_boards());
                v
            } else {
                split_text(value, ',')
            }
        },
        None => {
            let v: Vec<String> = Vec::new();
            assert(v@.map_values(|s: String| s@) =~= Seq::<Seq<char>>::empty());
            v
        },
    }
}

/// What the configurator was asked for on its command line.
pub struct AppOptions {
    pub phony_board_names: Vec<String>,
    pub debug_layers: bool,
    pub launch_test: bool,
}

impl AppOptions {
    /// The options from the value of `--fake-keyboard`, if given, and
    /// whether `--debug-layers` and `--launch-test` were given.
    pub fn new(fake_keyboard: Option<&str>, debug_layers: bool, launch_test: bool) -> (o: Self)
        ensures
            o.phony_board_names@.map_values(|s: String| s@) == phony_names(option_text(fake_keyboard)),
            o.debug_layers == debug_layers,
            o.launch_test == launch_test,
    {
        AppOptions { phony_board_names: phony_board_names(fake_keyboard), debug_layers, launch_test }
    }
}

} // verus!
