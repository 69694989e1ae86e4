//! The daemon that talks to keyboards: the operations every daemon offers,
//! the commands and responses that carry them between processes, and the
//! dispatch of a command to the operation it names.

use vstd::prelude::*;

use crate::color::Rgb;

pub mod board;
pub mod dummy;
pub mod s76power;
pub mod server;




verus! {

/// The index of a board among those a daemon found.
#[derive(Clone, Copy, Debug, PartialEq, Eq, Structural)]
pub struct BoardId(pub usize);

/// The operations of a keyboard daemon. Each operation's result is described
/// by a predicate of the implementation: what it may return in the state the
/// daemon is in, and for an operation that changes the daemon, how the state
/// before and after relate.
pub trait Daemon: Sized {
    spec fn boards_result(&self, r: Result<Vec<BoardId>, String>) -> bool;

    spec fn model_result(&self, board: BoardId, r: Result<String, String>) -> bool;

    spec fn is_fake_result(&self, r: bool) -> bool;

    spec fn keymap_get_result(&self, board: BoardId, layer: u8, output: u8, input: u8, r: Result<u16, String>) -> bool;

    spec fn keymap_set_step(
        pre: Self,
        post: Self,
        board: BoardId,
        layer: u8,
        output: u8,
        input: u8,
        value: u16,
        r: Result<(), String>,
    ) -> bool;

    spec fn color_result(&self, board: BoardId, r: Result<Rgb, String>) -> bool;

    spec fn set_color_step(pre: Self, post: Self, board: BoardId, color: Rgb, r: Result<(), String>) -> bool;

    spec fn max_brightness_result(&self, board: BoardId, r: Result<i32, String>) -> bool;

    spec fn brightness_result(&self, board: BoardId, r: Result<i32, String>) -> bool;

    spec fn set_brightness_step(pre: Self, post: Self, board: BoardId, brightness: i32, r: Result<(), String>) -> bool;

    spec fn exit_step(pre: Self, post: Self, r: Result<(), String>) -> bool;

    fn boards(&self) -> (r: Result<Vec<BoardId>, String>)
        ensures
            self.boards_result(r),
    ;

    fn model(&self, board: BoardId) -> (r: Result<String, String>)
        ensures
            self.model_result(board, r),
    ;

    fn is_fake(&self) -> (r: bool)
        ensures
            self.is_fake_result(r),
    ;

    fn keymap_get(&self, board: BoardId, layer: u8, output: u8, input: u8) -> (r: Result<u16, String>)
        ensures
            self.keymap_get_result(board, layer, output, input, r),
    ;

    fn keymap_set(&mut self, board: BoardId, layer: u8, output: u8, input: u8, value: u16) -> (r: Result<(), String>)
        ensures
            Self::keymap_set_step(*old(self), *final(self), board, layer, output, input, value, r),
    ;

    fn color(&self, board: BoardId) -> (r: Result<Rgb, String>)
        ensures
            self.color_result(board, r),
    ;

    fn set_color(&mut self, board: BoardId, color: Rgb) -> (r: Result<(), String>)
        ensures
            Self::set_color_step(*old(self), *final(self), board, color, r),
    ;

    fn max_brightness(&self, board: BoardId) -> (r: Result<i32, String>)
        ensures
            self.max_brightness_result(board, r),
    ;

    fn brightness(&self, board: BoardId) -> (r: Result<i32, String>)
        ensures
            self.brightness_result(board, r),
    ;

    fn set_brightness(&mut self, board: BoardId, brightness: i32) -> (r: Result<(), String>)
        ensures
            Self::set_brightness_step(*old(self), *final(self), board, brightness, r),
    ;

    fn exit(&mut self) -> (r: Result<(), String>)
        ensures
            Self::exit_step(*old(self), *final(self), r),
    ;
}

/// A daemon operation sent to another process, with its arguments.
#[allow(non_camel_case_types)]
pub enum DaemonCommand {
    boards {},
    model { board: BoardId },
    keymap_get { board: BoardId, layer: u8, output: u8, input: u8 },
    keymap_set { board: BoardId, layer: u8, output: u8, input: u8, value: u16 },
    color { board: BoardId },
    set_color { board: BoardId, color: Rgb },
    max_brightness { board: BoardId },
    brightness { board: BoardId },
    set_brightness { board: BoardId, brightness: i32 },
    exit {},
}

/// What a daemon operation returned, sent back to the process that asked.
#[allow(non_camel_case_types)]
pub enum DaemonResponse {
    boards(Vec<BoardId>),
    model(String),
    keymap_get(u16),
    keymap_set(()),
    color(Rgb),
    set_color(()),
    max_brightness(i32),
    brightness(i32),
    set_brightness(()),
    exit(()),
}

/// A connection that sends a command to a daemon in another process and
/// reads back its response.
pub trait DaemonClientTrait {
    fn send_command(&mut self, command: DaemonCommand) -> Result<DaemonResponse, String>;
}

/// The daemon went from `pre` to `post` by running `command`, and `r` is
/// what the operation returned, wrapped in the response of the same name.
pub open spec fn dispatched<D: Daemon>(pre: D, post: D, command: DaemonCommand, r: Result<DaemonResponse, String>) -> bool {
    match command {
        DaemonCommand::boards {} => post == pre && match r {
            Ok(DaemonResponse::boards(v)) => pre.boards_result(Ok(v)),
            Err(e) => pre.boards_result(Err(e)),
            _ => false,
        },
        DaemonCommand::model { board } => post == pre && match r {
            Ok(DaemonResponse::model(v)) => pre.model_result(board, Ok(v)),
            Err(e) => pre.model_result(board, Err(e)),
            _ => false,
        },
        DaemonCommand::keymap_get { board, layer, output, input } => post == pre && match r {
            Ok(DaemonResponse::keymap_get(v)) => pre.keymap_get_result(board, layer, output, input, Ok(v)),
            Err(e) => pre.keymap_get_result(board, layer, output, input, Err(e)),
            _ => false,
        },
        DaemonCommand::keymap_set { board, layer, output, input, value } => match r {
            Ok(DaemonResponse::keymap_set(v)) => D::keymap_set_step(pre, post, board, layer, output, input, value, Ok(v)),
            Err(e) => D::keymap_set_step(pre, post, board, layer, output, input, value, Err(e)),
            _ => false,
        },
        DaemonCommand::color { board } => post == pre && match r {
            Ok(DaemonResponse::color(v)) => pre.color_result(board, Ok(v)),
            Err(e) => pre.color_result(board, Err(e)),
            _ => false,
        },
        DaemonCommand::set_color { board, color } => match r {
            Ok(DaemonResponse::set_color(v)) => D::set_color_step(pre, post, board, color, Ok(v)),
            Err(e) => D::set_color_step(pre, post, board, color, Err(e)),
            _ => false,
        },
        DaemonCommand::max_brightness { board } => post == pre && match r {
            Ok(DaemonResponse::max_brightness(v)) => pre.max_brightness_result(board, Ok(v)),
            Err(e) => pre.max_brightness_result(board, Err(e)),
            _ => false,
        },
        DaemonCommand::brightness { board } => post == pre && match r {
            Ok(DaemonResponse::brightness(v)) => pre.brightness_result(board, Ok(v)),
            Err(e) => pre.brightness_result(board, Err(e)),
            _ => false,
        },
        DaemonCommand::set_brightness { board, brightness } => match r {
            Ok(DaemonResponse::set_brightness(v)) => D::set_brightness_step(pre, post, board, brightness, Ok(v)),
            Err(e) => D::set_brightness_step(pre, post, board, brightness, Err(e)),
            _ => false,
        },
        DaemonCommand::exit {} => match r {
            Ok(DaemonResponse::exit(v)) => D::exit_step(pre, post, Ok(v)),
            Err(e) => D::exit_step(pre, post, Err(e)),
            _ => false,
        },
    }
}

/// Runs the operation that `command` names on `daemon` and wraps what it
/// returned in the response of the same name.
pub fn dispatch_command_to_method<D: Daemon>(daemon: &mut D, command: DaemonCommand) -> (r: Result<DaemonResponse, String>)
    ensures
        dispatched(*old(daemon), *final(daemon), command, r),
{
    match command {
        DaemonCommand::boards {} => match daemon.boards() {
            Ok(v) => Ok(DaemonResponse::boards(v)),
            Err(e) => Err(e),
        },
        DaemonCommand::model { board } => match daemon.model(board) {
            Ok(v) => Ok(DaemonResponse::model(v)),
            Err(e) => Err(e),
        },
        DaemonCommand::keymap_get { board, layer, output, input } => match daemon.keymap_get(board, layer, output, input) {
            Ok(v) => Ok(DaemonResponse::keymap_get(v)),
            Err(e) => Err(e),
        },
        DaemonCommand::keymap_set { board, layer, output, input, value } => match daemon.keymap_set(board, layer, output, input, value) {
            Ok(v) => Ok(DaemonResponse::keymap_set(v)),
            Err(e) => Err(e),
        },
        DaemonCommand::color { board } => match daemon.color(board) {
            Ok(v) => Ok(DaemonResponse::color(v)),
            Err(e) => Err(e),
        },
        DaemonCommand::set_color { board, color } => match daemon.set_color(board, color) {
            Ok(v) => Ok(DaemonResponse::set_color(v)),
            Err(e) => Err(e),
        },
        DaemonCommand::max_brightness { board } => match daemon.max_brightness(board) {
            Ok(v) => Ok(DaemonResponse::max_brightness(v)),
            Err(e) => Err(e),
        },
        DaemonCommand::brightness { board } => match daemon.brightness(board) {
            Ok(v) => Ok(DaemonResponse::brightness(v)),
            Err(e) => Err(e),
        },
        DaemonCommand::set_brightness { board, brightness } => match daemon.set_brightness(board, brightness) {
            Ok(v) => Ok(DaemonResponse::set_brightness(v)),
            Err(e) => Err(e),
        },
        DaemonCommand::exit {} => match daemon.exit() {
            Ok(v) => Ok(DaemonResponse::exit(v)),
            Err(e) => Err(e),
        },
    }
}

} // verus!
