use vstd::prelude::*;

verus! {

/// The keys that the viewer reacts to; every other key is `Other`.
#[derive(Clone, Copy, Debug, PartialEq, Eq, Structural)]
pub enum Key {
    C,
    Left,
    Right,
    Up,
    Down,
    W,
    S,
    A,
    D,
    F1,
    F2,
    F3,
    F4,
    F5,
    F6,
    F7,
    F8,
    Other,
}

/// Whether a key event is a press or a release.
#[derive(Clone, Copy, Debug, PartialEq, Eq, Structural)]
pub enum KeyState {
    Pressed,
    Released,
}

/// A part of the world state that a function key prints.
#[derive(Clone, Copy, Debug, PartialEq, Eq, Structural)]
pub enum Report {
    CameraPosition,
    CameraDirection,
    CameraOrientation,
    LightPosition,
    ModelTransform,
    ModelColor,
    LookEngaged,
    Everything,
}

/// What a key event asks of the world state.
#[derive(Clone, Copy, Debug, PartialEq, Eq, Structural)]
pub enum Command {
    /// Step the model colour forward on its ring.
    CycleColor,
    /// Move the light by one step along x (`vertical` false) or y, in the
    /// positive direction or the negative one.
    MoveLight { vertical: bool, positive: bool },
    /// Move the camera one step along its direction, or against it.
    Walk { forward: bool },
    /// Move the camera one step sideways: along its direction turned a
    /// quarter turn in the horizontal plane, clockwise for `right`.
    Strafe { right: bool },
    /// Print a part of the state; nothing changes.
    Print(Report),
    /// Nothing to do.
    Ignore,
}

/// The command that pressing `key` gives.
pub open spec fn press_command(key: Key) -> Command {
    match key {
        Key::C => Command::CycleColor,
        Key::Left => Command::MoveLight { vertical: false, positive: false },
        Key::Right => Command::MoveLight { vertical: false, positive: true },
        Key::Up => Command::MoveLight { vertical: true, positive: true },
        Key::Down => Command::MoveLight { vertical: true, positive: false },
        Key::W => Command::Walk { forward: true },
        Key::S => Command::Walk { forward: false },
        Key::D => Command::Strafe { right: true },
        Key::A => Command::Strafe { right: false },
        Key::F1 => Command::Print(Report::CameraPosition),
        Key::F2 => Command::Print(Report::CameraDirection),
        Key::F3 => Command::Print(Report::CameraOrientation),
        Key::F4 => Command::Print(Report::LightPosition),
        Key::F5 => Command::Print(Report::ModelTransform),
        Key::F6 => Command::Print(Report::ModelColor),
        Key::F7 => Command::Print(Report::LookEngaged),
        Key::F8 => Command::Print(Report::Everything),
        Key::Other => Command::Ignore,
    }
}

/// The command for a key event: presses act, releases do nothing.
pub fn key_command(key: Key, state: KeyState) -> (r: Command)
    ensures
        r == (if state == KeyState::Pressed {
            press_command(key)
        } else {
            Command::Ignore
        }),
        state == KeyState::Released ==> r == Command::Ignore,
        key == Key::Other ==> r == Command::Ignore,
{
    if state == KeyState::Released {
        return Command::Ignore;
    }
    match key {
        Key::C => Command::CycleColor,
        Key::Left => Command::MoveLight { vertical: false, positive: false },
        Key::Right => Command::MoveLight { vertical: false, positive: true },
        Key::Up => Command::MoveLight { vertical: true, positive: true },
        Key::Down => Command::MoveLight { vertical: true, positive: false },
        Key::W => Command::Walk { forward: true },
        Key::S => Command::Walk { forward: false },
        Key::D => Command::Strafe { right: true },
        Key::A => Command::Strafe { right: false },
        Key::F1 => Command::Print(Report::CameraPosition),
        Key::F2 => Command::Print(Report::CameraDirection),
        Key::F3 => Command::Print(Report::CameraOrientation),
        Key::F4 => Command::Print(Report::LightPosition),
        Key::F5 => Command::Print(Report::ModelTransform),
        Key::F6 => Command::Print(Report::ModelColor),
        Key::F7 => Command::Print(Report::LookEngaged),
        Key::F8 => Command::Print(Report::Everything),
        Key::Other => Command::Ignore,
    }
}

} // verus!
