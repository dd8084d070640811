use swp_viewer::color::Color;
use swp_viewer::controls::{key_command, Command, Key, KeyState, Report};

#[test]
fn colors_follow_the_ring() {
    assert_eq!(Color::RED.next_color(), Color::GREEN);
    assert_eq!(Color::GREEN.next_color(), Color::BLUE);
    assert_eq!(Color::BLUE.next_color(), Color::YELLOW);
    assert_eq!(Color::YELLOW.next_color(), Color::RED);
}

#[test]
fn four_steps_return_to_every_start() {
    for c in [Color::RED, Color::GREEN, Color::BLUE, Color::YELLOW] {
        let mut d = c;
        for step in 1..=4 {
            d = d.next_color();
            if step < 4 {
                assert_ne!(d, c);
            }
        }
        assert_eq!(d, c);
    }
}

#[test]
fn presses_map_to_commands() {
    assert_eq!(key_command(Key::C, KeyState::Pressed), Command::CycleColor);
    assert_eq!(
        key_command(Key::Left, KeyState::Pressed),
        Command::MoveLight { vertical: false, positive: false }
    );
    assert_eq!(
        key_command(Key::Up, KeyState::Pressed),
        Command::MoveLight { vertical: true, positive: true }
    );
    assert_eq!(key_command(Key::S, KeyState::Pressed), Command::Walk { forward: false });
    assert_eq!(key_command(Key::D, KeyState::Pressed), Command::Strafe { right: true });
    assert_eq!(key_command(Key::F8, KeyState::Pressed), Command::Print(Report::Everything));
    assert_eq!(key_command(Key::Other, KeyState::Pressed), Command::Ignore);
}

#[test]
fn releases_do_nothing() {
    assert_eq!(key_command(Key::C, KeyState::Released), Command::Ignore);
    assert_eq!(key_command(Key::W, KeyState::Released), Command::Ignore);
}
