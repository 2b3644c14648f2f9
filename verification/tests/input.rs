use editor_core::cursor::Direction;
use editor_core::input::command;
use editor_core::input::prompt_step;
use editor_core::input::quit_step;
use editor_core::input::PromptStep;
use editor_core::input::QuitStep;
use editor_core::input::search_step;
use editor_core::input::Command;
use editor_core::input::Key;
use editor_core::input::KeyPress;
use editor_core::input::Modifiers;
use editor_core::input::SearchStep;

fn press(key: Key, modifiers: Modifiers) -> KeyPress {
    KeyPress { key, modifiers, pressed: true }
}

fn release(key: Key, modifiers: Modifiers) -> KeyPress {
    KeyPress { key, modifiers, pressed: false }
}

#[test]
fn control_keys_ask_for_the_session_commands() {
    assert_eq!(command(press(Key::Char('c'), Modifiers::Control)), Command::Quit);
    assert_eq!(command(press(Key::Char('s'), Modifiers::Control)), Command::Save);
    assert_eq!(command(press(Key::Char('l'), Modifiers::Control)), Command::Load);
    assert_eq!(command(press(Key::Char('f'), Modifiers::Control)), Command::Find);
}

#[test]
fn control_keys_count_however_they_are_reported() {
    assert_eq!(command(release(Key::Char('c'), Modifiers::Control)), Command::Quit);
    assert_eq!(command(release(Key::Char('s'), Modifiers::Control)), Command::Save);
    assert_eq!(command(release(Key::Char('l'), Modifiers::Control)), Command::Load);
    assert_eq!(command(release(Key::Char('f'), Modifiers::Control)), Command::Find);
}

#[test]
fn control_with_more_modifiers_is_no_session_command() {
    assert_eq!(command(press(Key::Char('c'), Modifiers::Other)), Command::Insert('c'));
    assert_eq!(command(press(Key::Char('s'), Modifiers::Plain)), Command::Insert('s'));
}

#[test]
fn plain_arrows_move() {
    assert_eq!(command(press(Key::Up, Modifiers::Plain)), Command::Move(Direction::Up));
    assert_eq!(command(press(Key::Down, Modifiers::Plain)), Command::Move(Direction::Down));
    assert_eq!(command(press(Key::Left, Modifiers::Plain)), Command::Move(Direction::Left));
    assert_eq!(command(press(Key::Right, Modifiers::Plain)), Command::Move(Direction::Right));
}

#[test]
fn arrows_with_modifiers_do_nothing() {
    assert_eq!(command(press(Key::Up, Modifiers::Control)), Command::Nothing);
    assert_eq!(command(press(Key::Down, Modifiers::Other)), Command::Nothing);
    assert_eq!(command(press(Key::Left, Modifiers::Control)), Command::Nothing);
    assert_eq!(command(press(Key::Right, Modifiers::Other)), Command::Nothing);
}

#[test]
fn characters_and_the_tabulator_are_typed() {
    assert_eq!(command(press(Key::Char('x'), Modifiers::Plain)), Command::Insert('x'));
    assert_eq!(command(press(Key::Char('X'), Modifiers::Other)), Command::Insert('X'));
    assert_eq!(command(press(Key::Char('x'), Modifiers::Control)), Command::Insert('x'));
    assert_eq!(command(press(Key::Tab, Modifiers::Plain)), Command::Insert('\t'));
    assert_eq!(command(press(Key::Tab, Modifiers::Other)), Command::Insert('\t'));
}

#[test]
fn enter_and_backspace_edit() {
    assert_eq!(command(press(Key::Enter, Modifiers::Plain)), Command::NewLine);
    assert_eq!(command(press(Key::Enter, Modifiers::Control)), Command::NewLine);
    assert_eq!(command(press(Key::Backspace, Modifiers::Plain)), Command::Delete);
    assert_eq!(command(press(Key::Backspace, Modifiers::Other)), Command::Delete);
}

#[test]
fn keys_that_do_not_go_down_do_nothing() {
    let keys = [
        Key::Char('x'),
        Key::Tab,
        Key::Enter,
        Key::Backspace,
        Key::Esc,
        Key::Up,
        Key::Down,
        Key::Left,
        Key::Right,
        Key::Other,
    ];
    for key in keys {
        assert_eq!(command(release(key, Modifiers::Plain)), Command::Nothing);
    }
}

#[test]
fn other_keys_do_nothing() {
    assert_eq!(command(press(Key::Esc, Modifiers::Plain)), Command::Nothing);
    assert_eq!(command(press(Key::Other, Modifiers::Plain)), Command::Nothing);
    assert_eq!(command(press(Key::Other, Modifiers::Control)), Command::Nothing);
}

#[test]
fn search_keys() {
    assert_eq!(search_step(Key::Char('a')), SearchStep::Search);
    assert_eq!(search_step(Key::Backspace), SearchStep::Search);
    assert_eq!(search_step(Key::Right), SearchStep::Next);
    assert_eq!(search_step(Key::Left), SearchStep::Previous);
    assert_eq!(search_step(Key::Up), SearchStep::Stay);
    assert_eq!(search_step(Key::Down), SearchStep::Stay);
    assert_eq!(search_step(Key::Enter), SearchStep::Stay);
    assert_eq!(search_step(Key::Esc), SearchStep::Stay);
    assert_eq!(search_step(Key::Tab), SearchStep::Stay);
    assert_eq!(search_step(Key::Other), SearchStep::Stay);
}

#[test]
fn prompt_keys() {
    assert_eq!(prompt_step(press(Key::Esc, Modifiers::Plain)), PromptStep::Cancel);
    assert_eq!(prompt_step(release(Key::Esc, Modifiers::Other)), PromptStep::Cancel);
    assert_eq!(prompt_step(press(Key::Enter, Modifiers::Plain)), PromptStep::Accept);
    assert_eq!(prompt_step(release(Key::Enter, Modifiers::Control)), PromptStep::Accept);
    assert_eq!(prompt_step(press(Key::Char('a'), Modifiers::Plain)), PromptStep::Push('a'));
    assert_eq!(prompt_step(press(Key::Char('c'), Modifiers::Control)), PromptStep::Push('c'));
    assert_eq!(prompt_step(release(Key::Char('a'), Modifiers::Plain)), PromptStep::Stay);
    assert_eq!(prompt_step(press(Key::Backspace, Modifiers::Plain)), PromptStep::Pop);
    assert_eq!(prompt_step(release(Key::Backspace, Modifiers::Plain)), PromptStep::Stay);
    assert_eq!(prompt_step(press(Key::Tab, Modifiers::Plain)), PromptStep::Stay);
    assert_eq!(prompt_step(press(Key::Left, Modifiers::Plain)), PromptStep::Stay);
    assert_eq!(prompt_step(press(Key::Other, Modifiers::Plain)), PromptStep::Stay);
}

#[test]
fn quit_keys() {
    assert_eq!(quit_step(press(Key::Char('c'), Modifiers::Control)), QuitStep::Confirm);
    assert_eq!(quit_step(release(Key::Char('c'), Modifiers::Control)), QuitStep::Wait);
    assert_eq!(quit_step(press(Key::Char('c'), Modifiers::Plain)), QuitStep::Wait);
    assert_eq!(quit_step(press(Key::Char('c'), Modifiers::Other)), QuitStep::Wait);
    assert_eq!(quit_step(press(Key::Char('x'), Modifiers::Control)), QuitStep::Wait);
    assert_eq!(quit_step(press(Key::Esc, Modifiers::Plain)), QuitStep::Cancel);
    assert_eq!(quit_step(press(Key::Esc, Modifiers::Control)), QuitStep::Cancel);
    assert_eq!(quit_step(release(Key::Esc, Modifiers::Plain)), QuitStep::Wait);
    assert_eq!(quit_step(press(Key::Enter, Modifiers::Plain)), QuitStep::Wait);
}
