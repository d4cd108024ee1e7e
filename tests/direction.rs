use stepper::Direction;

#[test]
fn parses_each_direction_name() {
    assert_eq!(Direction::parse(&"bottom".to_string()), Ok(Direction::Bottom));
    assert_eq!(Direction::parse(&"down".to_string()), Ok(Direction::Down));
    assert_eq!(Direction::parse(&"up".to_string()), Ok(Direction::Up));
    assert_eq!(Direction::parse(&"top".to_string()), Ok(Direction::Top));
}

#[test]
fn rejects_other_words() {
    let message = "<direction> must be one of 'top', 'up', 'down', or 'bottom'".to_string();
    for word in ["", "Up", "TOP", "upp", " up", "down\n", "left"] {
        assert_eq!(Direction::parse(&word.to_string()), Err(message.clone()));
    }
}
