use turtle_lexer::turtle::Mode;

#[test]
fn pen_modes_differ() {
    assert_ne!(Mode::PenUp, Mode::PenDown);
    assert_eq!(Mode::PenUp, Mode::PenUp);
}
