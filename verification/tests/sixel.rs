use chifir::sixel::from;

#[test]
fn it_converts_000000_to_question_mark() {
    assert_eq!(from(&[0, 0, 0, 0, 0, 0], 1, 6, false), "?$-");
}

#[test]
fn it_converts_000111_to_w() {
    assert_eq!(from(&[0, 0, 0, 1, 1, 1], 1, 6, false), "w$-");
}

#[test]
fn it_converts_111000_to_capital_f() {
    assert_eq!(from(&[1, 1, 1, 0, 0, 0], 1, 6, false), "F$-");
}

#[test]
fn it_converts_111111_to_tilde() {
    assert_eq!(from(&[1, 1, 1, 1, 1, 1], 1, 6, false), "~$-");
}

#[test]
fn it_displays_capital_a() {
    assert_eq!(from(&[0, 1, 1, 0, 1, 0, 0, 1, 1, 1, 1, 1, 1, 0, 0, 1, 1, 0, 0, 1, 0,
                             0, 0, 0],
                           4,
                           6,
                           false),
               "]DD]$-");
}
