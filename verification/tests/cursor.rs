use cece::cursor::split_reply;

/// The reply's coordinates, as the program reads them.
fn parse(reply: &str) -> Option<(f64, f64)> {
    let (x, y) = split_reply(reply)?;
    Some((x.parse().ok()?, y.parse().ok()?))
}

#[test]
fn parses_cursorpos() {
    assert_eq!(parse("1254, 1079\n"), Some((1254.0, 1079.0)));
    assert_eq!(parse("-3, 7"), Some((-3.0, 7.0)));
    assert_eq!(parse("unknown request"), None);
}

#[test]
fn splits_at_the_first_comma() {
    assert_eq!(split_reply("  1,2,3 "), Some(("1".to_string(), "2,3".to_string())));
    assert_eq!(split_reply(" , "), Some((String::new(), String::new())));
    assert_eq!(split_reply(""), None);
}
