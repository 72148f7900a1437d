use cece::config::{assignment, parse_args, parse_file, setting, switch, Arg, Assignment, Line, SetError, Setting};

fn args(list: &[&str]) -> Vec<String> {
    list.iter().map(|s| s.to_string()).collect()
}

fn setting_of(line: &Line<String>) -> Option<(usize, &str, &str)> {
    match line {
        Line::Setting { number, key, value } => Some((*number, key.as_str(), value.as_str())),
        Line::Malformed { .. } => None,
    }
}

/// The settings the defaults, then `file`, then `flags` give: speed, scale,
/// quiet and skin, or the first thing refused, as text. Numbers are read
/// here as the program reads them.
fn settle(file: &str, flags: &[&str]) -> Result<(f64, f64, bool, String), String> {
    let (mut speed, mut scale, mut quiet, mut skin) = (2.0, 2.0, false, "burmilla".to_string());
    let mut apply = |key: &str, value: &str| -> Result<(), String> {
        let number = |v: &str| v.parse::<f64>().ok().filter(|n| n.is_finite() && *n > 0.0).ok_or(format!("{key}: {v}"));
        match assignment(key, value) {
            Ok(Assignment::Speed(v)) => speed = number(&v)?,
            Ok(Assignment::Scale(v)) => scale = number(&v)?.clamp(0.5, 8.0),
            Ok(Assignment::Quiet(b)) => quiet = b,
            Ok(Assignment::Skin(v)) => skin = v,
            Err(SetError::NotASwitch(v)) => return Err(format!("not a switch: {v}")),
            Err(SetError::Unknown(k)) => return Err(format!("unknown setting {k}")),
        }
        Ok(())
    };
    for line in parse_file(file) {
        match line {
            Line::Malformed { number } => return Err(format!("line {number}")),
            Line::Setting { key, value, .. } => apply(&key, &value)?,
        }
    }
    for arg in parse_args(&args(flags)) {
        match arg {
            Arg::Assign { key, value } => apply(&key, &value)?,
            Arg::Quiet => apply("quiet", "true")?,
            Arg::Missing { flag } => return Err(format!("{flag} needs a value")),
            Arg::Unknown { arg } => return Err(format!("unknown option {arg}")),
            Arg::Help | Arg::Version => return Err("not a run".to_string()),
        }
    }
    Ok((speed, scale, quiet, skin))
}

#[test]
fn file_then_flags() {
    let got = settle("# comment\nspeed = 3\nskin = \"classic\"\nquiet = yes\n", &["--speed=4", "--scale", "3"]);
    assert_eq!(got, Ok((4.0, 3.0, true, "classic".to_string())));
}

#[test]
fn rejects_nonsense() {
    assert!(settle("speed = fast", &[]).is_err());
    assert!(matches!(assignment("speed", "fast"), Ok(Assignment::Speed(v)) if v == "fast"));
    assert!(settle("colour = red", &[]).is_err());
    assert!(matches!(assignment("colour", "red"), Err(SetError::Unknown(k)) if k == "colour"));
    assert!(settle("", &["--bogus"]).is_err());
    assert!(matches!(parse_args(&args(&["--bogus"]))[..], [Arg::Unknown { .. }]));
    assert!(settle("", &["--speed"]).is_err());
    assert!(matches!(parse_args(&args(&["--speed"]))[..], [Arg::Missing { .. }]));
}

#[test]
fn quiet_takes_only_on_or_off() {
    assert!(matches!(assignment("quiet", "on"), Ok(Assignment::Quiet(true))));
    assert!(matches!(assignment("quiet", "0"), Ok(Assignment::Quiet(false))));
    assert!(matches!(assignment("quiet", "maybe"), Err(SetError::NotASwitch(v)) if v == "maybe"));
    assert!(matches!(assignment("skin", "x.png"), Ok(Assignment::Skin(v)) if v == "x.png"));
}

#[test]
fn blank_lines_and_comments_are_skipped_but_counted() {
    let text = "\n   \n# all comment\r\nscale=2 # trailing\r\n\t\nnonsense\nskin = \"\"odd\"\"  ";
    let lines = parse_file(text);
    assert_eq!(lines.len(), 3);
    assert_eq!(setting_of(&lines[0]), Some((4, "scale", "2")));
    assert!(matches!(lines[1], Line::Malformed { number: 6 }));
    assert_eq!(setting_of(&lines[2]), Some((7, "skin", "odd")));
}

#[test]
fn a_lone_carriage_return_stays() {
    let lines = parse_file("skin = a\r");
    assert_eq!(setting_of(&lines[0]), Some((1, "skin", "a")));
    let lines = parse_file("skin = a\rb\n");
    assert_eq!(setting_of(&lines[0]), Some((1, "skin", "a\rb")));
}

#[test]
fn the_first_equals_sign_splits() {
    let lines = parse_file(" skin = a=b ");
    assert_eq!(setting_of(&lines[0]), Some((1, "skin", "a=b")));
    assert!(parse_file("").is_empty());
    assert!(parse_file("\n\n").is_empty());
}

#[test]
fn settings_by_name() {
    assert_eq!(setting("speed"), Some(Setting::Speed));
    assert_eq!(setting("scale"), Some(Setting::Scale));
    assert_eq!(setting("quiet"), Some(Setting::Quiet));
    assert_eq!(setting("skin"), Some(Setting::Skin));
    assert_eq!(setting("Speed"), None);
    for on in ["true", "yes", "on", "1"] {
        assert_eq!(switch(on), Some(true));
    }
    for off in ["false", "no", "off", "0"] {
        assert_eq!(switch(off), Some(false));
    }
    assert_eq!(switch("maybe"), None);
}

#[test]
fn help_and_version_end_the_arguments() {
    assert!(matches!(parse_args(&args(&["--quiet", "-h", "--bogus"]))[..], [Arg::Quiet, Arg::Help]));
    assert!(matches!(parse_args(&args(&["--version", "--speed"]))[..], [Arg::Version]));
    assert!(matches!(parse_args(&args(&["-V"]))[..], [Arg::Version]));
    assert!(matches!(parse_args(&args(&["--help=yes"]))[..], [Arg::Help]));
    assert!(parse_args(&args(&[])).is_empty());
}

#[test]
fn a_flag_takes_the_next_argument_whatever_it_is() {
    let plan = parse_args(&args(&["--skin", "--quiet", "--quiet=no"]));
    assert_eq!(plan.len(), 2);
    assert!(matches!(&plan[0], Arg::Assign { key, value } if key == "skin" && value == "--quiet"));
    assert!(matches!(plan[1], Arg::Quiet));
    let plan = parse_args(&args(&["-speed=3"]));
    assert!(matches!(&plan[..], [Arg::Unknown { arg }] if arg == "-speed=3"));
    let plan = parse_args(&args(&["--skin=a=b"]));
    assert!(matches!(&plan[..], [Arg::Assign { key, value }] if key == "skin" && value == "a=b"));
}
