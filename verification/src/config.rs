//! Settings: defaults, then ~/.config/cece/config, then command-line flags.
//!
//! This reads the two syntaxes: `key = value` lines with `#` comments, and
//! `--flag value` / `--flag=value` arguments. What a value means (a speed,
//! a size) is worked out by the caller, setting by setting, in order.

use vstd::prelude::*;

use crate::text::{
    chars_of,
    find,
    first_at,
    is_space,
    law_strip,
    lemma_first_at,
    same_text,
    string_of,
    strip,
    trim_range,
};

verus! {

/// One line of a config file that holds something.
pub enum Line<S> {
    /// `key = value`, on line `number` (counting from 1).
    Setting { number: usize, key: S, value: S },
    /// A line without `=`.
    Malformed { number: usize },
}

impl View for Line<String> {
    type V = Line<Seq<char>>;

    open spec fn view(&self) -> Line<Seq<char>> {
        match self {
            Line::Setting { number, key, value } => Line::Setting {
                number: *number,
                key: key@,
                value: value@,
            },
            Line::Malformed { number } => Line::Malformed { number: *number },
        }
    }
}

/// `line` without the carriage return of a `\r\n` ending.
pub open spec fn drop_cr(line: Seq<char>) -> Seq<char> {
    if line.len() > 0 && line.last() == '\r' {
        line.drop_last()
    } else {
        line
    }
}

/// The lines of `s` as `str::lines` splits it: at `\n` or `\r\n`, with the
/// last line ending optional.
pub open spec fn lines_of(s: Seq<char>) -> Seq<Seq<char>>
    decreases s.len(),
{
    if s.len() == 0 {
        Seq::empty()
    } else {
        let i = first_at(s, '\n');
        if 0 <= i < s.len() {
            seq![drop_cr(s.take(i))] + lines_of(s.skip(i + 1))
        } else {
            seq![s]
        }
    }
}

/// What a line holds: the text before any `#`, trimmed.
pub open spec fn uncommented(line: Seq<char>) -> Seq<char> {
    strip(line.take(first_at(line, '#')), false)
}

/// The setting in `text` (a line's content) on line `number`: the trimmed
/// text before the first `=` is the key, the text after it, trimmed and
/// without surrounding quotes, the value.
pub open spec fn setting_line(text: Seq<char>, number: usize) -> Line<Seq<char>> {
    let i = first_at(text, '=');
    if i < text.len() {
        Line::Setting {
            number,
            key: strip(text.take(i), false),
            value: strip(strip(text.skip(i + 1), false), true),
        }
    } else {
        Line::Malformed { number }
    }
}

/// The settings of `lines`, the first of which is line `number`; lines
/// with nothing but space and comments are skipped.
pub open spec fn entries_from(lines: Seq<Seq<char>>, number: nat) -> Seq<Line<Seq<char>>>
    decreases lines.len(),
{
    if lines.len() == 0 {
        Seq::empty()
    } else {
        let t = uncommented(lines[0]);
        let rest = entries_from(lines.drop_first(), number + 1);
        if t.len() == 0 {
            rest
        } else {
            seq![setting_line(t, number as usize)] + rest
        }
    }
}

/// The settings of a config file, in order.
pub open spec fn config_lines(text: Seq<char>) -> Seq<Line<Seq<char>>> {
    entries_from(lines_of(text), 1)
}

/// Each line as text.
pub open spec fn line_views(lines: Seq<Line<String>>) -> Seq<Line<Seq<char>>> {
    lines.map_values(|l: Line<String>| l@)
}

/// The lines of a config file that hold something, in order: for each,
/// its key and value, or that it has no `=`.
pub fn parse_file(text: &str) -> (lines: Vec<Line<String>>)
    requires
        text@.len() < usize::MAX,
    ensures
        line_views(lines@) == config_lines(text@),
{
    let v = chars_of(text);
    let len = v.len();
    let mut out: Vec<Line<String>> = Vec::new();
    let mut pos: usize = 0;
    let mut number: usize = 1;
    proof {
        assert(v@.skip(0) =~= v@);
        assert(line_views(out@) =~= Seq::empty());
    }
    while pos < len
        invariant
            len == v@.len(),
            len < usize::MAX,
            pos <= len,
            1 <= number <= pos + 1,
            line_views(out@) + entries_from(lines_of(v@.skip(pos as int)), number as nat)
                == config_lines(v@),
        decreases len - pos,
    {
        let ghost rest = v@.skip(pos as int);
        let e = find(&v, pos, len, '\n');
        proof {
            assert(rest =~= v@.subrange(pos as int, len as int));
            lemma_first_at(rest, '\n');
        }
        let le = if e < len && e > pos && v[e - 1] == '\r' {
            e - 1
        } else {
            e
        };
        let next = if e < len {
            e + 1
        } else {
            len
        };
        let ghost line = v@.subrange(pos as int, le as int);
        proof {
            if e < len {
                assert(rest.take(e - pos) =~= v@.subrange(pos as int, e as int));
                assert(rest.skip(e - pos + 1) =~= v@.skip(next as int));
                if e > pos && v@[e - 1] == '\r' {
                    assert(v@.subrange(pos as int, e as int).drop_last() =~= line);
                }
                assert(drop_cr(v@.subrange(pos as int, e as int)) == line);
                assert(lines_of(rest) == seq![line] + lines_of(v@.skip(next as int)));
            } else {
                assert(line =~= rest);
                assert(v@.skip(next as int) =~= Seq::<char>::empty());
                assert(lines_of(rest) == seq![line]);
                assert(lines_of(v@.skip(next as int)) =~= Seq::<Seq<char>>::empty());
                assert(seq![line] =~= seq![line] + lines_of(v@.skip(next as int)));
            }
            let all = seq![line] + lines_of(v@.skip(next as int));
            assert(all[0] == line);
            assert(all.drop_first() =~= lines_of(v@.skip(next as int)));
        }
        let h = find(&v, pos, le, '#');
        proof {
            lemma_first_at(line, '#');
            assert(line.take(h - pos) =~= v@.subrange(pos as int, h as int));
        }
        let (a, b) = trim_range(&v, pos, h, false);
        let ghost content = v@.subrange(a as int, b as int);
        assert(content == uncommented(line));
        if a < b {
            let q = find(&v, a, b, '=');
            proof {
                lemma_first_at(content, '=');
            }
            let entry = if q < b {
                proof {
                    assert(content.take(q - a) =~= v@.subrange(a as int, q as int));
                    assert(content.skip(q - a + 1) =~= v@.subrange(q + 1, b as int));
                }
                let (ka, kb) = trim_range(&v, a, q, false);
                let (va, vb) = trim_range(&v, q + 1, b, false);
                let (qa, qb) = trim_range(&v, va, vb, true);
                Line::Setting { number, key: string_of(&v, ka, kb), value: string_of(&v, qa, qb) }
            } else {
                Line::Malformed { number }
            };
            proof {
                assert(entry@ == setting_line(content, number));
            }
            let ghost before = line_views(out@);
            out.push(entry);
            proof {
                assert(line_views(out@) =~= before.push(entry@));
            }
        }
        number = number + 1;
        pos = next;
    }
    proof {
        assert(v@.skip(len as int) =~= Seq::<char>::empty());
        assert(line_views(out@) + Seq::<Line<Seq<char>>>::empty() =~= line_views(out@));
    }
    out
}

} // verus!

verus! {

/// The settings there are.
#[derive(Clone, Copy, Debug, PartialEq, Eq, Structural)]
pub enum Setting {
    Speed,
    Scale,
    Quiet,
    Skin,
}

/// The setting a key names, if any.
pub open spec fn setting_named(key: Seq<char>) -> Option<Setting> {
    if key == "speed"@ {
        Some(Setting::Speed)
    } else if key == "scale"@ {
        Some(Setting::Scale)
    } else if key == "quiet"@ {
        Some(Setting::Quiet)
    } else if key == "skin"@ {
        Some(Setting::Skin)
    } else {
        None
    }
}

/// The setting `key` names, if any.
pub fn setting(key: &str) -> (s: Option<Setting>)
    ensures
        s == setting_named(key@),
{
    if same_text(key, "speed") {
        Some(Setting::Speed)
    } else if same_text(key, "scale") {
        Some(Setting::Scale)
    } else if same_text(key, "quiet") {
        Some(Setting::Quiet)
    } else if same_text(key, "skin") {
        Some(Setting::Skin)
    } else {
        None
    }
}

/// What an on/off value says, if it is one.
pub open spec fn switch_value(value: Seq<char>) -> Option<bool> {
    if value == "true"@ || value == "yes"@ || value == "on"@ || value == "1"@ {
        Some(true)
    } else if value == "false"@ || value == "no"@ || value == "off"@ || value == "0"@ {
        Some(false)
    } else {
        None
    }
}

/// Read `value` as on or off: true, yes, on or 1; false, no, off or 0.
pub fn switch(value: &str) -> (b: Option<bool>)
    ensures
        b == switch_value(value@),
{
    if same_text(value, "true") || same_text(value, "yes") || same_text(value, "on") || same_text(
        value,
        "1",
    ) {
        Some(true)
    } else if same_text(value, "false") || same_text(value, "no") || same_text(value, "off")
        || same_text(value, "0") {
        Some(false)
    } else {
        None
    }
}

/// What a `key = value` setting asks for. Speeds and sizes stay text here:
/// they are numbers with a fractional part, read by the caller.
#[derive(Debug)]
pub enum Assignment<S> {
    Speed(S),
    Scale(S),
    Quiet(bool),
    Skin(S),
}

/// Why a setting asks for nothing.
#[derive(Debug)]
pub enum SetError<S> {
    /// No setting has this key.
    Unknown(S),
    /// `quiet` with a value that is neither on nor off.
    NotASwitch(S),
}

impl View for Assignment<String> {
    type V = Assignment<Seq<char>>;

    open spec fn view(&self) -> Assignment<Seq<char>> {
        match self {
            Assignment::Speed(v) => Assignment::Speed(v@),
            Assignment::Scale(v) => Assignment::Scale(v@),
            Assignment::Quiet(b) => Assignment::Quiet(*b),
            Assignment::Skin(v) => Assignment::Skin(v@),
        }
    }
}

impl View for SetError<String> {
    type V = SetError<Seq<char>>;

    open spec fn view(&self) -> SetError<Seq<char>> {
        match self {
            SetError::Unknown(k) => SetError::Unknown(k@),
            SetError::NotASwitch(v) => SetError::NotASwitch(v@),
        }
    }
}

/// What setting `key` to `value` asks for.
pub open spec fn assignment_of(key: Seq<char>, value: Seq<char>) -> Result<
    Assignment<Seq<char>>,
    SetError<Seq<char>>,
> {
    match setting_named(key) {
        Some(Setting::Speed) => Ok(Assignment::Speed(value)),
        Some(Setting::Scale) => Ok(Assignment::Scale(value)),
        Some(Setting::Quiet) => match switch_value(value) {
            Some(b) => Ok(Assignment::Quiet(b)),
            None => Err(SetError::NotASwitch(value)),
        },
        Some(Setting::Skin) => Ok(Assignment::Skin(value)),
        None => Err(SetError::Unknown(key)),
    }
}

/// What setting `key` to `value` asks for, or why it asks for nothing.
pub fn assignment(key: &str, value: &str) -> (r: Result<Assignment<String>, SetError<String>>)
    ensures
        match (r, assignment_of(key@, value@)) {
            (Ok(a), Ok(b)) => a@ == b,
            (Err(e), Err(f)) => e@ == f,
            _ => false,
        },
{
    match setting(key) {
        Some(Setting::Speed) => Ok(Assignment::Speed(value.to_string())),
        Some(Setting::Scale) => Ok(Assignment::Scale(value.to_string())),
        Some(Setting::Quiet) => match switch(value) {
            Some(b) => Ok(Assignment::Quiet(b)),
            None => Err(SetError::NotASwitch(value.to_string())),
        },
        Some(Setting::Skin) => Ok(Assignment::Skin(value.to_string())),
        None => Err(SetError::Unknown(key.to_string())),
    }
}

/// What one command-line argument (with the value it takes) asks for.
pub enum Arg<S> {
    Help,
    Version,
    Quiet,
    /// `--key value` or `--key=value`.
    Assign { key: S, value: S },
    /// A flag that needs a value came last, without one.
    Missing { flag: S },
    /// Not an option.
    Unknown { arg: S },
}

impl View for Arg<String> {
    type V = Arg<Seq<char>>;

    open spec fn view(&self) -> Arg<Seq<char>> {
        match self {
            Arg::Help => Arg::Help,
            Arg::Version => Arg::Version,
            Arg::Quiet => Arg::Quiet,
            Arg::Assign { key, value } => Arg::Assign { key: key@, value: value@ },
            Arg::Missing { flag } => Arg::Missing { flag: flag@ },
            Arg::Unknown { arg } => Arg::Unknown { arg: arg@ },
        }
    }
}

/// An argument split into its flag and an inline `=value`: only
/// arguments starting with `--` carry one.
pub open spec fn split_flag(arg: Seq<char>) -> (Seq<char>, Option<Seq<char>>) {
    let i = first_at(arg, '=');
    if i < arg.len() && arg.len() >= 2 && arg[0] == '-' && arg[1] == '-' {
        (arg.take(i), Some(arg.skip(i + 1)))
    } else {
        (arg, None)
    }
}

/// The flags that take a value.
pub open spec fn takes_value(flag: Seq<char>) -> bool {
    flag == "--speed"@ || flag == "--scale"@ || flag == "--skin"@
}

/// What `args` ask for, in order. Help, version, a missing value or an
/// unknown option ends it.
pub open spec fn plan(args: Seq<Seq<char>>) -> Seq<Arg<Seq<char>>>
    decreases args.len(),
{
    if args.len() == 0 {
        Seq::empty()
    } else {
        let (flag, inline) = split_flag(args[0]);
        if flag == "-h"@ || flag == "--help"@ {
            seq![Arg::Help]
        } else if flag == "-V"@ || flag == "--version"@ {
            seq![Arg::Version]
        } else if flag == "--quiet"@ {
            seq![Arg::Quiet] + plan(args.drop_first())
        } else if takes_value(flag) {
            match inline {
                Some(value) => seq![Arg::Assign { key: flag.skip(2), value }] + plan(
                    args.drop_first(),
                ),
                None => if args.len() >= 2 {
                    seq![Arg::Assign { key: flag.skip(2), value: args[1] }] + plan(args.skip(2))
                } else {
                    seq![Arg::Missing { flag }]
                },
            }
        } else {
            seq![Arg::Unknown { arg: args[0] }]
        }
    }
}

/// Each argument's request as text.
pub open spec fn arg_views(args: Seq<Arg<String>>) -> Seq<Arg<Seq<char>>> {
    args.map_values(|a: Arg<String>| a@)
}

/// Each string's text.
pub open spec fn texts(args: Seq<String>) -> Seq<Seq<char>> {
    args.map_values(|a: String| a@)
}

/// What the command-line arguments `args` ask for, in order.
pub fn parse_args(args: &Vec<String>) -> (plan_out: Vec<Arg<String>>)
    ensures
        arg_views(plan_out@) == plan(texts(args@)),
{
    let ghost all = texts(args@);
    let n = args.len();
    let mut out: Vec<Arg<String>> = Vec::new();
    let mut i: usize = 0;
    proof {
        assert(all.skip(0) =~= all);
        assert(arg_views(out@) =~= Seq::empty());
    }
    while i < n
        invariant
            n == args@.len(),
            all == texts(args@),
            i <= n,
            arg_views(out@) + plan(all.skip(i as int)) == plan(all),
        decreases n - i,
    {
        let ghost rest = all.skip(i as int);
        let arg = &args[i];
        let chars = chars_of(arg.as_str());
        let len = chars.len();
        let eq = find(&chars, 0, len, '=');
        proof {
            assert(rest[0] == arg@);
            assert(chars@.subrange(0, len as int) =~= chars@);
            lemma_first_at(chars@, '=');
        }
        let inline = eq < len && len >= 2 && chars[0] == '-' && chars[1] == '-';
        let fend = if inline {
            eq
        } else {
            len
        };
        let flag = string_of(&chars, 0, fend);
        proof {
            assert(chars@.subrange(0, len as int) =~= chars@);
            assert(flag@ == split_flag(arg@).0);
            reveal_strlit("-h");
            reveal_strlit("--help");
            reveal_strlit("-V");
            reveal_strlit("--version");
            reveal_strlit("--quiet");
            reveal_strlit("--speed");
            reveal_strlit("--scale");
            reveal_strlit("--skin");
        }
        let ghost before = arg_views(out@);
        if same_text(flag.as_str(), "-h") || same_text(flag.as_str(), "--help") {
            out.push(Arg::Help);
            proof {
                assert(arg_views(out@) =~= before.push(Arg::Help));
                assert(arg_views(out@) =~= before + plan(rest));
            }
            return out;
        } else if same_text(flag.as_str(), "-V") || same_text(flag.as_str(), "--version") {
            out.push(Arg::Version);
            proof {
                assert(arg_views(out@) =~= before.push(Arg::Version));
                assert(arg_views(out@) =~= before + plan(rest));
            }
            return out;
        } else if same_text(flag.as_str(), "--quiet") {
            out.push(Arg::Quiet);
            proof {
                assert(rest.drop_first() =~= all.skip(i + 1));
                assert(arg_views(out@) =~= before.push(Arg::Quiet));
                assert(before + plan(rest) =~= arg_views(out@) + plan(all.skip(i + 1)));
            }
            i = i + 1;
        } else if same_text(flag.as_str(), "--speed") || same_text(flag.as_str(), "--scale")
            || same_text(flag.as_str(), "--skin") {
            let key = string_of(&chars, 2, fend);
            proof {
                assert(key@ =~= flag@.skip(2));
            }
            if inline {
                let value = string_of(&chars, eq + 1, len);
                proof {
                    assert(value@ =~= arg@.skip(eq + 1));
                }
                let ghost item = Arg::Assign { key: key@, value: value@ };
                out.push(Arg::Assign { key, value });
                proof {
                    assert(rest.drop_first() =~= all.skip(i + 1));
                    assert(arg_views(out@) =~= before.push(item));
                    assert(before + plan(rest) =~= arg_views(out@) + plan(all.skip(i + 1)));
                }
                i = i + 1;
            } else if i + 1 < n {
                let value = args[i + 1].clone();
                let ghost item = Arg::Assign { key: key@, value: value@ };
                out.push(Arg::Assign { key, value });
                proof {
                    assert(rest[1] == value@);
                    assert(rest.skip(2) =~= all.skip(i + 2));
                    assert(arg_views(out@) =~= before.push(item));
                    assert(before + plan(rest) =~= arg_views(out@) + plan(all.skip(i + 2)));
                }
                i = i + 2;
            } else {
                let ghost item = Arg::Missing { flag: flag@ };
                out.push(Arg::Missing { flag });
                proof {
                    assert(arg_views(out@) =~= before.push(item));
                    assert(arg_views(out@) =~= before + plan(rest));
                }
                return out;
            }
        } else {
            let ghost item = Arg::Unknown { arg: arg@ };
            out.push(Arg::Unknown { arg: arg.clone() });
            proof {
                assert(arg_views(out@) =~= before.push(item));
                assert(arg_views(out@) =~= before + plan(rest));
            }
            return out;
        }
    }
    proof {
        assert(all.skip(n as int) =~= Seq::<Seq<char>>::empty());
        assert(arg_views(out@) + Seq::<Arg<Seq<char>>>::empty() =~= arg_views(out@));
    }
    out
}

/// What the arguments ask for: at most one request per argument; only
/// `speed`, `scale` and `skin` are ever assigned (the flag without its
/// dashes); help, version, a missing value or an unknown option is the last
/// request, and only `--quiet` and assignments come before it.
pub proof fn law_what_arguments_ask(args: Seq<Seq<char>>)
    ensures
        plan(args).len() <= args.len(),
        forall|k: int|
            0 <= k < plan(args).len() ==> match #[trigger] plan(args)[k] {
                Arg::Assign { key, value } => key == "speed"@ || key == "scale"@ || key == "skin"@,
                _ => true,
            },
        forall|k: int|
            0 <= k < plan(args).len() - 1 ==> (#[trigger] plan(args)[k] is Quiet || plan(args)[k] is Assign),
    decreases args.len(),
{
    reveal_strlit("--speed");
    reveal_strlit("--scale");
    reveal_strlit("--skin");
    reveal_strlit("speed");
    reveal_strlit("scale");
    reveal_strlit("skin");
    if args.len() > 0 {
        let (flag, inline) = split_flag(args[0]);
        let p = plan(args);
        if flag == "-h"@ || flag == "--help"@ || flag == "-V"@ || flag == "--version"@ {
        } else if flag == "--quiet"@ {
            law_what_arguments_ask(args.drop_first());
            assert forall|k: int| 1 <= k < p.len() implies p[k] == plan(args.drop_first())[k - 1] by {}
        } else if takes_value(flag) {
            assert(flag.skip(2) == "speed"@ || flag.skip(2) == "scale"@ || flag.skip(2) == "skin"@);
            match inline {
                Some(value) => {
                    law_what_arguments_ask(args.drop_first());
                    assert forall|k: int| 1 <= k < p.len() implies p[k] == plan(args.drop_first())[k - 1] by {}
                },
                None => if args.len() >= 2 {
                    law_what_arguments_ask(args.skip(2));
                    assert forall|k: int| 1 <= k < p.len() implies p[k] == plan(args.skip(2))[k - 1] by {}
                },
            }
        }
    }
}

/// The line a config entry came from.
pub open spec fn line_number(line: Line<Seq<char>>) -> int {
    match line {
        Line::Setting { number, .. } => number as int,
        Line::Malformed { number } => number as int,
    }
}

/// What an entry of a config file looks like: a key with no `=` or `#`
/// in it, a value with no `#`, neither starting nor ending with white space.
pub open spec fn tidy(line: Line<Seq<char>>) -> bool {
    match line {
        Line::Setting { key, value, .. } => {
            &&& forall|j: int| 0 <= j < key.len() ==> #[trigger] key[j] != '=' && key[j] != '#'
            &&& forall|j: int| 0 <= j < value.len() ==> #[trigger] value[j] != '#'
            &&& key.len() > 0 ==> !is_space(key[0]) && !is_space(key.last())
        },
        Line::Malformed { .. } => true,
    }
}

proof fn lemma_lines_of_len(s: Seq<char>)
    ensures
        lines_of(s).len() <= s.len(),
    decreases s.len(),
{
    if s.len() > 0 {
        let i = first_at(s, '\n');
        lemma_first_at(s, '\n');
        if 0 <= i < s.len() {
            lemma_lines_of_len(s.skip(i + 1));
        }
    }
}

proof fn lemma_entry_tidy(line: Seq<char>, number: usize)
    requires
        uncommented(line).len() > 0,
    ensures
        tidy(setting_line(uncommented(line), number)),
{
    let h = first_at(line, '#');
    lemma_first_at(line, '#');
    let before = line.take(h);
    law_strip(before, false);
    let t = uncommented(line);
    assert forall|j: int| 0 <= j < t.len() implies #[trigger] t[j] != '#' by {
        let (a, b) = choose|a: int, b: int|
            {
                &&& 0 <= a <= b <= before.len()
                &&& strip(before, false) == before.subrange(a, b)
                &&& forall|j: int| 0 <= j < a ==> crate::text::strippable(#[trigger] before[j], false)
                &&& forall|j: int| b <= j < before.len() ==> crate::text::strippable(#[trigger] before[j], false)
            };
        assert(t[j] == before[a + j]);
    }
    let i = first_at(t, '=');
    lemma_first_at(t, '=');
    if i < t.len() {
        let k = t.take(i);
        let v = strip(t.skip(i + 1), false);
        law_strip(k, false);
        law_strip(t.skip(i + 1), false);
        law_strip(v, true);
        let key = strip(k, false);
        let value = strip(v, true);
        assert forall|j: int| 0 <= j < key.len() implies #[trigger] key[j] != '=' && key[j] != '#' by {
            let (a, b) = choose|a: int, b: int|
                {
                    &&& 0 <= a <= b <= k.len()
                    &&& strip(k, false) == k.subrange(a, b)
                    &&& forall|j: int| 0 <= j < a ==> crate::text::strippable(#[trigger] k[j], false)
                    &&& forall|j: int| b <= j < k.len() ==> crate::text::strippable(#[trigger] k[j], false)
                };
            assert(key[j] == k[a + j]);
            assert(k[a + j] == t[a + j]);
        }
        let rest = t.skip(i + 1);
        assert forall|j: int| 0 <= j < value.len() implies #[trigger] value[j] != '#' by {
            let (a, b) = choose|a: int, b: int|
                {
                    &&& 0 <= a <= b <= rest.len()
                    &&& strip(rest, false) == rest.subrange(a, b)
                    &&& forall|j: int| 0 <= j < a ==> crate::text::strippable(#[trigger] rest[j], false)
                    &&& forall|j: int| b <= j < rest.len() ==> crate::text::strippable(#[trigger] rest[j], false)
                };
            let (c, d) = choose|c: int, d: int|
                {
                    &&& 0 <= c <= d <= v.len()
                    &&& strip(v, true) == v.subrange(c, d)
                    &&& forall|j: int| 0 <= j < c ==> crate::text::strippable(#[trigger] v[j], true)
                    &&& forall|j: int| d <= j < v.len() ==> crate::text::strippable(#[trigger] v[j], true)
                };
            assert(value[j] == v[c + j]);
            assert(v[c + j] == rest[a + c + j]);
            assert(rest[a + c + j] == t[i + 1 + a + c + j]);
        }
    }
}

proof fn lemma_entries(lines: Seq<Seq<char>>, number: nat)
    requires
        number + lines.len() <= usize::MAX + 1,
    ensures
        entries_from(lines, number).len() <= lines.len(),
        forall|k: int|
            0 <= k < entries_from(lines, number).len() ==> {
                &&& number <= line_number(#[trigger] entries_from(lines, number)[k]) < number
                    + lines.len()
                &&& tidy(entries_from(lines, number)[k])
            },
        forall|k: int, m: int|
            0 <= k < m < entries_from(lines, number).len() ==> line_number(
                #[trigger] entries_from(lines, number)[k],
            ) < line_number(#[trigger] entries_from(lines, number)[m]),
    decreases lines.len(),
{
    if lines.len() > 0 {
        let rest = entries_from(lines.drop_first(), number + 1);
        lemma_entries(lines.drop_first(), number + 1);
        let t = uncommented(lines[0]);
        let e = entries_from(lines, number);
        if t.len() > 0 {
            lemma_entry_tidy(lines[0], number as usize);
            assert(e == seq![setting_line(t, number as usize)] + rest);
            assert(line_number(e[0]) == number);
            assert forall|k: int| 1 <= k < e.len() implies e[k] == rest[k - 1] by {}
        }
    }
}

/// What a config file holds: at most one entry per line, in the order of
/// the lines, each numbered by the line it is on (counting from 1, blank
/// and comment lines included). Keys have no `=` or `#` in them, values no
/// `#` (comments are gone), and keys are trimmed.
pub proof fn law_config_entries(text: Seq<char>)
    requires
        text.len() < usize::MAX,
    ensures
        config_lines(text).len() <= lines_of(text).len(),
        forall|k: int|
            0 <= k < config_lines(text).len() ==> {
                &&& 1 <= line_number(#[trigger] config_lines(text)[k]) <= lines_of(text).len()
                &&& tidy(config_lines(text)[k])
            },
        forall|k: int, m: int|
            0 <= k < m < config_lines(text).len() ==> line_number(
                #[trigger] config_lines(text)[k],
            ) < line_number(#[trigger] config_lines(text)[m]),
{
    lemma_lines_of_len(text);
    lemma_entries(lines_of(text), 1);
}

} // verus!
