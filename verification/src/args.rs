//! The command line: which arguments mean what, and which are refused.

use crate::text::{chars_of, join, opt_view, text_eq};
use vstd::prelude::*;

verus! {

/// What a command line asks for.
#[derive(Debug)]
pub struct Config {
    /// The directory to draw; `None` stands for the current directory.
    pub start_dir: Option<String>,
    /// The ceiling of the walk: directories at this depth or below are not
    /// listed.
    pub max_depth: Option<usize>,
    /// Whether the tree is drawn with ASCII characters only.
    pub ascii: bool,
    /// Whether the content of regular files is inlined.
    pub show_content: bool,
    /// Whether the tree goes to standard output instead of a file.
    pub to_stdout: bool,
}

/// The mathematical value of a `Config`.
pub ghost struct ConfigValue {
    pub start_dir: Option<Seq<char>>,
    pub max_depth: Option<usize>,
    pub ascii: bool,
    pub show_content: bool,
    pub to_stdout: bool,
}

impl View for Config {
    type V = ConfigValue;

    open spec fn view(&self) -> ConfigValue {
        ConfigValue {
            start_dir: opt_view(self.start_dir),
            max_depth: self.max_depth,
            ascii: self.ascii,
            show_content: self.show_content,
            to_stdout: self.to_stdout,
        }
    }
}

/// What is to be done.
#[derive(Debug)]
pub enum Command {
    /// Draw a tree.
    Run(Config),
    /// Show how the program is used, and do nothing else.
    Help,
}

/// The mathematical value of a `Command`.
pub ghost enum CommandValue {
    Run(ConfigValue),
    Help,
}

impl View for Command {
    type V = CommandValue;

    open spec fn view(&self) -> CommandValue {
        match self {
            Command::Run(config) => CommandValue::Run(config@),
            Command::Help => CommandValue::Help,
        }
    }
}

/// Why a command line is refused.
#[derive(Debug)]
pub enum ArgError {
    /// `--max-depth` is the last argument.
    MissingDepthValue,
    /// What follows `--max-depth` is no number that fits.
    InvalidDepthValue,
    /// An argument that begins with `-` and is no known flag.
    UnknownFlag(String),
    /// A second path.
    ExtraPath,
}

/// The mathematical value of an `ArgError`.
pub ghost enum ArgErrorValue {
    MissingDepthValue,
    InvalidDepthValue,
    UnknownFlag(Seq<char>),
    ExtraPath,
}

impl View for ArgError {
    type V = ArgErrorValue;

    open spec fn view(&self) -> ArgErrorValue {
        match self {
            ArgError::MissingDepthValue => ArgErrorValue::MissingDepthValue,
            ArgError::InvalidDepthValue => ArgErrorValue::InvalidDepthValue,
            ArgError::UnknownFlag(flag) => ArgErrorValue::UnknownFlag(flag@),
            ArgError::ExtraPath => ArgErrorValue::ExtraPath,
        }
    }
}

/// The message that tells the user of an error.
pub open spec fn message_of(e: ArgErrorValue) -> Seq<char> {
    match e {
        ArgErrorValue::MissingDepthValue => "--max-depth requires a value"@,
        ArgErrorValue::InvalidDepthValue => "Invalid --max-depth value"@,
        ArgErrorValue::UnknownFlag(flag) => "Unknown flag: "@ + flag,
        ArgErrorValue::ExtraPath => "Only one path argument is allowed"@,
    }
}

impl ArgError {
    /// The message that tells the user of this error.
    pub fn message(&self) -> (r: String)
        ensures
            r@ == message_of(self@),
    {
        match self {
            ArgError::MissingDepthValue => String::from_str("--max-depth requires a value"),
            ArgError::InvalidDepthValue => String::from_str("Invalid --max-depth value"),
            ArgError::UnknownFlag(flag) => join("Unknown flag: ", flag.as_str()),
            ArgError::ExtraPath => String::from_str("Only one path argument is allowed"),
        }
    }
}

/// Whether `c` is one of the digits `0` to `9`.
pub open spec fn is_digit(c: char) -> bool {
    '0' <= c <= '9'
}

/// The number that a sequence of digits stands for in base ten.
pub open spec fn digits_value(s: Seq<char>) -> nat
    decreases s.len(),
{
    if s.len() == 0 {
        0
    } else {
        (digits_value(s.drop_last()) * 10 + (s.last() as nat - '0' as nat)) as nat
    }
}

/// A text without the `+` that it begins with, if it begins with one.
pub open spec fn unsigned_part(s: Seq<char>) -> Seq<char> {
    if s.len() > 0 && s[0] == '+' {
        s.drop_first()
    } else {
        s
    }
}

/// The number that a text stands for: one or more digits, with or without a
/// `+` before them, whose value fits. Any other text stands for none.
pub open spec fn number_of(s: Seq<char>) -> Option<usize> {
    let digits = unsigned_part(s);
    if digits.len() > 0 && (forall|i: int| 0 <= i < digits.len() ==> is_digit(#[trigger] digits[i]))
        && digits_value(digits) <= usize::MAX {
        Some(digits_value(digits) as usize)
    } else {
        None
    }
}

/// A sequence of digits stands for at least as much as each of its beginnings.
proof fn lemma_digits_value_grows(s: Seq<char>, k: int)
    requires
        0 <= k <= s.len(),
        forall|i: int| 0 <= i < s.len() ==> is_digit(#[trigger] s[i]),
    ensures
        digits_value(s.take(k)) <= digits_value(s),
    decreases s.len(),
{
    if k < s.len() {
        lemma_digits_value_grows(s.drop_last(), k);
        assert(s.drop_last().take(k) == s.take(k));
        assert(is_digit(s.last()));
    } else {
        assert(s.take(k) == s);
    }
}

/// The value of the digit `c`.
fn digit_value(c: char) -> (r: usize)
    requires
        is_digit(c),
    ensures
        r == c as nat - '0' as nat,
{
    (c as u32 - '0' as u32) as usize
}

/// Reads a number: one or more digits, with or without a `+` before them.
pub fn parse_number(s: &str) -> (r: Option<usize>)
    ensures
        r == number_of(s@),
{
    let cs = chars_of(s);
    let start: usize = if cs.len() > 0 && cs[0] == '+' {
        1
    } else {
        0
    };
    let ghost digits = cs@.skip(start as int);
    assert(digits == unsigned_part(s@));
    if cs.len() == start {
        return None;
    }
    let mut value: usize = 0;
    let mut i: usize = start;
    assert(digits.take(0) == Seq::<char>::empty());
    while i < cs.len()
        invariant
            start <= i <= cs.len(),
            digits == cs@.skip(start as int),
            digits == unsigned_part(s@),
            forall|k: int| 0 <= k < i - start ==> is_digit(#[trigger] digits[k]),
            value == digits_value(digits.take(i - start)),
        decreases cs.len() - i,
    {
        let c = cs[i];
        assert(c == digits[i - start]);
        if !(c >= '0' && c <= '9') {
            assert(!is_digit(digits[i - start]));
            return None;
        }
        let ghost grown = digits.take(i - start + 1);
        proof {
            assert(grown.drop_last() == digits.take(i - start));
            assert(grown.last() == c);
            assert(digits_value(grown) == value * 10 + (c as nat - '0' as nat));
            if forall|k: int| 0 <= k < digits.len() ==> is_digit(#[trigger] digits[k]) {
                lemma_digits_value_grows(digits, i - start + 1);
            }
        }
        let d = digit_value(c);
        let next = match value.checked_mul(10) {
            Some(tens) => tens.checked_add(d),
            None => None,
        };
        match next {
            Some(v) => {
                value = v;
            },
            None => {
                return None;
            },
        }
        i += 1;
    }
    assert(digits.take(cs.len() - start) == digits);
    Some(value)
}

/// The texts of a command line.
pub open spec fn arg_views(args: Seq<String>) -> Seq<Seq<char>> {
    args.map_values(|s: String| s@)
}

/// What the arguments from position `i` on mean, `acc` being what the
/// arguments before them asked for.
///
/// `--max-depth` takes the argument after it as its number. `--ascii`,
/// `--content` or `-c`, and `--stdout` or `-o` each switch one thing on.
/// `--help` or `-h` ends the reading at once. Any other argument that begins
/// with `-` is refused; an argument that does not is the path, and a second
/// one is refused.
pub open spec fn parse_from(args: Seq<Seq<char>>, i: int, acc: ConfigValue) -> Result<
    CommandValue,
    ArgErrorValue,
>
    decreases args.len() - i,
{
    if i < 0 || i >= args.len() {
        Ok(CommandValue::Run(acc))
    } else {
        let arg = args[i];
        if arg == "--max-depth"@ {
            if i + 1 >= args.len() {
                Err(ArgErrorValue::MissingDepthValue)
            } else {
                match number_of(args[i + 1]) {
                    Some(depth) => parse_from(
                        args,
                        i + 2,
                        ConfigValue { max_depth: Some(depth), ..acc },
                    ),
                    None => Err(ArgErrorValue::InvalidDepthValue),
                }
            }
        } else if arg == "--ascii"@ {
            parse_from(args, i + 1, ConfigValue { ascii: true, ..acc })
        } else if arg == "--content"@ || arg == "-c"@ {
            parse_from(args, i + 1, ConfigValue { show_content: true, ..acc })
        } else if arg == "--stdout"@ || arg == "-o"@ {
            parse_from(args, i + 1, ConfigValue { to_stdout: true, ..acc })
        } else if arg == "--help"@ || arg == "-h"@ {
            Ok(CommandValue::Help)
        } else if arg.len() > 0 && arg[0] == '-' {
            Err(ArgErrorValue::UnknownFlag(arg))
        } else if acc.start_dir is None {
            parse_from(args, i + 1, ConfigValue { start_dir: Some(arg), ..acc })
        } else {
            Err(ArgErrorValue::ExtraPath)
        }
    }
}

/// What a command line asks for where it names nothing.
pub open spec fn default_config() -> ConfigValue {
    ConfigValue {
        start_dir: None,
        max_depth: None,
        ascii: false,
        show_content: false,
        to_stdout: false,
    }
}

/// Reads a command line. `args` holds the arguments behind the program's
/// name.
pub fn parse_args(args: &Vec<String>) -> (r: Result<Command, ArgError>)
    ensures
        match r {
            Ok(command) => parse_from(arg_views(args@), 0, default_config()) == Ok::<
                CommandValue,
                ArgErrorValue,
            >(command@),
            Err(e) => parse_from(arg_views(args@), 0, default_config()) == Err::<
                CommandValue,
                ArgErrorValue,
            >(e@),
        },
{
    let mut config = Config {
        start_dir: None,
        max_depth: None,
        ascii: false,
        show_content: false,
        to_stdout: false,
    };
    let ghost all = arg_views(args@);
    let mut i: usize = 0;
    while i < args.len()
        invariant
            i <= args.len(),
            all == arg_views(args@),
            parse_from(all, 0, default_config()) == parse_from(all, i as int, config@),
        decreases args.len() - i,
    {
        let arg = args[i].as_str();
        assert(arg@ == all[i as int]);
        if text_eq(arg, "--max-depth") {
            if i + 1 >= args.len() {
                return Err(ArgError::MissingDepthValue);
            }
            assert(args[i + 1]@ == all[i + 1]);
            match parse_number(args[i + 1].as_str()) {
                Some(depth) => {
                    config.max_depth = Some(depth);
                },
                None => {
                    return Err(ArgError::InvalidDepthValue);
                },
            }
            i += 2;
        } else if text_eq(arg, "--ascii") {
            config.ascii = true;
            i += 1;
        } else if text_eq(arg, "--content") || text_eq(arg, "-c") {
            config.show_content = true;
            i += 1;
        } else if text_eq(arg, "--stdout") || text_eq(arg, "-o") {
            config.to_stdout = true;
            i += 1;
        } else if text_eq(arg, "--help") || text_eq(arg, "-h") {
            return Ok(Command::Help);
        } else {
            let cs = chars_of(arg);
            if cs.len() > 0 && cs[0] == '-' {
                return Err(ArgError::UnknownFlag(args[i].clone()));
            }
            match config.start_dir {
                None => {
                    config.start_dir = Some(args[i].clone());
                },
                Some(_) => {
                    return Err(ArgError::ExtraPath);
                },
            }
            i += 1;
        }
    }
    Ok(Command::Run(config))
}

} // verus!
