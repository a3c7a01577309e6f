//! Program configuration from command-line arguments.

use vstd::prelude::*;
use vstd::string::StrSliceExecFns;
use vstd::string::StringExecFns;

use crate::link_info::names_view;
use crate::text::str_eq;

verus! {

/// Folder of videos, posters, and subtitles, when none is named.
pub open spec fn default_folder() -> Seq<char> {
    "."@
}

/// Port for the TCP server, when none is named.
pub const DEFAULT_PORT: u16 = 80;

/// Configuration for this application.
pub struct Config {
    /// Root folder of the videos, which is "." by default
    pub folder: String,
    /// Port to listen to, which is 80 by default
    pub port: u16,
}

/// Program mode from CLI arguments.
pub enum Mode {
    Error(String),
    Normal(Config),
    Help,
    Version,
}

/// The mathematical value of a program mode.
pub enum ModeModel {
    Error(Seq<char>),
    Normal(Seq<char>, u16),
    Help,
    Version,
}

impl View for Mode {
    type V = ModeModel;

    open spec fn view(&self) -> ModeModel {
        match self {
            Mode::Error(message) => ModeModel::Error(message@),
            Mode::Normal(config) => ModeModel::Normal(config.folder@, config.port),
            Mode::Help => ModeModel::Help,
            Mode::Version => ModeModel::Version,
        }
    }
}

/// An ASCII decimal digit character.
pub open spec fn is_digit_char(c: char) -> bool {
    '0' <= c && c <= '9'
}

/// The value of a run of decimal digit characters.
pub open spec fn digits_char_value(s: Seq<char>) -> nat
    decreases s.len(),
{
    if s.len() == 0 {
        0
    } else {
        digits_char_value(s.drop_last()) * 10 + (if is_digit_char(s.last()) {
            (s.last() as nat - '0' as nat) as nat
        } else {
            0
        })
    }
}

/// The port a run of digits names: at least one decimal digit, with a
/// value of at most 65535.
pub open spec fn digits_port_value(digits: Seq<char>) -> Option<u16> {
    if digits.len() == 0 {
        None
    } else if exists|i: int| 0 <= i < digits.len() && !is_digit_char(#[trigger] digits[i]) {
        None
    } else if digits_char_value(digits) > u16::MAX {
        None
    } else {
        Some(digits_char_value(digits) as u16)
    }
}

/// The port a string names: an optional leading `+`, then at least one
/// decimal digit, with a value of at most 65535.
pub open spec fn port_value(s: Seq<char>) -> Option<u16> {
    digits_port_value(
        if s.len() > 0 && s[0] == '+' {
            s.drop_first()
        } else {
            s
        },
    )
}

/// A longer digit run never has a smaller value.
proof fn lemma_digits_char_value_mono(s: Seq<char>, k1: int, k2: int)
    requires
        0 <= k1 <= k2 <= s.len(),
    ensures
        digits_char_value(s.take(k2)) >= digits_char_value(s.take(k1)),
    decreases k2 - k1,
{
    if k1 < k2 {
        lemma_digits_char_value_mono(s, k1, k2 - 1);
        assert(s.take(k2).drop_last() =~= s.take(k2 - 1));
    }
}

/// Parse a port number, as the standard number parser reads an unsigned
/// integer: an optional leading plus sign and decimal digits, within range.
pub fn parse_port(s: &str) -> (r: Option<u16>)
    ensures
        r == port_value(s@),
{
    let n = s.unicode_len();
    let start: usize = if n > 0 && s.get_char(0) == '+' {
        1
    } else {
        0
    };
    let ghost digits = if s@.len() > 0 && s@[0] == '+' {
        s@.drop_first()
    } else {
        s@
    };
    proof {
        assert(digits =~= s@.subrange(start as int, n as int));
    }
    if start == n {
        return None;
    }
    let mut value: u32 = 0;
    let mut i = start;
    while i < n
        invariant
            start <= i <= n,
            n == s@.len(),
            start == 0 || (start == 1 && s@[0] == '+'),
            digits == (if s@.len() > 0 && s@[0] == '+' {
                s@.drop_first()
            } else {
                s@
            }),
            digits == s@.subrange(start as int, n as int),
            forall|t: int| 0 <= t < i - start ==> is_digit_char(#[trigger] digits[t]),
            value == digits_char_value(digits.take(i - start)),
            value <= u16::MAX,
        decreases n - i,
    {
        let c = s.get_char(i);
        if !('0' <= c && c <= '9') {
            proof {
                assert(!is_digit_char(digits[i - start]));
            }
            return None;
        }
        let d: u32 = (c as u32) - 48;
        proof {
            vstd::utf8::char_u32_cast(c, c as u32);
            assert(digits.take(i - start + 1).drop_last() =~= digits.take(i - start));
            assert(digits.take(i - start + 1).last() == s@[i as int]);
        }
        let next = value * 10 + d;
        if next > 65535 {
            proof {
                assert(digits_char_value(digits.take(i - start + 1)) > u16::MAX);
                lemma_digits_char_value_mono(digits, i - start + 1, digits.len() as int);
                assert(digits.take(digits.len() as int) =~= digits);
            }
            return None;
        }
        value = next;
        i += 1;
    }
    proof {
        assert(digits.take(digits.len() as int) =~= digits);
        assert(forall|t: int| 0 <= t < digits.len() ==> is_digit_char(#[trigger] digits[t]));
    }
    Some(value as u16)
}

/// The scanning state over the arguments.
#[derive(Clone, Copy)]
pub enum ArgState {
    Begin,
    Folder,
    Port,
}

/// One pass over the arguments from position `i`: help and version flags
/// win immediately; `--folder` and `--port` each take the next argument as
/// their value; anything else is an error.  At the end, a missing value is
/// an error, an unnamed folder falls back to the default, and what was
/// gathered becomes the normal configuration.
pub open spec fn parse_mode(
    args: Seq<Seq<char>>,
    i: int,
    state: ArgState,
    folder: Seq<char>,
    port: u16,
) -> ModeModel
    decreases args.len() - i,
{
    if i < 0 || i >= args.len() {
        match state {
            ArgState::Begin => ModeModel::Normal(
                if folder.len() == 0 {
                    default_folder()
                } else {
                    folder
                },
                port,
            ),
            ArgState::Folder => ModeModel::Error("Expected an argument after \"--folder\"\n"@),
            ArgState::Port => ModeModel::Error("Expected an argument after \"--port\"\n"@),
        }
    } else {
        let a = args[i];
        if a == "-h"@ || a == "--help"@ {
            ModeModel::Help
        } else if a == "-v"@ || a == "--version"@ {
            ModeModel::Version
        } else {
            match state {
                ArgState::Begin => {
                    if a == "--folder"@ {
                        parse_mode(args, i + 1, ArgState::Folder, folder, port)
                    } else if a == "--port"@ {
                        parse_mode(args, i + 1, ArgState::Port, folder, port)
                    } else {
                        ModeModel::Error(
                            "Expected a valid argument but got \""@ + a + "\"\n"@,
                        )
                    }
                },
                ArgState::Folder => parse_mode(args, i + 1, ArgState::Begin, a, port),
                ArgState::Port => {
                    match port_value(a) {
                        Some(p) => parse_mode(args, i + 1, ArgState::Begin, folder, p),
                        None => ModeModel::Error(
                            "Expected a port number but got \""@ + a + "\"\n"@,
                        ),
                    }
                },
            }
        }
    }
}

/// The mode the arguments after the program name ask for.
pub open spec fn mode_spec(args: Seq<Seq<char>>) -> ModeModel {
    parse_mode(args, 0, ArgState::Begin, Seq::empty(), DEFAULT_PORT)
}

impl Mode {
    /// Construct from the arguments after the program name.
    pub fn new(args: &Vec<String>) -> (r: Mode)
        ensures
            r@ == mode_spec(names_view(args@)),
    {
        let ghost av = names_view(args@);
        let n = args.len();
        let mut i: usize = 0;
        let mut state = ArgState::Begin;
        let mut folder = String::new();
        let mut port: u16 = DEFAULT_PORT;
        while i < n
            invariant
                0 <= i <= n,
                n == args@.len(),
                av == names_view(args@),
                mode_spec(av) == parse_mode(av, i as int, state, folder@, port),
            decreases n - i,
        {
            let arg = &args[i];
            if str_eq(arg.as_str(), "-h") || str_eq(arg.as_str(), "--help") {
                return Mode::Help;
            }
            if str_eq(arg.as_str(), "-v") || str_eq(arg.as_str(), "--version") {
                return Mode::Version;
            }
            match state {
                ArgState::Begin => {
                    if str_eq(arg.as_str(), "--folder") {
                        state = ArgState::Folder;
                    } else if str_eq(arg.as_str(), "--port") {
                        state = ArgState::Port;
                    } else {
                        let mut message = String::from_str("Expected a valid argument but got \"");
                        message.append(arg.as_str());
                        message.append("\"\n");
                        proof {
                            assert(message@ =~= "Expected a valid argument but got \""@ + av[
                                i as int
                            ] + "\"\n"@);
                        }
                        return Mode::Error(message);
                    }
                },
                ArgState::Folder => {
                    folder = arg.clone();
                    state = ArgState::Begin;
                },
                ArgState::Port => {
                    match parse_port(arg.as_str()) {
                        Some(p) => {
                            port = p;
                            state = ArgState::Begin;
                        },
                        None => {
                            let mut message = String::from_str(
                                "Expected a port number but got \"",
                            );
                            message.append(arg.as_str());
                            message.append("\"\n");
                            proof {
                                assert(message@ =~= "Expected a port number but got \""@ + av[
                                    i as int
                                ] + "\"\n"@);
                            }
                            return Mode::Error(message);
                        },
                    }
                },
            }
            i += 1;
        }
        match state {
            ArgState::Begin => {
                let final_folder = if folder.as_str().unicode_len() == 0 {
                    String::from_str(".")
                } else {
                    folder
                };
                Mode::Normal(Config { folder: final_folder, port })
            },
            ArgState::Folder => Mode::Error(
                String::from_str("Expected an argument after \"--folder\"\n"),
            ),
            ArgState::Port => Mode::Error(
                String::from_str("Expected an argument after \"--port\"\n"),
            ),
        }
    }
}

} // verus!
