//! The run configuration: what to evaluate and how to render the result.
//!
//! A configuration is read from the words of a command line.  The first word
//! is the program's name and is skipped; after it come pairs of a flag and its
//! argument: `-e` and the expression, `-b` and the output base, `-w` and the
//! bit width.

use vstd::prelude::*;
use crate::parse::{decode_digits, decode_digits_from};
use crate::text::to_chars;

verus! {

/// What one run evaluates and how its result is rendered.
pub struct Config {
    /// The expression text.
    pub expression: String,
    /// The output base: 10, 2 or 16.  Any other base renders as the empty string.
    pub base: u32,
    /// The number of low bits of the result that are rendered.
    pub width: u32,
    /// When set, a value whose top bit (within `width`) is set is rendered as a
    /// negative number in base 10.  Despite its name, the flag *enables*
    /// sign-aware rendering.
    pub unsigned_int: bool,
}

/// A configuration in specifications: the expression as characters.
pub struct ConfigView {
    pub expression: Seq<char>,
    pub base: u32,
    pub width: u32,
    pub unsigned_int: bool,
}

impl View for Config {
    type V = ConfigView;

    open spec fn view(&self) -> ConfigView {
        ConfigView {
            expression: self.expression@,
            base: self.base,
            width: self.width,
            unsigned_int: self.unsigned_int,
        }
    }
}

/// The flags of the command line.
#[derive(Debug, Clone, Copy, PartialEq, Eq, Structural)]
pub enum ArgFlag {
    /// `-e`: the expression.
    Expression,
    /// `-b`: the output base.
    Base,
    /// `-w`: the bit width.
    Width,
}

/// Why a command line gives no configuration.
#[derive(Debug, Clone, Copy, PartialEq, Eq)]
pub enum ArgError {
    /// The flag is the last word: its argument is missing.
    MissingArgument(ArgFlag),
    /// The argument of the flag is not a number of at most 32 bits.
    InvalidArgument(ArgFlag),
    /// The word at this index is none of the flags.
    UnknownArgument(usize),
}

/// The configuration before any flag is read: no expression, base 10, all 32
/// bits, sign-aware decimal rendering.
pub open spec fn default_config() -> ConfigView {
    ConfigView { expression: Seq::empty(), base: 10, width: 32, unsigned_int: true }
}

/// The flag that a word is, if it is one.
pub open spec fn flag_of(word: Seq<char>) -> Option<ArgFlag> {
    if word.len() == 2 && word[0] == '-' && word[1] == 'e' {
        Some(ArgFlag::Expression)
    } else if word.len() == 2 && word[0] == '-' && word[1] == 'b' {
        Some(ArgFlag::Base)
    } else if word.len() == 2 && word[0] == '-' && word[1] == 'w' {
        Some(ArgFlag::Width)
    } else {
        None
    }
}

/// The number that a word writes in base 10: an optional `+`, then a
/// non-empty string of decimal digits that writes at most `u32::MAX`.
pub open spec fn number_of(word: Seq<char>) -> Option<u32> {
    if word.len() > 0 && word[0] == '+' {
        decode_digits(word.skip(1), 10)
    } else {
        decode_digits(word, 10)
    }
}

/// Reading the words from index `i` on into `config`.  A later flag
/// overrides an earlier one of its kind; the first word that does not fit
/// ends the reading with its error.
pub open spec fn read_args(words: Seq<Seq<char>>, i: int, config: ConfigView) -> Result<
    ConfigView,
    ArgError,
>
    decreases words.len() - i,
{
    if i < 0 || i >= words.len() {
        Ok(config)
    } else {
        match flag_of(words[i]) {
            None => Err(ArgError::UnknownArgument(i as usize)),
            Some(flag) => if i + 1 >= words.len() {
                Err(ArgError::MissingArgument(flag))
            } else {
                match flag {
                    ArgFlag::Expression => read_args(
                        words,
                        i + 2,
                        ConfigView { expression: words[i + 1], ..config },
                    ),
                    ArgFlag::Base => match number_of(words[i + 1]) {
                        Some(base) => read_args(words, i + 2, ConfigView { base, ..config }),
                        None => Err(ArgError::InvalidArgument(flag)),
                    },
                    ArgFlag::Width => match number_of(words[i + 1]) {
                        Some(width) => read_args(words, i + 2, ConfigView { width, ..config }),
                        None => Err(ArgError::InvalidArgument(flag)),
                    },
                }
            },
        }
    }
}

/// The words of a command line as sequences of characters.
pub open spec fn words_of(args: Seq<String>) -> Seq<Seq<char>> {
    args.map_values(|word: String| word@)
}

/// The flag that a word is, if it is one.
fn flag_of_word(word: &str) -> (flag: Option<ArgFlag>)
    ensures
        flag == flag_of(word@),
{
    let chars = to_chars(word);
    if chars.len() == 2 && chars[0] == '-' {
        if chars[1] == 'e' {
            Some(ArgFlag::Expression)
        } else if chars[1] == 'b' {
            Some(ArgFlag::Base)
        } else if chars[1] == 'w' {
            Some(ArgFlag::Width)
        } else {
            None
        }
    } else {
        None
    }
}

/// The number that a word writes in base 10.
fn number_of_word(word: &str) -> (number: Option<u32>)
    ensures
        number == number_of(word@),
{
    let chars = to_chars(word);
    if chars.len() > 0 && chars[0] == '+' {
        decode_digits_from(&chars, 1, 10)
    } else {
        assert(chars@.skip(0) =~= chars@);
        decode_digits_from(&chars, 0, 10)
    }
}

impl Config {
    /// The default configuration: no expression, base 10, all 32 bits,
    /// sign-aware decimal rendering.
    pub fn new() -> (config: Self)
        ensures
            config@ == default_config(),
    {
        Config { expression: String::new(), base: 10, width: 32, unsigned_int: true }
    }

    /// Reads a configuration from the words of a command line, the first of
    /// which is the program's name.
    pub fn parse_args(args: Vec<String>) -> (result: Result<Config, ArgError>)
        ensures
            match read_args(words_of(args@), 1, default_config()) {
                Ok(view) => result matches Ok(config) && config@ == view,
                Err(e) => result matches Err(err) && err == e,
            },
    {
        let ghost words = words_of(args@);
        let mut config = Config::new();
        let mut i: usize = 1;
        while i < args.len()
            invariant
                1 <= i,
                words == words_of(args@),
                read_args(words, 1, default_config()) == read_args(words, i as int, config@),
            decreases args.len() - i,
        {
            assert(words[i as int] == args@[i as int]@);
            let flag = match flag_of_word(args[i].as_str()) {
                Some(flag) => flag,
                None => {
                    return Err(ArgError::UnknownArgument(i));
                },
            };
            if i + 1 >= args.len() {
                return Err(ArgError::MissingArgument(flag));
            }
            assert(words[i + 1] == args@[i + 1]@);
            match flag {
                ArgFlag::Expression => {
                    config.expression = args[i + 1].clone();
                },
                ArgFlag::Base => {
                    match number_of_word(args[i + 1].as_str()) {
                        Some(base) => {
                            config.base = base;
                        },
                        None => {
                            return Err(ArgError::InvalidArgument(flag));
                        },
                    }
                },
                ArgFlag::Width => {
                    match number_of_word(args[i + 1].as_str()) {
                        Some(width) => {
                            config.width = width;
                        },
                        None => {
                            return Err(ArgError::InvalidArgument(flag));
                        },
                    }
                },
            }
            i = i + 2;
        }
        Ok(config)
    }
}

} // verus!
