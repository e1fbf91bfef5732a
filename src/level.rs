//! Severity levels: their order, their one-letter names, and parsing them.

use vstd::prelude::*;
use vstd::std_specs::cmp::PartialOrdSpec;

verus! {

/// How severe a log line is, from least to most.
#[allow(non_camel_case_types, clippy::upper_case_acronyms)]
#[derive(Debug, Copy, Clone, PartialEq, Eq, Structural)]
pub enum LogLevel {
    VERBOSE,
    DEBUG,
    INFO,
    WARN,
    ERROR,
    ASSERT,
}

/// Why a text names no severity level.
#[derive(Debug, Clone, Copy, PartialEq, Eq, Structural)]
pub enum ParseLogLevelError {
    UnknownLogLevel,
}

/// The level that a letter names, in either case.
pub open spec fn letter_level(c: char) -> Option<LogLevel> {
    if c == 'V' || c == 'v' {
        Some(LogLevel::VERBOSE)
    } else if c == 'D' || c == 'd' {
        Some(LogLevel::DEBUG)
    } else if c == 'I' || c == 'i' {
        Some(LogLevel::INFO)
    } else if c == 'W' || c == 'w' {
        Some(LogLevel::WARN)
    } else if c == 'E' || c == 'e' {
        Some(LogLevel::ERROR)
    } else if c == 'A' || c == 'a' {
        Some(LogLevel::ASSERT)
    } else {
        None
    }
}

/// What parsing `s` as a level gives.
pub open spec fn level_of_text(s: Seq<char>) -> Result<LogLevel, ParseLogLevelError> {
    if s.len() == 1 && letter_level(s[0]) is Some {
        Ok(letter_level(s[0])->0)
    } else {
        Err(ParseLogLevelError::UnknownLogLevel)
    }
}

/// The level that a line's level letter stands for: a letter that names
/// none counts as the least severe.
pub open spec fn level_or_verbose(c: char) -> LogLevel {
    match letter_level(c) {
        Some(l) => l,
        None => LogLevel::VERBOSE,
    }
}

impl LogLevel {
    /// The position of the level in the order of severity.
    pub open spec fn rank(self) -> nat {
        match self {
            LogLevel::VERBOSE => 0,
            LogLevel::DEBUG => 1,
            LogLevel::INFO => 2,
            LogLevel::WARN => 3,
            LogLevel::ERROR => 4,
            LogLevel::ASSERT => 5,
        }
    }

    /// The upper-case letter that names the level.
    pub open spec fn letter_spec(self) -> char {
        match self {
            LogLevel::VERBOSE => 'V',
            LogLevel::DEBUG => 'D',
            LogLevel::INFO => 'I',
            LogLevel::WARN => 'W',
            LogLevel::ERROR => 'E',
            LogLevel::ASSERT => 'A',
        }
    }

    pub fn letter(&self) -> (r: char)
        ensures
            r == self.letter_spec(),
    {
        match self {
            LogLevel::VERBOSE => 'V',
            LogLevel::DEBUG => 'D',
            LogLevel::INFO => 'I',
            LogLevel::WARN => 'W',
            LogLevel::ERROR => 'E',
            LogLevel::ASSERT => 'A',
        }
    }

    /// The level's name as text: its upper-case letter.
    pub fn to_string(&self) -> (r: String)
        ensures
            r@ == seq![self.letter_spec()],
    {
        let r = match self {
            LogLevel::VERBOSE => "V",
            LogLevel::DEBUG => "D",
            LogLevel::INFO => "I",
            LogLevel::WARN => "W",
            LogLevel::ERROR => "E",
            LogLevel::ASSERT => "A",
        };
        proof {
            reveal_strlit("V");
            reveal_strlit("D");
            reveal_strlit("I");
            reveal_strlit("W");
            reveal_strlit("E");
            reveal_strlit("A");
            assert(r@ =~= seq![self.letter_spec()]);
        }
        r.to_owned()
    }

    pub fn rank_of(&self) -> (r: u8)
        ensures
            r as nat == self.rank(),
    {
        match self {
            LogLevel::VERBOSE => 0,
            LogLevel::DEBUG => 1,
            LogLevel::INFO => 2,
            LogLevel::WARN => 3,
            LogLevel::ERROR => 4,
            LogLevel::ASSERT => 5,
        }
    }

    /// Whether the level is `min` or more severe.
    pub fn at_least(&self, min: &LogLevel) -> (r: bool)
        ensures
            r == (self.rank() >= min.rank()),
    {
        self.rank_of() >= min.rank_of()
    }

    pub fn from_letter(c: char) -> (r: Option<LogLevel>)
        ensures
            r == letter_level(c),
    {
        if c == 'V' || c == 'v' {
            Some(LogLevel::VERBOSE)
        } else if c == 'D' || c == 'd' {
            Some(LogLevel::DEBUG)
        } else if c == 'I' || c == 'i' {
            Some(LogLevel::INFO)
        } else if c == 'W' || c == 'w' {
            Some(LogLevel::WARN)
        } else if c == 'E' || c == 'e' {
            Some(LogLevel::ERROR)
        } else if c == 'A' || c == 'a' {
            Some(LogLevel::ASSERT)
        } else {
            None
        }
    }

    /// Parses a level from its one-letter name, in either case.
    pub fn parse(s: &str) -> (r: Result<LogLevel, ParseLogLevelError>)
        ensures
            r == level_of_text(s@),
    {
        if s.unicode_len() != 1 {
            return Err(ParseLogLevelError::UnknownLogLevel);
        }
        match LogLevel::from_letter(s.get_char(0)) {
            Some(l) => Ok(l),
            None => Err(ParseLogLevelError::UnknownLogLevel),
        }
    }
}

impl std::str::FromStr for LogLevel {
    type Err = ParseLogLevelError;

    fn from_str(s: &str) -> (r: Result<LogLevel, ParseLogLevelError>)
        ensures
            r == level_of_text(s@),
    {
        LogLevel::parse(s)
    }
}

impl PartialOrd for LogLevel {
    fn partial_cmp(&self, other: &LogLevel) -> (r: Option<std::cmp::Ordering>)
        ensures
            r == Some(compare(self.rank(), other.rank())),
    {
        let a = self.rank_of();
        let b = other.rank_of();
        if a < b {
            Some(std::cmp::Ordering::Less)
        } else if a == b {
            Some(std::cmp::Ordering::Equal)
        } else {
            Some(std::cmp::Ordering::Greater)
        }
    }
}

impl vstd::std_specs::cmp::PartialOrdSpecImpl for LogLevel {
    open spec fn obeys_partial_cmp_spec() -> bool {
        true
    }

    open spec fn partial_cmp_spec(&self, other: &LogLevel) -> Option<std::cmp::Ordering> {
        Some(compare(self.rank(), other.rank()))
    }
}

/// How two positions in the order of severity compare.
pub open spec fn compare(a: nat, b: nat) -> std::cmp::Ordering {
    if a < b {
        std::cmp::Ordering::Less
    } else if a == b {
        std::cmp::Ordering::Equal
    } else {
        std::cmp::Ordering::Greater
    }
}

/// Parsing the letter of a level, in upper or in lower case, gives that level.
pub proof fn lemma_letter_round_trip(l: LogLevel)
    ensures
        level_of_text(seq![l.letter_spec()]) == Ok::<LogLevel, ParseLogLevelError>(l),
        level_of_text(seq![lower(l.letter_spec())]) == Ok::<LogLevel, ParseLogLevelError>(l),
{
}

/// A single character names a level exactly when it is one of the six
/// level letters, in either case; every other text is refused.
pub proof fn lemma_level_letters(c: char)
    ensures
        level_of_text(seq![c]) is Ok <==> (c == 'V' || c == 'v' || c == 'D' || c == 'd' || c
            == 'I' || c == 'i' || c == 'W' || c == 'w' || c == 'E' || c == 'e' || c == 'A' || c
            == 'a'),
        level_of_text(seq![c]) is Err ==> level_of_text(seq![c]) == Err::<
            LogLevel,
            ParseLogLevelError,
        >(ParseLogLevelError::UnknownLogLevel),
{
}

/// The lower-case form of an upper-case ASCII letter.
pub open spec fn lower(c: char) -> char {
    if 'A' <= c <= 'Z' {
        ((c as u32) + 32) as char
    } else {
        c
    }
}

/// The levels stand in the order of severity.
pub proof fn lemma_severity_order()
    ensures
        LogLevel::ERROR.rank() > LogLevel::WARN.rank(),
        LogLevel::WARN.rank() > LogLevel::INFO.rank(),
        LogLevel::INFO.rank() > LogLevel::DEBUG.rank(),
        LogLevel::DEBUG.rank() > LogLevel::VERBOSE.rank(),
        LogLevel::ASSERT.rank() > LogLevel::ERROR.rank(),
        LogLevel::ERROR.partial_cmp_spec(&LogLevel::WARN) == Some(std::cmp::Ordering::Greater),
        LogLevel::WARN.partial_cmp_spec(&LogLevel::INFO) == Some(std::cmp::Ordering::Greater),
        LogLevel::INFO.partial_cmp_spec(&LogLevel::DEBUG) == Some(std::cmp::Ordering::Greater),
        LogLevel::DEBUG.partial_cmp_spec(&LogLevel::VERBOSE) == Some(std::cmp::Ordering::Greater),
{
}

} // verus!
