//! The switch for diagnostic output, passed to whoever logs.

use crate::http::text::chars_of;
use vstd::prelude::*;

verus! {

/// Whether diagnostic output is wanted.
#[derive(Clone, Copy, Debug)]
pub struct Logger {
    enabled: bool,
}

impl Logger {
    /// True if diagnostic output is wanted.
    pub closed spec fn enabled(&self) -> bool {
        self.enabled
    }
}

/// The lower-case form of an ASCII letter; any other character is left as
/// it is.
pub open spec fn ascii_lower(c: char) -> char {
    if 'A' <= c <= 'Z' {
        ((c as u8) + 32) as char
    } else {
        c
    }
}

/// True if a setting switches diagnostic output on: `1`, or `true` in any
/// mix of upper and lower case.
pub open spec fn switches_on(setting: Seq<char>) -> bool {
    ||| setting == seq!['1']
    ||| {
        &&& setting.len() == 4
        &&& ascii_lower(setting[0]) == 't'
        &&& ascii_lower(setting[1]) == 'r'
        &&& ascii_lower(setting[2]) == 'u'
        &&& ascii_lower(setting[3]) == 'e'
    }
}

/// Makes the logger from the value of the logging setting, if it is set.
/// Output is on for `1` and for `true` in any mix of upper and lower case,
/// and off without a setting or with any other.
pub fn init_logging(setting: Option<&str>) -> (logger: Logger)
    ensures
        logger.enabled() == match setting {
            Some(value) => switches_on(value@),
            None => false,
        },
{
    let enabled = match setting {
        None => false,
        Some(value) => {
            let chars = chars_of(value);
            if chars.len() == 1 {
                assert(chars@ == seq!['1'] <==> chars@[0] == '1') by {
                    if chars@[0] == '1' {
                        assert(chars@ =~= seq!['1']);
                    }
                }
                chars[0] == '1'
            } else if chars.len() == 4 {
                (chars[0] == 't' || chars[0] == 'T') && (chars[1] == 'r' || chars[1] == 'R') && (
                chars[2] == 'u' || chars[2] == 'U') && (chars[3] == 'e' || chars[3] == 'E')
            } else {
                false
            }
        },
    };
    Logger { enabled }
}

/// Tells whether diagnostic output is wanted.
pub fn is_enabled(logger: &Logger) -> (enabled: bool)
    ensures
        enabled == logger.enabled(),
{
    logger.enabled
}

} // verus!
