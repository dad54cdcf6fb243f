//! The run configuration: which parser features are enabled, which plugins
//! run, and the parsing of the collapsible-headers rule string `h<level>:`
//! or `h<level>=` followed by the marker text.

use vstd::prelude::*;
use vstd::string::StrSliceExecFns;
use vstd::string::StringExecFns;

use crate::formats::MatterFormats;

verus! {

/// Configuration of one document-processing run.
#[derive(Debug)]
pub struct State {
    /// The root directory that documents are served from.
    pub root: Option<String>,
    /// The port the server binds to.
    pub port: u16,
    /// The path of the document to load.
    pub file: Option<String>,
    /// The path to write the output to.
    pub output: Option<String>,
    /// Enables parsing tables.
    pub tables: bool,
    /// Enables parsing footnotes.
    pub footnotes: bool,
    /// Enables parsing strikethrough.
    pub strikethrough: bool,
    /// Enables parsing task lists.
    pub tasklists: bool,
    /// Enables smart punctuation.
    pub smart_punctuation: bool,
    /// Enables heading attributes.
    pub header_attributes: bool,
    /// The kind of front matter to extract, if any.
    pub front_matter: Option<MatterFormats>,
    /// Enables the emoji-shortcode plugin.
    pub emoji_shortcodes: bool,
    /// The collapsible-headers plugin's minimum heading level and marker
    /// text, when that plugin is enabled.
    pub collapsible_headers: Option<(u8, String)>,
    /// The path of a configuration file to load instead.
    pub config: Option<String>,
}

impl Default for State {
    /// A configuration with every feature off and nothing set.
    fn default() -> (s: State)
        ensures
            s.root is None,
            s.port == 0,
            s.file is None,
            s.output is None,
            !s.tables,
            !s.footnotes,
            !s.strikethrough,
            !s.tasklists,
            !s.smart_punctuation,
            !s.header_attributes,
            s.front_matter is None,
            !s.emoji_shortcodes,
            s.collapsible_headers is None,
            s.config is None,
    {
        State {
            root: None,
            port: 0,
            file: None,
            output: None,
            tables: false,
            footnotes: false,
            strikethrough: false,
            tasklists: false,
            smart_punctuation: false,
            header_attributes: false,
            front_matter: None,
            emoji_shortcodes: false,
            collapsible_headers: None,
            config: None,
        }
    }
}

impl State {
    /// Fills in defaults for settings a caller left unset. This build serves
    /// single documents, so nothing is missing and the state is unchanged.
    pub fn set_missing(&mut self)
        ensures
            *final(self) == *old(self),
    {
    }
}

/// Why a collapsible-headers rule string was rejected.
#[derive(Debug, Clone, Copy, PartialEq, Eq, Structural)]
pub enum HeaderRuleError {
    /// The digit after `h` names a heading level outside one through six.
    LevelOutOfRange(u8),
    /// The character after `h` is not a decimal digit.
    NotADigit(char),
    /// The character after the level is neither a colon nor an equals sign.
    BadSeparator(u8),
    /// No marker text follows the level.
    MissingText(u8),
}

/// The character that writes a single decimal digit.
pub open spec fn digit_char(d: int) -> char {
    if d == 0 {
        '0'
    } else if d == 1 {
        '1'
    } else if d == 2 {
        '2'
    } else if d == 3 {
        '3'
    } else if d == 4 {
        '4'
    } else if d == 5 {
        '5'
    } else if d == 6 {
        '6'
    } else if d == 7 {
        '7'
    } else if d == 8 {
        '8'
    } else {
        '9'
    }
}

/// The decimal writing of a non-negative integer.
pub open spec fn dec_str(n: int) -> Seq<char>
    decreases n,
{
    if n < 0 {
        Seq::empty()
    } else if n < 10 {
        seq![digit_char(n)]
    } else {
        dec_str(n / 10) + seq![digit_char(n % 10)]
    }
}

/// The one-character string of a single decimal digit.
fn digit_str(d: u8) -> (r: &'static str)
    requires
        d < 10,
    ensures
        r@ == seq![digit_char(d as int)],
{
    let r: &'static str = match d {
        0 => "0",
        1 => "1",
        2 => "2",
        3 => "3",
        4 => "4",
        5 => "5",
        6 => "6",
        7 => "7",
        8 => "8",
        _ => "9",
    };
    proof {
        reveal_strlit("0");
        reveal_strlit("1");
        reveal_strlit("2");
        reveal_strlit("3");
        reveal_strlit("4");
        reveal_strlit("5");
        reveal_strlit("6");
        reveal_strlit("7");
        reveal_strlit("8");
        reveal_strlit("9");
        assert(r@ =~= seq![digit_char(d as int)]);
    }
    r
}

/// The decimal writing of a byte-sized integer.
fn u8_dec_string(n: u8) -> (r: String)
    ensures
        r@ == dec_str(n as int),
    decreases n,
{
    if n < 10 {
        let s = String::from_str(digit_str(n));
        s
    } else {
        let mut s = u8_dec_string(n / 10);
        s.append(digit_str(n % 10));
        s
    }
}

/// The message text of each rule error.
pub open spec fn header_rule_message(e: HeaderRuleError) -> Seq<char> {
    match e {
        HeaderRuleError::LevelOutOfRange(level) => "Header level "@ + dec_str(level as int)
            + " does not fall within 1..6."@,
        HeaderRuleError::NotADigit(c) => "Header level is not a digit, it was "@ + seq![c] + "."@,
        HeaderRuleError::BadSeparator(level) => "The third character after `h"@ + dec_str(
            level as int,
        ) + "` must be a colon `:` or equals sign `=`."@,
        HeaderRuleError::MissingText(level) => "Some text to match against is required after h"@
            + dec_str(level as int) + "."@,
    }
}

/// Relies on char::to_string: the one-character string of the character.
#[verifier::external_body]
fn char_to_string(c: char) -> (r: String)
    ensures
        r@ == seq![c],
{
    c.to_string()
}

impl HeaderRuleError {
    /// Renders the error as the message a user sees.
    pub fn message(&self) -> (msg: String)
        ensures
            msg@ == header_rule_message(*self),
    {
        match self {
            HeaderRuleError::LevelOutOfRange(level) => {
                let mut msg = String::from_str("Header level ");
                msg.append(u8_dec_string(*level).as_str());
                msg.append(" does not fall within 1..6.");
                msg
            },
            HeaderRuleError::NotADigit(c) => {
                let mut msg = String::from_str("Header level is not a digit, it was ");
                msg.append(char_to_string(*c).as_str());
                msg.append(".");
                msg
            },
            HeaderRuleError::BadSeparator(level) => {
                let mut msg = String::from_str("The third character after `h");
                msg.append(u8_dec_string(*level).as_str());
                msg.append("` must be a colon `:` or equals sign `=`.");
                msg
            },
            HeaderRuleError::MissingText(level) => {
                let mut msg = String::from_str("Some text to match against is required after h");
                msg.append(u8_dec_string(*level).as_str());
                msg.append(".");
                msg
            },
        }
    }
}

/// What parsing a collapsible-headers rule string yields: the minimum
/// heading level and the marker text, or the reason the rule is rejected.
/// A rule `h<digit>` takes its level from the digit, which must be one
/// through six, may follow it with a colon or an equals sign, and needs
/// marker text after that; any other rule is all marker text at level one.
pub open spec fn parse_header_rule_spec(s: Seq<char>) -> Result<(u8, Seq<char>), HeaderRuleError> {
    if s.len() >= 2 && s[0] == 'h' {
        let b = s[1];
        if !('0' <= b <= '9') {
            Err(HeaderRuleError::NotADigit(b))
        } else {
            let d = (b as int - '0' as int) as u8;
            if !(1 <= d <= 6) {
                Err(HeaderRuleError::LevelOutOfRange(d))
            } else if s.len() >= 3 && !(s[2] == ':' || s[2] == '=') {
                Err(HeaderRuleError::BadSeparator(d))
            } else if s.len() <= 3 {
                Err(HeaderRuleError::MissingText(d))
            } else {
                Ok((d, s.skip(3)))
            }
        }
    } else {
        if s.len() == 0 {
            Err(HeaderRuleError::MissingText(1))
        } else {
            Ok((1, s))
        }
    }
}

/// Parses a collapsible-headers rule string into the minimum heading level
/// and the marker text.
pub fn parse_collapsible_headers(s: &str) -> (r: Result<(u8, String), HeaderRuleError>)
    ensures
        match (r, parse_header_rule_spec(s@)) {
            (Ok(got), Ok(want)) => got.0 == want.0 && got.1@ == want.1,
            (Err(got), Err(want)) => got == want,
            _ => false,
        },
{
    let len = s.unicode_len();
    if len >= 2 && s.get_char(0) == 'h' {
        let b = s.get_char(1);
        let code = b as u32;
        if code < '0' as u32 || code > '9' as u32 {
            return Err(HeaderRuleError::NotADigit(b));
        }
        let d = (code - '0' as u32) as u8;
        if d < 1 || d > 6 {
            return Err(HeaderRuleError::LevelOutOfRange(d));
        }
        if len >= 3 {
            let sep = s.get_char(2);
            if sep != ':' && sep != '=' {
                return Err(HeaderRuleError::BadSeparator(d));
            }
        }
        if len <= 3 {
            return Err(HeaderRuleError::MissingText(d));
        }
        let rest = s.substring_char(3, len);
        Ok((d, rest.to_owned()))
    } else {
        if len == 0 {
            return Err(HeaderRuleError::MissingText(1));
        }
        Ok((1, s.to_owned()))
    }
}

} // verus!
