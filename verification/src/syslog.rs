//! Extraction of the message text and of the sending host's name from the
//! bytes of one syslog datagram.

use vstd::prelude::*;
use vstd::string::StringSliceAdditionalSpecFns;
use vstd::utf8::{decode_utf8, encode_utf8_decode_utf8, valid_utf8};

verus! {

/// A message as a mathematical value.
pub struct ParsedMessage {
    /// The decoded text, whole.
    pub text: Seq<char>,
    /// The sending host's name, where a header gave it.
    pub hostname: Option<Seq<char>>,
}

/// One message taken from a datagram.
#[derive(Debug, Clone, PartialEq)]
pub struct SyslogPacket {
    /// The decoded text, whole: priority and timestamp, where present, are
    /// part of it.
    pub message: String,
    /// The sending host's name, where a header gave it.
    pub hostname: Option<String>,
}

impl View for SyslogPacket {
    type V = ParsedMessage;

    open spec fn view(&self) -> ParsedMessage {
        ParsedMessage { text: self.message@, hostname: self.hostname.deep_view() }
    }
}

/// The two header layouts that are recognised, in the order in which they
/// are tried.
#[derive(Debug, Clone, Copy, PartialEq, Eq, Structural)]
pub enum HeaderGrammar {
    /// `<PRI>VERSION TIMESTAMP HOSTNAME ...`
    Rfc5424,
    /// `<PRI>Mmm DD HH:MM:SS HOSTNAME ...`
    Rfc3164,
}

/// What the regular expression `pattern` captures in `text`: `None` where
/// `pattern` does not compile or matches nowhere in `text`; else the capture
/// groups of the first match, by number, each with the text that it took
/// part with, if it took part. Group 0 is the whole match.
pub uninterp spec fn regex_captures(pattern: Seq<char>, text: Seq<char>) -> Option<Seq<Option<Seq<char>>>>;

/// Runs `regex::Regex::new` on `pattern` and `Regex::captures` of the result
/// on `text`, and copies each group of the match out as a string. Believed,
/// not proved: the outcome is `regex_captures` of the two arguments.
#[verifier::external_body]
fn captures(pattern: &str, text: &str) -> (groups: Option<Vec<Option<String>>>)
    ensures
        groups.deep_view() == regex_captures(pattern@, text@),
{
    match regex::Regex::new(pattern) {
        Ok(expression) => expression.captures(text).map(
            |found| found.iter().map(|group| group.map(|part| part.as_str().to_string())).collect(),
        ),
        Err(_) => None,
    }
}

/// Runs `std::str::from_utf8`. Believed, not proved: the bytes are accepted
/// exactly when they are well-formed UTF-8, and the text then consists of
/// these same bytes.
#[verifier::external_body]
fn utf8_text(bytes: &[u8]) -> (text: Option<&str>)
    ensures
        text is Some <==> valid_utf8(bytes@),
        text matches Some(decoded) ==> decoded.spec_bytes() == bytes@,
{
    std::str::from_utf8(bytes).ok()
}

/// The group at `index`, where there is one and it took part in the match.
pub open spec fn group_at(groups: Seq<Option<Seq<char>>>, index: int) -> Option<Seq<char>> {
    if 0 <= index < groups.len() {
        groups[index]
    } else {
        None
    }
}

impl HeaderGrammar {
    /// The layout as a regular expression, anchored at the start of the text.
    pub open spec fn pattern_text(self) -> Seq<char> {
        match self {
            HeaderGrammar::Rfc5424 => "^<(\\d{1,3})>(\\d)\\s+(\\S+)\\s+(\\S+)\\s+"@,
            HeaderGrammar::Rfc3164 =>
                "^<(\\d{1,3})>([A-Z][a-z]{2}\\s+\\d+\\s+\\d{2}:\\d{2}:\\d{2})\\s+(\\S+)\\s+"@,
        }
    }

    /// Number of the capture group that holds the host's name.
    pub open spec fn hostname_index(self) -> int {
        match self {
            HeaderGrammar::Rfc5424 => 4,
            HeaderGrammar::Rfc3164 => 3,
        }
    }

    /// The groups that the layout captures in `text`, if it matches.
    pub open spec fn groups_in(self, text: Seq<char>) -> Option<Seq<Option<Seq<char>>>> {
        regex_captures(self.pattern_text(), text)
    }

    /// The layout as a regular expression.
    pub fn pattern(&self) -> (pattern: &'static str)
        ensures
            pattern@ == self.pattern_text(),
    {
        match self {
            HeaderGrammar::Rfc5424 => "^<(\\d{1,3})>(\\d)\\s+(\\S+)\\s+(\\S+)\\s+",
            HeaderGrammar::Rfc3164 =>
                "^<(\\d{1,3})>([A-Z][a-z]{2}\\s+\\d+\\s+\\d{2}:\\d{2}:\\d{2})\\s+(\\S+)\\s+",
        }
    }

    /// Number of the capture group that holds the host's name.
    pub fn hostname_group(&self) -> (index: usize)
        ensures
            index == self.hostname_index(),
    {
        match self {
            HeaderGrammar::Rfc5424 => 4,
            HeaderGrammar::Rfc3164 => 3,
        }
    }

    /// Matches the layout against `text`.
    pub fn capture(&self, text: &str) -> (groups: Option<Vec<Option<String>>>)
        ensures
            groups.deep_view() == self.groups_in(text@),
    {
        captures(self.pattern(), text)
    }

    /// The host's name among the groups of a match of this layout.
    pub fn hostname_in(&self, groups: &Vec<Option<String>>) -> (hostname: Option<String>)
        ensures
            hostname.deep_view() == group_at(groups.deep_view(), self.hostname_index()),
    {
        let index = self.hostname_group();
        if index < groups.len() {
            match &groups[index] {
                Some(name) => Some(name.clone()),
                None => None,
            }
        } else {
            None
        }
    }
}

/// The host's name in `text`: that of the first layout which matches, the
/// newer layout being tried first; none where neither matches.
pub open spec fn hostname_of(text: Seq<char>) -> Option<Seq<char>> {
    match HeaderGrammar::Rfc5424.groups_in(text) {
        Some(groups) => group_at(groups, HeaderGrammar::Rfc5424.hostname_index()),
        None => match HeaderGrammar::Rfc3164.groups_in(text) {
            Some(groups) => group_at(groups, HeaderGrammar::Rfc3164.hostname_index()),
            None => None,
        },
    }
}

/// The message in a datagram: none for no bytes at all and for bytes that
/// are not UTF-8; else the decoded text with the host's name found in it.
pub open spec fn extract(packet: Seq<u8>) -> Option<ParsedMessage> {
    if packet.len() == 0 || !valid_utf8(packet) {
        None
    } else {
        Some(
            ParsedMessage {
                text: decode_utf8(packet),
                hostname: hostname_of(decode_utf8(packet)),
            },
        )
    }
}

/// Finds the host's name in the text of a message.
pub fn extract_hostname(text: &str) -> (hostname: Option<String>)
    ensures
        hostname.deep_view() == hostname_of(text@),
{
    match HeaderGrammar::Rfc5424.capture(text) {
        Some(groups) => HeaderGrammar::Rfc5424.hostname_in(&groups),
        None => match HeaderGrammar::Rfc3164.capture(text) {
            Some(groups) => HeaderGrammar::Rfc3164.hostname_in(&groups),
            None => None,
        },
    }
}

/// Reads one datagram. Empty and undecodable datagrams give nothing; any
/// other gives its whole text, with the host's name where a header shows it.
pub fn parse_syslog_packet(packet: &[u8]) -> (parsed: Option<SyslogPacket>)
    ensures
        parsed is Some <==> packet@.len() > 0 && valid_utf8(packet@),
        match parsed {
            Some(message) => extract(packet@) == Some(message@),
            None => extract(packet@) is None,
        },
{
    if packet.len() == 0 {
        return None;
    }
    match utf8_text(packet) {
        Some(text) => {
            proof {
                encode_utf8_decode_utf8(text@);
            }
            let hostname = extract_hostname(text);
            Some(SyslogPacket { message: text.to_owned(), hostname })
        },
        None => None,
    }
}

} // verus!
