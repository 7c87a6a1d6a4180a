//! How urgent an issue is.

use crate::text::{chars_of, has_char, same_chars};
use vstd::prelude::*;

verus! {

/// The four severities, most urgent first.
#[derive(Debug, Clone, Copy, PartialEq, Eq, PartialOrd, Ord, Hash, Structural)]
pub enum Severity {
    Crit,
    High,
    Med,
    Low,
}

impl Severity {
    /// The word that a file name and the configuration use for the severity.
    pub open spec fn name(self) -> Seq<char> {
        match self {
            Severity::Crit => "crit"@,
            Severity::High => "high"@,
            Severity::Med => "med"@,
            Severity::Low => "low"@,
        }
    }

    /// The place of the severity in the order of urgency: 0 for the most
    /// urgent.
    pub open spec fn rank(self) -> int {
        match self {
            Severity::Crit => 0,
            Severity::High => 1,
            Severity::Med => 2,
            Severity::Low => 3,
        }
    }

    pub fn as_str(&self) -> (r: &'static str)
        ensures
            r@ == self.name(),
    {
        match self {
            Severity::Crit => "crit",
            Severity::High => "high",
            Severity::Med => "med",
            Severity::Low => "low",
        }
    }

    pub fn position(&self) -> (r: u8)
        ensures
            r == self.rank(),
    {
        match self {
            Severity::Crit => 0,
            Severity::High => 1,
            Severity::Med => 2,
            Severity::Low => 3,
        }
    }

    /// Reads a severity word. Any other text is no severity.
    pub fn parse(s: &str) -> (r: Option<Severity>)
        ensures
            r == severity_of(s@),
    {
        let v = chars_of(s);
        Severity::from_chars(&v)
    }

    pub fn from_chars(v: &Vec<char>) -> (r: Option<Severity>)
        ensures
            r == severity_of(v@),
    {
        if same_chars(v, &chars_of("crit")) {
            Some(Severity::Crit)
        } else if same_chars(v, &chars_of("high")) {
            Some(Severity::High)
        } else if same_chars(v, &chars_of("med")) {
            Some(Severity::Med)
        } else if same_chars(v, &chars_of("low")) {
            Some(Severity::Low)
        } else {
            None
        }
    }
}

impl std::str::FromStr for Severity {
    type Err = crate::error::MothError;

    fn from_str(s: &str) -> (r: Result<Severity, crate::error::MothError>)
        ensures
            match severity_of(s@) {
                Some(sev) => r matches Ok(found) && found == sev,
                None => r matches Err(e) && e@ == (crate::error::ErrorView::InvalidSeverity {
                    text: s@,
                }),
            },
    {
        match Severity::parse(s) {
            Some(sev) => Ok(sev),
            None => Err(
                crate::error::MothError::InvalidSeverity {
                    text: crate::text::string_of(&chars_of(s)),
                },
            ),
        }
    }
}

/// The severity that a word names, if it names one.
pub open spec fn severity_of(s: Seq<char>) -> Option<Severity> {
    if s == "crit"@ {
        Some(Severity::Crit)
    } else if s == "high"@ {
        Some(Severity::High)
    } else if s == "med"@ {
        Some(Severity::Med)
    } else if s == "low"@ {
        Some(Severity::Low)
    } else {
        None
    }
}

/// Each severity word is read back as its severity, and none holds a
/// character that the file name grammar reserves.
pub proof fn lemma_severity_names(sev: Severity)
    ensures
        severity_of(sev.name()) == Some(sev),
        !has_char(sev.name(), '-'),
        !has_char(sev.name(), '.'),
        !has_char(sev.name(), '/'),
        sev.name().len() >= 3,
{
    reveal_strlit("crit");
    reveal_strlit("high");
    reveal_strlit("med");
    reveal_strlit("low");
    assert("crit"@[0] == 'c');
    assert("high"@[0] == 'h');
    assert("med"@[0] == 'm');
    assert("low"@[0] == 'l');
}

} // verus!
