//! What can go wrong, and the words for it.

use crate::number::{decimal, write_decimal};
use crate::split::join;
use crate::text::string_of;
use vstd::prelude::*;
use vstd::string::*;

verus! {

/// The class of an error.
#[derive(Debug, Clone, Copy, PartialEq, Eq, Structural)]
pub enum ErrorKind {
    /// Nothing matches an identifier, or a named status or file does not
    /// exist.
    NotFound,
    /// A partial identifier matches more than one issue.
    Ambiguous,
    /// A title, severity, position, file name or configuration value is
    /// not acceptable.
    InvalidInput,
    /// The request does not fit the status it addresses, or an issue is to
    /// move to a status that does not exist.
    Conflict,
    /// No free identifier was found within the bound on attempts.
    ResourceExhausted,
    /// The directory layout is not what the store expects.
    IoFailure,
}

/// An error of the tracker.
#[derive(Debug, Clone)]
pub enum MothError {
    NotFound { id: String },
    Ambiguous { partial: String, matches: Vec<String> },
    EmptyTitle,
    InvalidSeverity { text: String },
    InvalidPosition { text: String },
    InvalidFilename,
    MissingTarget { above: bool },
    /// A status that is to be listed, reordered or compacted does not exist.
    UnknownStatus { name: String },
    /// The status that an issue is to move to does not exist.
    UnknownTarget { name: String },
    NotPrioritized { status: String },
    DifferentStatus { target: String, subject: String },
    RankOverflow,
    IdsExhausted,
    MissingDirectory { path: String },
    MissingFile { path: String },
    TooFewStatuses { found: usize },
    InvalidDefaultSeverity { text: String },
    InvalidIdLength { found: usize },
}

/// An error with its texts as character sequences.
pub enum ErrorView {
    NotFound { id: Seq<char> },
    Ambiguous { partial: Seq<char>, matches: Seq<Seq<char>> },
    EmptyTitle,
    InvalidSeverity { text: Seq<char> },
    InvalidPosition { text: Seq<char> },
    InvalidFilename,
    MissingTarget { above: bool },
    UnknownStatus { name: Seq<char> },
    UnknownTarget { name: Seq<char> },
    NotPrioritized { status: Seq<char> },
    DifferentStatus { target: Seq<char>, subject: Seq<char> },
    RankOverflow,
    IdsExhausted,
    MissingDirectory { path: Seq<char> },
    MissingFile { path: Seq<char> },
    TooFewStatuses { found: usize },
    InvalidDefaultSeverity { text: Seq<char> },
    InvalidIdLength { found: usize },
}

/// The character sequences of a list of texts.
pub open spec fn texts(v: Seq<String>) -> Seq<Seq<char>> {
    v.map_values(|s: String| s@)
}

impl View for MothError {
    type V = ErrorView;

    open spec fn view(&self) -> ErrorView {
        match self {
            MothError::NotFound { id } => ErrorView::NotFound { id: id@ },
            MothError::Ambiguous { partial, matches } => ErrorView::Ambiguous {
                partial: partial@,
                matches: texts(matches@),
            },
            MothError::EmptyTitle => ErrorView::EmptyTitle,
            MothError::InvalidSeverity { text } => ErrorView::InvalidSeverity { text: text@ },
            MothError::InvalidPosition { text } => ErrorView::InvalidPosition { text: text@ },
            MothError::InvalidFilename => ErrorView::InvalidFilename,
            MothError::MissingTarget { above } => ErrorView::MissingTarget { above: *above },
            MothError::UnknownStatus { name } => ErrorView::UnknownStatus { name: name@ },
            MothError::UnknownTarget { name } => ErrorView::UnknownTarget { name: name@ },
            MothError::NotPrioritized { status } => ErrorView::NotPrioritized { status: status@ },
            MothError::DifferentStatus { target, subject } => ErrorView::DifferentStatus {
                target: target@,
                subject: subject@,
            },
            MothError::RankOverflow => ErrorView::RankOverflow,
            MothError::IdsExhausted => ErrorView::IdsExhausted,
            MothError::MissingDirectory { path } => ErrorView::MissingDirectory { path: path@ },
            MothError::MissingFile { path } => ErrorView::MissingFile { path: path@ },
            MothError::TooFewStatuses { found } => ErrorView::TooFewStatuses { found: *found },
            MothError::InvalidDefaultSeverity { text } => ErrorView::InvalidDefaultSeverity {
                text: text@,
            },
            MothError::InvalidIdLength { found } => ErrorView::InvalidIdLength { found: *found },
        }
    }
}

impl ErrorView {
    /// The class that the error falls under.
    pub open spec fn kind(self) -> ErrorKind {
        match self {
            ErrorView::NotFound { .. } => ErrorKind::NotFound,
            ErrorView::MissingFile { .. } => ErrorKind::NotFound,
            ErrorView::Ambiguous { .. } => ErrorKind::Ambiguous,
            ErrorView::EmptyTitle => ErrorKind::InvalidInput,
            ErrorView::InvalidSeverity { .. } => ErrorKind::InvalidInput,
            ErrorView::InvalidPosition { .. } => ErrorKind::InvalidInput,
            ErrorView::InvalidFilename => ErrorKind::InvalidInput,
            ErrorView::MissingTarget { .. } => ErrorKind::InvalidInput,
            ErrorView::RankOverflow => ErrorKind::InvalidInput,
            ErrorView::TooFewStatuses { .. } => ErrorKind::InvalidInput,
            ErrorView::InvalidDefaultSeverity { .. } => ErrorKind::InvalidInput,
            ErrorView::InvalidIdLength { .. } => ErrorKind::InvalidInput,
            ErrorView::UnknownStatus { .. } => ErrorKind::NotFound,
            ErrorView::UnknownTarget { .. } => ErrorKind::Conflict,
            ErrorView::NotPrioritized { .. } => ErrorKind::Conflict,
            ErrorView::DifferentStatus { .. } => ErrorKind::Conflict,
            ErrorView::IdsExhausted => ErrorKind::ResourceExhausted,
            ErrorView::MissingDirectory { .. } => ErrorKind::IoFailure,
        }
    }

    /// The sentence that tells a person what went wrong.
    pub open spec fn message(self) -> Seq<char> {
        match self {
            ErrorView::NotFound { id } => "No issue found with ID: "@ + id,
            ErrorView::Ambiguous { partial, matches } => "Ambiguous ID '"@ + partial
                + "'. Matches: "@ + join(matches, ", "@),
            ErrorView::EmptyTitle => "Issue title cannot be empty"@,
            ErrorView::InvalidSeverity { text } => "Invalid severity: "@ + text
                + ". Must be one of: crit, high, med, low"@,
            ErrorView::InvalidPosition { text } => "Invalid position: "@ + text,
            ErrorView::InvalidFilename =>
                "Invalid filename format. Expected: [{order}-]{id}-{severity}-{slug}.md"@,
            ErrorView::MissingTarget { above } => if above {
                "Missing target issue ID for 'above'"@
            } else {
                "Missing target issue ID for 'below'"@
            },
            ErrorView::UnknownStatus { name } => "Unknown status: "@ + name,
            ErrorView::UnknownTarget { name } => "Unknown status: "@ + name,
            ErrorView::NotPrioritized { status } => "Status '"@ + status
                + "' is not configured for prioritization"@,
            ErrorView::DifferentStatus { target, subject } =>
                "Target issue is in different status: "@ + target + " vs "@ + subject,
            ErrorView::RankOverflow => "Priority order is too large"@,
            ErrorView::IdsExhausted => "Failed to generate unique ID after 100 attempts"@,
            ErrorView::MissingDirectory { path } => "Status directory does not exist: "@ + path
                + ". Try running 'moth init' first."@,
            ErrorView::MissingFile { path } => "No such issue file: "@ + path,
            ErrorView::TooFewStatuses { found } => "Config must have at least 2 statuses, found "@
                + decimal(found as nat),
            ErrorView::InvalidDefaultSeverity { text } => "Invalid default_severity: "@ + text
                + ". Must be one of: crit, high, med, low"@,
            ErrorView::InvalidIdLength { found } => "id_length must be between 3 and 10, found "@
                + decimal(found as nat),
        }
    }
}

fn text2(a: &str, b: &str) -> (r: String)
    ensures
        r@ == a@ + b@,
{
    let mut s = String::from_str(a);
    s.append(b);
    s
}

fn text3(a: &str, b: &str, c: &str) -> (r: String)
    ensures
        r@ == a@ + b@ + c@,
{
    let mut s = String::from_str(a);
    s.append(b);
    s.append(c);
    s
}

fn text_with_number(a: &str, n: usize) -> (r: String)
    ensures
        r@ == a@ + decimal(n as nat),
{
    let digits = string_of(&write_decimal(n as u64));
    let mut s = String::from_str(a);
    s.append(digits.as_str());
    s
}

/// The texts with ", " between each two neighbours.
fn comma_list(items: &Vec<String>) -> (r: String)
    ensures
        r@ == join(texts(items@), ", "@),
{
    let mut r = String::new();
    let mut i: usize = 0;
    proof {
        assert(texts(items@).take(0) == Seq::<Seq<char>>::empty());
    }
    while i < items.len()
        invariant
            i <= items.len(),
            r@ == join(texts(items@).take(i as int), ", "@),
        decreases items.len() - i,
    {
        proof {
            let next = texts(items@).take(i + 1);
            assert(next.drop_last() == texts(items@).take(i as int));
            assert(next.last() == items@[i as int]@);
            if i == 0 {
                assert(next[0] == items@[0]@);
                assert(Seq::<char>::empty() + items@[0]@ == items@[0]@);
            }
        }
        if i > 0 {
            r.append(", ");
        }
        r.append(items[i].as_str());
        i += 1;
    }
    proof {
        assert(texts(items@).take(items.len() as int) == texts(items@));
    }
    r
}

impl MothError {
    pub fn kind(&self) -> (r: ErrorKind)
        ensures
            r == self@.kind(),
    {
        match self {
            MothError::NotFound { .. } => ErrorKind::NotFound,
            MothError::MissingFile { .. } => ErrorKind::NotFound,
            MothError::Ambiguous { .. } => ErrorKind::Ambiguous,
            MothError::EmptyTitle => ErrorKind::InvalidInput,
            MothError::InvalidSeverity { .. } => ErrorKind::InvalidInput,
            MothError::InvalidPosition { .. } => ErrorKind::InvalidInput,
            MothError::InvalidFilename => ErrorKind::InvalidInput,
            MothError::MissingTarget { .. } => ErrorKind::InvalidInput,
            MothError::RankOverflow => ErrorKind::InvalidInput,
            MothError::TooFewStatuses { .. } => ErrorKind::InvalidInput,
            MothError::InvalidDefaultSeverity { .. } => ErrorKind::InvalidInput,
            MothError::InvalidIdLength { .. } => ErrorKind::InvalidInput,
            MothError::UnknownStatus { .. } => ErrorKind::NotFound,
            MothError::UnknownTarget { .. } => ErrorKind::Conflict,
            MothError::NotPrioritized { .. } => ErrorKind::Conflict,
            MothError::DifferentStatus { .. } => ErrorKind::Conflict,
            MothError::IdsExhausted => ErrorKind::ResourceExhausted,
            MothError::MissingDirectory { .. } => ErrorKind::IoFailure,
        }
    }

    pub fn message(&self) -> (r: String)
        ensures
            r@ == self@.message(),
    {
        match self {
            MothError::NotFound { id } => text2("No issue found with ID: ", id.as_str()),
            MothError::Ambiguous { partial, matches } => {
                let list = comma_list(matches);
                let mut s = text3("Ambiguous ID '", partial.as_str(), "'. Matches: ");
                s.append(list.as_str());
                s
            },
            MothError::EmptyTitle => String::from_str("Issue title cannot be empty"),
            MothError::InvalidSeverity { text } => text3(
                "Invalid severity: ",
                text.as_str(),
                ". Must be one of: crit, high, med, low",
            ),
            MothError::InvalidPosition { text } => text2("Invalid position: ", text.as_str()),
            MothError::InvalidFilename => String::from_str(
                "Invalid filename format. Expected: [{order}-]{id}-{severity}-{slug}.md",
            ),
            MothError::MissingTarget { above } => if *above {
                String::from_str("Missing target issue ID for 'above'")
            } else {
                String::from_str("Missing target issue ID for 'below'")
            },
            MothError::UnknownStatus { name } => text2("Unknown status: ", name.as_str()),
            MothError::UnknownTarget { name } => text2("Unknown status: ", name.as_str()),
            MothError::NotPrioritized { status } => text3(
                "Status '",
                status.as_str(),
                "' is not configured for prioritization",
            ),
            MothError::DifferentStatus { target, subject } => {
                let mut s = text3("Target issue is in different status: ", target.as_str(), " vs ");
                s.append(subject.as_str());
                s
            },
            MothError::RankOverflow => String::from_str("Priority order is too large"),
            MothError::IdsExhausted => String::from_str(
                "Failed to generate unique ID after 100 attempts",
            ),
            MothError::MissingDirectory { path } => text3(
                "Status directory does not exist: ",
                path.as_str(),
                ". Try running 'moth init' first.",
            ),
            MothError::MissingFile { path } => text2("No such issue file: ", path.as_str()),
            MothError::TooFewStatuses { found } => text_with_number(
                "Config must have at least 2 statuses, found ",
                *found,
            ),
            MothError::InvalidDefaultSeverity { text } => text3(
                "Invalid default_severity: ",
                text.as_str(),
                ". Must be one of: crit, high, med, low",
            ),
            MothError::InvalidIdLength { found } => text_with_number(
                "id_length must be between 3 and 10, found ",
                *found,
            ),
        }
    }
}

} // verus!
