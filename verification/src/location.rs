//! Where machine code comes from, as debug information tells.
//!
//! Looking an address up is left to the caller, who has the debug information: a lookup can open
//! further files. This module says what a reply to a lookup means.

use crate::text::optional_text;
use vstd::prelude::*;

verus! {

/// A place in a source file.
#[derive(Clone, Debug)]
pub struct SourceLocation {
    pub file: Option<String>,
    pub line: Option<u32>,
}

/// What a [`SourceLocation`] holds.
pub struct SourceLocationView {
    pub file: Option<Seq<char>>,
    pub line: Option<u32>,
}

impl View for SourceLocation {
    type V = SourceLocationView;

    open spec fn view(&self) -> SourceLocationView {
        SourceLocationView { file: optional_text(self.file), line: self.line }
    }
}

/// Debug information that could not be read.
#[derive(Clone, Copy, Debug)]
pub struct LookupError;

/// What a lookup gave.
pub open spec fn lookup_view(reply: Result<Option<SourceLocation>, LookupError>) -> Result<
    Option<SourceLocationView>,
    LookupError,
> {
    match reply {
        Ok(Some(location)) => Ok(Some(location@)),
        Ok(None) => Ok(None),
        Err(error) => Err(error),
    }
}

/// What the lookups gave.
pub open spec fn lookup_views(
    replies: Seq<Result<Option<SourceLocation>, LookupError>>,
) -> Seq<Result<Option<SourceLocationView>, LookupError>> {
    replies.map_values(|reply: Result<Option<SourceLocation>, LookupError>| lookup_view(reply))
}

/// Neither a file nor a line.
pub open spec fn nowhere() -> SourceLocationView {
    SourceLocationView { file: None, line: None }
}

/// The file and line of a reply. A lookup that fails or finds nothing has neither.
pub open spec fn reply_location(
    reply: Result<Option<SourceLocationView>, LookupError>,
) -> SourceLocationView {
    match reply {
        Ok(Some(location)) => location,
        _ => nowhere(),
    }
}

/// The file and line of the reply with this number. Without a reply there is neither.
pub open spec fn location_at(
    replies: Seq<Result<Option<SourceLocationView>, LookupError>>,
    at: int,
) -> SourceLocationView {
    if 0 <= at < replies.len() {
        reply_location(replies[at])
    } else {
        nowhere()
    }
}

/// The file and line of a reply.
pub fn location_from_reply(reply: &Result<Option<SourceLocation>, LookupError>) -> (location:
    SourceLocation)
    ensures
        location@ == reply_location(lookup_view(*reply)),
{
    match reply {
        Ok(Some(location)) => SourceLocation {
            file: match &location.file {
                Some(file) => Some(file.clone()),
                None => None,
            },
            line: location.line,
        },
        _ => SourceLocation { file: None, line: None },
    }
}

/// The file and line of the reply with this number.
pub fn source_location(
    replies: &[Result<Option<SourceLocation>, LookupError>],
    at: usize,
) -> (location: SourceLocation)
    ensures
        location@ == location_at(lookup_views(replies@), at as int),
{
    if at < replies.len() {
        location_from_reply(&replies[at])
    } else {
        SourceLocation { file: None, line: None }
    }
}

} // verus!
