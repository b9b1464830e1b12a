//! Messages sent to the log writer's worker thread.

use vstd::prelude::*;

verus! {

/// A message for the log writer: text to append, or the request to stop.
#[derive(Debug)]
pub enum ChannelData {
    Write(String),
    Terminate,
}

impl ChannelData {
    /// What the worker does with this message: `Some(text)` to write `text`
    /// and flush, `None` to stop reading further messages.
    pub fn into_payload(self) -> (payload: Option<String>)
        ensures
            payload == (match self {
                ChannelData::Write(s) => Some(s),
                ChannelData::Terminate => None::<String>,
            }),
    {
        match self {
            ChannelData::Write(s) => Some(s),
            ChannelData::Terminate => None,
        }
    }
}

impl From<&str> for ChannelData {
    fn from(value: &str) -> (d: ChannelData)
        ensures
            d matches ChannelData::Write(s) && s@ == value@,
    {
        ChannelData::Write(String::from_str(value))
    }
}

/// A `&str` has no spec-level `String`, so `from` states its result in its
/// own `ensures` instead.
impl vstd::std_specs::convert::FromSpecImpl<&str> for ChannelData {
    open spec fn obeys_from_spec() -> bool {
        false
    }

    open spec fn from_spec(v: &str) -> ChannelData {
        ChannelData::Terminate
    }
}

impl From<String> for ChannelData {
    fn from(value: String) -> (d: ChannelData) {
        ChannelData::Write(value)
    }
}

impl vstd::std_specs::convert::FromSpecImpl<String> for ChannelData {
    open spec fn obeys_from_spec() -> bool {
        true
    }

    open spec fn from_spec(v: String) -> ChannelData {
        ChannelData::Write(v)
    }
}

} // verus!
