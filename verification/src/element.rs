//! What the elements share: property values and what setting one did, and
//! where an element's session comes from.

use vstd::prelude::*;
use crate::uri::opt_string_view;

verus! {

/// A property value, by the type the property is declared with.
#[derive(Debug, Clone)]
pub enum PropValue {
    Str(String),
    OptStr(Option<String>),
    U64(u64),
    U32(u32),
    I32(i32),
    Bool(bool),
    /// A compression algorithm (an enum property).
    Compression(crate::compression::CompressionType),
    /// A pad naming strategy (an enum property).
    Naming(crate::demux::PadNaming),
}

/// What setting a property did.
#[derive(Debug, Clone, Copy, PartialEq, Eq, Structural)]
pub enum SetOutcome {
    /// The value was stored.
    Applied,
    /// The value was out of range; the nearest value in range was stored.
    Clamped,
    /// The value was invalid; the property's default was stored.
    Defaulted,
    /// The value was invalid; the property kept its value.
    Kept,
    /// The property cannot change in the element's current state.
    Locked,
    /// No property has that name.
    Unknown,
}

/// Where an element's session comes from.
#[derive(Debug, Clone)]
pub enum SessionSource {
    /// A session handed to the element through its API.
    External,
    /// The shared session of a named group, opened with the config file when
    /// the group has no session yet.
    Group { group: String, config_file: Option<String> },
    /// A new session of its own, from the config file when one is named
    /// (a non-empty path), from the default config otherwise.
    Open { config_file: Option<String> },
}

/// The session source a set of settings asks for: an external session first,
/// then a session group, then a new session.
pub open spec fn session_source_of(
    has_external: bool,
    group: Option<Seq<char>>,
    config_file: Option<Seq<char>>,
) -> (u8, Option<Seq<char>>, Option<Seq<char>>) {
    if has_external {
        (0, None, None)
    } else if group is Some {
        (1, group, config_file)
    } else {
        (2, None, match config_file {
            Some(p) => if p.len() > 0 {
                Some(p)
            } else {
                None
            },
            None => None,
        })
    }
}

/// The shape of a session source, as `session_source_of` gives it.
pub open spec fn session_source_view(s: SessionSource) -> (u8, Option<Seq<char>>, Option<Seq<char>>) {
    match s {
        SessionSource::External => (0, None, None),
        SessionSource::Group { group, config_file } => (
            1,
            Some(group@),
            opt_string_view(config_file),
        ),
        SessionSource::Open { config_file } => (2, None, opt_string_view(config_file)),
    }
}

/// Determine the session source: external (API) > session-group (property) >
/// new session.
pub fn session_source(
    has_external: bool,
    session_group: &Option<String>,
    config_file: &Option<String>,
) -> (s: SessionSource)
    ensures
        session_source_view(s) == session_source_of(
            has_external,
            opt_string_view(*session_group),
            opt_string_view(*config_file),
        ),
{
    if has_external {
        SessionSource::External
    } else if let Some(g) = session_group {
        SessionSource::Group { group: g.clone(), config_file: config_file.clone() }
    } else {
        let config = match config_file {
            Some(p) => {
                let c = crate::text::chars_of(p.as_str());
                if c.len() > 0 {
                    Some(p.clone())
                } else {
                    None
                }
            },
            None => None,
        };
        SessionSource::Open { config_file: config }
    }
}

/// A property value with its texts as character sequences.
pub enum PropView {
    Str(Seq<char>),
    OptStr(Option<Seq<char>>),
    U64(u64),
    U32(u32),
    I32(i32),
    Bool(bool),
    Compression(crate::compression::CompressionType),
    Naming(crate::demux::PadNaming),
}

/// A property value's view.
pub open spec fn prop_view(v: PropValue) -> PropView {
    match v {
        PropValue::Str(s) => PropView::Str(s@),
        PropValue::OptStr(o) => PropView::OptStr(opt_string_view(o)),
        PropValue::U64(x) => PropView::U64(x),
        PropValue::U32(x) => PropView::U32(x),
        PropValue::I32(x) => PropView::I32(x),
        PropValue::Bool(x) => PropView::Bool(x),
        PropValue::Compression(x) => PropView::Compression(x),
        PropValue::Naming(x) => PropView::Naming(x),
    }
}

/// Named property values, viewed.
pub open spec fn props_view(v: Seq<(String, PropValue)>) -> Seq<(Seq<char>, PropView)> {
    v.map_values(|p: (String, PropValue)| (p.0@, prop_view(p.1)))
}

/// The session type elements share.
#[verifier::external_type_specification]
#[verifier::external_body]
pub struct ExSession(zenoh::Session);

/// What a builder hands over to make an element: the properties to set, in
/// order, and the session to share, if one was given.
pub struct ElementProperties {
    pub properties: Vec<(String, PropValue)>,
    pub session: Option<zenoh::Session>,
}

/// Append a named property.
pub fn push_prop(v: &mut Vec<(String, PropValue)>, name: &str, value: PropValue)
    ensures
        props_view(final(v)@) == props_view(old(v)@).push((name@, prop_view(value))),
{
    let ghost before = v@;
    v.push((String::from_str(name), value));
    assert(props_view(v@) =~= props_view(before).push((name@, prop_view(value))));
}

} // verus!
