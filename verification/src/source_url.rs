//! The address of a node's block archive, and the name of the node that it
//! tells.
//!
//! Addresses are values of `url::Url`. What that crate says of an address is
//! believed, not proved: its scheme, its path segments and its text.

use url::Url;
use vstd::prelude::*;

verus! {

/// Declares `url::Url`, a parsed address. Nothing is said of what is inside
/// a value of it.
#[verifier::external_type_specification]
#[verifier::external_body]
pub struct ExUrl(Url);

/// What `Url::scheme` returns for an address: its scheme, in lower case and
/// without the colon.
pub uninterp spec fn url_scheme(url: Url) -> Seq<char>;

/// What `Url::path_segments` returns for an address: the segments of its
/// path, or `None` for an address that cannot be a base.
pub uninterp spec fn url_path_segments(url: Url) -> Option<Seq<Seq<char>>>;

/// What `Url::to_string` returns for an address: its text.
pub uninterp spec fn url_text(url: Url) -> Seq<char>;

/// A list of strings as a mathematical value.
pub open spec fn strings_view(strings: Seq<String>) -> Seq<Seq<char>> {
    Seq::new(strings.len(), |i: int| strings[i]@)
}

/// An optional list of strings as a mathematical value.
pub open spec fn segments_view(segments: Option<Vec<String>>) -> Option<Seq<Seq<char>>> {
    match segments {
        Some(parts) => Some(strings_view(parts@)),
        None => None,
    }
}

/// Calls `Url::scheme`. Believed: the string that comes back is the scheme
/// of the address.
#[verifier::external_body]
fn scheme_of(url: &Url) -> (scheme: String)
    ensures
        scheme@ == url_scheme(*url),
{
    url.scheme().to_string()
}

/// Calls `Url::path_segments`. Believed: the strings that come back are the
/// segments of the address's path, in order, and `None` comes back for an
/// address that cannot be a base.
#[verifier::external_body]
fn path_segments_of(url: &Url) -> (segments: Option<Vec<String>>)
    ensures
        segments_view(segments) == url_path_segments(*url),
{
    url.path_segments().map(|parts| parts.map(|part| part.to_string()).collect())
}

/// Calls `Url::to_string`. Believed: the string that comes back is the text
/// of the address.
#[verifier::external_body]
fn text_of(url: &Url) -> (text: String)
    ensures
        text@ == url_text(*url),
{
    url.to_string()
}

/// Name of a consensus node.
#[derive(Clone, Debug, PartialEq, Eq)]
pub struct ResponderId(pub String);

impl View for ResponderId {
    type V = Seq<char>;

    open spec fn view(&self) -> Seq<char> {
        self.0@
    }
}

/// The segment before the last one, where there are two segments or more.
pub open spec fn host_segment(segments: Option<Seq<Seq<char>>>) -> Option<Seq<char>> {
    match segments {
        Some(parts) => if parts.len() >= 2 {
            Some(parts[parts.len() - 2])
        } else {
            None
        },
        None => None,
    }
}

/// The name of the node behind an address. An `https` address names the node
/// in the segment before the last of its path, and names none if its path
/// has fewer than two segments; any other address is the name itself.
pub open spec fn responder_name(url: Url) -> Option<Seq<char>> {
    if url_scheme(url) == "https"@ {
        host_segment(url_path_segments(url))
    } else {
        Some(url_text(url))
    }
}

/// Whether `scheme` is `https`.
pub fn is_https(scheme: &String) -> (https: bool)
    ensures
        https == (scheme@ == "https"@),
{
    let https = "https".to_owned();
    *scheme == https
}

/// The segment before the last one, where there are two segments or more.
pub fn host_segment_of(segments: &Option<Vec<String>>) -> (name: Option<String>)
    ensures
        match name {
            Some(text) => host_segment(segments_view(*segments)) == Some(text@),
            None => host_segment(segments_view(*segments)) is None,
        },
{
    match segments {
        Some(parts) => {
            if parts.len() >= 2 {
                Some(parts[parts.len() - 2].clone())
            } else {
                None
            }
        },
        None => None,
    }
}

/// Whether the address names a node.
fn names_responder(url: &Url) -> (named: bool)
    ensures
        named == (responder_name(*url) is Some),
{
    let scheme = scheme_of(url);
    if is_https(&scheme) {
        let segments = path_segments_of(url);
        host_segment_of(&segments).is_some()
    } else {
        true
    }
}

/// The name of the node behind `url`. The address must name one.
pub fn create_responder_id(url: &Url) -> (id: ResponderId)
    requires
        responder_name(*url) is Some,
    ensures
        responder_name(*url) == Some(id@),
{
    let scheme = scheme_of(url);
    if is_https(&scheme) {
        let segments = path_segments_of(url);
        match host_segment_of(&segments) {
            Some(name) => ResponderId(name),
            None => vstd::pervasive::unreached(),
        }
    } else {
        ResponderId(text_of(url))
    }
}

/// The name of the node behind `url`, or `None` where the address names
/// none.
pub fn try_create_responder_id(url: &Url) -> (id: Option<ResponderId>)
    ensures
        match id {
            Some(responder) => responder_name(*url) == Some(responder@),
            None => responder_name(*url) is None,
        },
{
    if names_responder(url) {
        Some(create_responder_id(url))
    } else {
        None
    }
}

} // verus!
