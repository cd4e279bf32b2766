//! Single frames of media.

use crate::text::{begins, begins_with, option_view, owned};
use vstd::prelude::*;
use vstd::string::*;

verus! {

/// The address of a file. An address stays as it is; a path is given by its canonical form, or
/// as it stands where it has none.
pub open spec fn uri_of(path: Seq<char>, canonical: Option<Seq<char>>) -> Seq<char> {
    if begins(path, "file://"@) || begins(path, "http"@) {
        path
    } else {
        "file://"@ + (match canonical {
            Some(c) => c,
            None => path,
        })
    }
}

/// `uri_of` a path whose canonical form has been looked up.
pub fn path_to_uri(path: &str, canonical: &Option<String>) -> (r: String)
    ensures
        r@ == uri_of(path@, option_view(*canonical)),
{
    if begins_with(path, "file://") || begins_with(path, "http") {
        return owned(path);
    }
    let mut r = owned("file://");
    match canonical {
        Some(c) => r.append(c),
        None => r.append(path),
    }
    r
}

/// The pipeline that decodes the frames of an address to small pictures.
pub open spec fn frame_pipeline(uri: Seq<char>) -> Seq<char> {
    "uridecodebin uri=\""@ + uri
        + "\" ! videoconvert ! videoscale ! video/x-raw,format=RGBA,width=160,height=90 ! appsink name=sink sync=false"@
}

/// `frame_pipeline` of an address.
pub fn frame_pipeline_description(uri: &str) -> (r: String)
    ensures
        r@ == frame_pipeline(uri@),
{
    let mut r = owned("uridecodebin uri=\"");
    r.append(uri);
    r.append(
        "\" ! videoconvert ! videoscale ! video/x-raw,format=RGBA,width=160,height=90 ! appsink name=sink sync=false",
    );
    r
}

/// An address leads to itself, whatever canonical form is offered.
pub proof fn lemma_address_stays(path: Seq<char>, first: Option<Seq<char>>, second: Option<Seq<char>>)
    ensures
        uri_of(uri_of(path, first), second) == uri_of(path, first),
{
    let u = uri_of(path, first);
    if !begins(path, "file://"@) && !begins(path, "http"@) {
        assert(u.subrange(0, "file://"@.len() as int) =~= "file://"@);
    }
}

/// A path becomes the address of its canonical form, or of itself where it has none.
pub proof fn lemma_uri_of(path: Seq<char>, canonical: Seq<char>)
    requires
        !begins(path, "file://"@),
        !begins(path, "http"@),
    ensures
        uri_of(path, Some(canonical)) == "file://"@ + canonical,
        uri_of(path, None) == "file://"@ + path,
        begins(uri_of(path, Some(canonical)), "file://"@),
{
    let s = "file://"@ + canonical;
    assert(s.subrange(0, "file://"@.len() as int) =~= "file://"@);
}

} // verus!
