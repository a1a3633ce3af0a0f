//! Object paths of the metrics that the file gauge producer serves.

use vstd::prelude::*;
use zbus::zvariant::OwnedObjectPath;
use crate::config::{GaugeName, is_name_char};

verus! {

#[verifier::external_type_specification]
#[verifier::external_body]
pub struct ExOwnedObjectPath(zbus::zvariant::OwnedObjectPath);

#[verifier::external_type_specification]
#[verifier::external_body]
pub struct ExVariantError(zbus::zvariant::Error);

/// Whether a character may stand in an object path.
pub open spec fn is_path_char(c: char) -> bool {
    is_name_char(c) || c == '/'
}

/// Whether a string is an object path: it starts with `/`, holds only
/// `[A-Za-z0-9_/]`, never two `/` in a row, and ends in no `/` unless it is
/// `/` alone.
pub open spec fn is_object_path(s: Seq<char>) -> bool {
    &&& s.len() > 0
    &&& s[0] == '/'
    &&& forall|i: int| 0 <= i < s.len() ==> is_path_char(#[trigger] s[i])
    &&& forall|i: int| 0 < i < s.len() ==> !(#[trigger] s[i] == '/' && s[i - 1] == '/')
    &&& s.len() > 1 ==> s[s.len() - 1] != '/'
}

/// The text of an object path.
pub uninterp spec fn object_path_text(p: OwnedObjectPath) -> Seq<char>;

/// Relies on zvariant's `OwnedObjectPath::try_from(String)`: it accepts the
/// string exactly when it follows the object path rules, and the path it
/// makes holds the string unchanged.
#[verifier::external_body]
fn parse_object_path(s: String) -> (r: Result<OwnedObjectPath, zbus::zvariant::Error>)
    ensures
        r is Ok <==> is_object_path(s@),
        r is Ok ==> object_path_text(r->Ok_0) == s@,
{
    OwnedObjectPath::try_from(s)
}

/// The path under which every metric object is served.
pub open spec fn metric_prefix() -> Seq<char> {
    "/org/hails/dprom/metric/"@
}

/// The object path of the gauge named `name`, as text.
pub fn gauge_path_text(name: &GaugeName) -> (r: String)
    ensures
        r@ == metric_prefix() + name@,
        is_object_path(r@),
{
    let n = name.as_str();
    let prefix = "/org/hails/dprom/metric/";
    let r = String::from_str(prefix).concat(n);
    proof {
        reveal_strlit("/org/hails/dprom/metric/");
        let p = prefix@;
        let s = r@;
        assert(s == p + n@);
        assert(p.len() == 24);
        assert forall|i: int| 0 <= i < s.len() implies is_path_char(#[trigger] s[i]) by {
            if i >= 24 {
                assert(s[i] == n@[i - 24]);
            }
        }
        assert forall|i: int| 0 < i < s.len() implies !(#[trigger] s[i] == '/' && s[i - 1] == '/') by {
            if i >= 24 {
                assert(s[i] == n@[i - 24]);
            }
        }
        assert(s[s.len() - 1] == n@[n@.len() - 1]);
    }
    r
}

/// The object path of the gauge named `name`. A gauge name always makes a
/// valid path, so this cannot fail.
pub fn gauge_path(name: &GaugeName) -> (r: OwnedObjectPath)
    ensures
        object_path_text(r) == metric_prefix() + name@,
{
    match parse_object_path(gauge_path_text(name)) {
        Ok(path) => path,
        Err(_) => vstd::pervasive::unreached(),
    }
}

} // verus!
