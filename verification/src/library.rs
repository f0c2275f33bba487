//! The Recent tiles of the project library: what kind of file each is and
//! the line under its title.

use vstd::prelude::*;
use crate::text::{str_eq, push_str};

verus! {

/// What a library file is by its extension: a project for `recordly` or
/// `openscreen`, a video otherwise.
pub open spec fn kind_of(extension: Option<Seq<char>>) -> Seq<char> {
    match extension {
        Some(e) => if e == "recordly"@ || e == "openscreen"@ { "Project"@ } else { "Video"@ },
        None => "Video"@,
    }
}

/// `kind_of` a file's extension.
pub fn file_kind(extension: Option<&str>) -> (r: &'static str)
    ensures
        r@ == kind_of(match extension { Some(e) => Some(e@), None => None }),
{
    match extension {
        Some(e) => if str_eq(e, "recordly") || str_eq(e, "openscreen") { "Project" } else { "Video" },
        None => "Video",
    }
}

/// A Recent tile's line: the take's running time (or, without one, the
/// file's kind), then how long ago the file changed where that is known,
/// "1:24 · 2m ago".
pub open spec fn tile_line(length: Seq<char>, age: Option<Seq<char>>) -> Seq<char> {
    match age {
        Some(a) => length + " · "@ + a,
        None => length,
    }
}

/// `tile_line` of the length and the age.
pub fn recent_line(length: &str, age: Option<&str>) -> (r: String)
    ensures
        r@ == tile_line(length@, match age { Some(a) => Some(a@), None => None }),
{
    let mut line = String::new();
    push_str(&mut line, length);
    match age {
        Some(a) => {
            push_str(&mut line, " · ");
            push_str(&mut line, a);
        },
        None => {},
    }
    line
}

} // verus!
