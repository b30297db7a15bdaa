//! The in-memory model of a managed download, and the status mapping
//! applied to the download daemon's raw torrent fields.

use vstd::prelude::*;
use vstd::string::StringExecFns;

verus! {

/// One managed download as reported to clients.
#[derive(Debug, Clone)]
pub struct Torrent {
    pub id: i64,
    pub name: String,
    pub status: String,
    pub size: i64,
    pub progress: i32,
}

/// The status label decided from the daemon's raw fields: codes 0 through 2
/// are "paused", 3 and 4 "downloading", 5 and 6 "done"; any other code falls
/// back to the finished flag, then the error flag, then the stalled flag,
/// and otherwise "downloading".
pub open spec fn status_label_spec(
    code: Option<i64>,
    is_finished: Option<bool>,
    has_error: bool,
    is_stalled: Option<bool>,
) -> Seq<char> {
    if code is Some && 0 <= code->Some_0 <= 2 {
        "paused"@
    } else if code is Some && 3 <= code->Some_0 <= 4 {
        "downloading"@
    } else if code is Some && 5 <= code->Some_0 <= 6 {
        "done"@
    } else if is_finished is Some && is_finished->Some_0 {
        "done"@
    } else if has_error {
        "error"@
    } else if is_stalled is Some && is_stalled->Some_0 {
        "paused"@
    } else {
        "downloading"@
    }
}

/// Decides the status label of one torrent.
pub fn status_label(
    code: Option<i64>,
    is_finished: Option<bool>,
    has_error: bool,
    is_stalled: Option<bool>,
) -> (r: String)
    ensures
        r@ == status_label_spec(code, is_finished, has_error, is_stalled),
{
    match code {
        Some(c) => {
            if 0 <= c && c <= 2 {
                return String::from_str("paused");
            }
            if 3 <= c && c <= 4 {
                return String::from_str("downloading");
            }
            if 5 <= c && c <= 6 {
                return String::from_str("done");
            }
        },
        None => {},
    }
    match is_finished {
        Some(true) => {
            return String::from_str("done");
        },
        _ => {},
    }
    if has_error {
        return String::from_str("error");
    }
    match is_stalled {
        Some(true) => {
            return String::from_str("paused");
        },
        _ => {},
    }
    String::from_str("downloading")
}

/// Builds the reported torrent from the daemon's raw fields; the status
/// label follows `status_label_spec`, everything else is copied unchanged.
pub fn torrent_from_fields(
    id: i64,
    name: String,
    code: Option<i64>,
    is_finished: Option<bool>,
    has_error: bool,
    is_stalled: Option<bool>,
    total_size: i64,
    progress: i32,
) -> (t: Torrent)
    ensures
        t.id == id,
        t.name@ == name@,
        t.status@ == status_label_spec(code, is_finished, has_error, is_stalled),
        t.size == total_size,
        t.progress == progress,
{
    Torrent {
        id,
        name,
        status: status_label(code, is_finished, has_error, is_stalled),
        size: total_size,
        progress,
    }
}

} // verus!
