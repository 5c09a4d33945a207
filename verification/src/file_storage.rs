//! Path layout of the data directory: sanitizing of arbitrary strings into
//! safe path segments, and the derivation of every file path the store uses.
//!
//! Paths are relative to the data root and use `/` as separator. Directories
//! are implicit in the paths; the shell that mirrors the store onto a real
//! filesystem creates them as needed.

use vstd::prelude::*;
use crate::strutil::{is_prefix, string_push};
use vstd::string::StrSliceExecFns;

verus! {

/// A filesystem-hazard character, replaced by the sanitizers.
pub open spec fn is_hazard_char(c: char) -> bool {
    c == '/' || c == '\\' || c == ':' || c == '*' || c == '?' || c == '"' || c == '<' || c == '>'
        || c == '|'
}

/// One character of a name, sanitized.
pub open spec fn sanitize_name_char(c: char) -> char {
    if is_hazard_char(c) {
        '_'
    } else {
        c
    }
}

/// One character of a timestamp, sanitized.
pub open spec fn sanitize_ts_char(c: char) -> char {
    if is_hazard_char(c) {
        '-'
    } else {
        c
    }
}

/// A name made safe as a path segment: hazard characters become `_`.
pub open spec fn sanitize_name(s: Seq<char>) -> Seq<char> {
    s.map_values(|c: char| sanitize_name_char(c))
}

/// A timestamp made safe as part of a file name: hazard characters become `-`.
pub open spec fn sanitize_ts(s: Seq<char>) -> Seq<char> {
    s.map_values(|c: char| sanitize_ts_char(c))
}

/// The file of a client record: `clients/{id}.json`.
pub open spec fn client_path(id: Seq<char>) -> Seq<char> {
    "clients/"@ + id + ".json"@
}

/// The status root a commission is stored under: `history` exactly for
/// completed commissions, `pendings` for every other status.
pub open spec fn status_root(status: Seq<char>) -> Seq<char> {
    if status == "completed"@ {
        "history"@
    } else {
        "pendings"@
    }
}

/// The file of a commission record:
/// `{root}/{sanitize(client_name)}/{id}_{sanitize(created_at)}.json`.
pub open spec fn commission_path(
    status: Seq<char>,
    client_name: Seq<char>,
    id: Seq<char>,
    created_at: Seq<char>,
) -> Seq<char> {
    status_root(status) + "/"@ + sanitize_name(client_name) + "/"@ + id + "_"@ + sanitize_ts(
        created_at,
    ) + ".json"@
}

/// The file of an image attachment:
/// `pendings/{sanitize(client_name)}/images/{id}_{sanitize(filename)}`.
pub open spec fn image_file_path(client_name: Seq<char>, id: Seq<char>, filename: Seq<char>)
    -> Seq<char> {
    "pendings/"@ + sanitize_name(client_name) + "/images/"@ + id + "_"@ + sanitize_name(filename)
}

/// The relative reference recorded for an image: `images/{id}_{sanitize(filename)}`.
pub open spec fn image_relative_path(id: Seq<char>, filename: Seq<char>) -> Seq<char> {
    "images/"@ + id + "_"@ + sanitize_name(filename)
}

/// A commission record's path begins with `history/` exactly when its status
/// is `completed`, and with `pendings/` otherwise.
pub proof fn lemma_commission_path_root(
    status: Seq<char>,
    client_name: Seq<char>,
    id: Seq<char>,
    created_at: Seq<char>,
)
    ensures
        status == "completed"@ <==> is_prefix(
            "history/"@,
            commission_path(status, client_name, id, created_at),
        ),
        status != "completed"@ <==> is_prefix(
            "pendings/"@,
            commission_path(status, client_name, id, created_at),
        ),
{
    reveal_strlit("history");
    reveal_strlit("history/");
    reveal_strlit("pendings");
    reveal_strlit("pendings/");
    reveal_strlit("/");
    let p = commission_path(status, client_name, id, created_at);
    if status == "completed"@ {
        assert(p.subrange(0, 8) =~= "history/"@);
        assert(!is_prefix("pendings/"@, p)) by {
            assert(p[0] == 'h');
            if is_prefix("pendings/"@, p) {
                assert(p.subrange(0, 9)[0] == 'p');
            }
        }
    } else {
        assert(p.subrange(0, 9) =~= "pendings/"@);
        assert(!is_prefix("history/"@, p)) by {
            assert(p[0] == 'p');
            if is_prefix("history/"@, p) {
                assert(p.subrange(0, 8)[0] == 'h');
            }
        }
    }
}

/// The sanitizers and path builders of the on-disk layout.
pub struct FileStorage;

impl FileStorage {
    /// Replaces each filesystem-hazard character of a name by `_`.
    pub fn sanitize_filename(name: &str) -> (r: String)
        ensures
            r@ == sanitize_name(name@),
    {
        let n = name.unicode_len();
        let mut out = String::new();
        let mut i: usize = 0;
        while i < n
            invariant
                n == name@.len(),
                i <= n,
                out@ == sanitize_name(name@.subrange(0, i as int)),
            decreases n - i,
        {
            let c = name.get_char(i);
            let s = if c == '/' || c == '\\' || c == ':' || c == '*' || c == '?' || c == '"' || c
                == '<' || c == '>' || c == '|' {
                '_'
            } else {
                c
            };
            string_push(&mut out, s);
            assert(out@ =~= sanitize_name(name@.subrange(0, i + 1)));
            i += 1;
        }
        assert(name@.subrange(0, n as int) =~= name@);
        out
    }

    /// Replaces each filesystem-hazard character of a timestamp by `-`.
    pub fn sanitize_timestamp(timestamp: &str) -> (r: String)
        ensures
            r@ == sanitize_ts(timestamp@),
    {
        let n = timestamp.unicode_len();
        let mut out = String::new();
        let mut i: usize = 0;
        while i < n
            invariant
                n == timestamp@.len(),
                i <= n,
                out@ == sanitize_ts(timestamp@.subrange(0, i as int)),
            decreases n - i,
        {
            let c = timestamp.get_char(i);
            let s = if c == ':' || c == '/' || c == '\\' || c == '*' || c == '?' || c == '"' || c
                == '<' || c == '>' || c == '|' {
                '-'
            } else {
                c
            };
            string_push(&mut out, s);
            assert(out@ =~= sanitize_ts(timestamp@.subrange(0, i + 1)));
            i += 1;
        }
        assert(timestamp@.subrange(0, n as int) =~= timestamp@);
        out
    }

    /// Builds `clients/{id}.json`.
    pub fn client_file_path(id: &str) -> (r: String)
        ensures
            r@ == client_path(id@),
    {
        "clients/".to_owned().concat(id).concat(".json")
    }

    /// Picks the status root folder name.
    pub fn status_root_folder(status: &str) -> (r: String)
        ensures
            r@ == status_root(status@),
    {
        if crate::strutil::str_eq(status, "completed") {
            "history".to_owned()
        } else {
            "pendings".to_owned()
        }
    }

    /// Builds `{root}/{sanitize(client_name)}/{id}_{sanitize(created_at)}.json`.
    pub fn commission_file_path(status: &str, client_name: &str, id: &str, created_at: &str) -> (r:
        String)
        ensures
            r@ == commission_path(status@, client_name@, id@, created_at@),
    {
        let root = Self::status_root_folder(status);
        let san_name = Self::sanitize_filename(client_name);
        let san_ts = Self::sanitize_timestamp(created_at);
        root.concat("/").concat(san_name.as_str()).concat("/").concat(id).concat("_").concat(
            san_ts.as_str(),
        ).concat(".json")
    }

    /// Builds `pendings/{sanitize(client_name)}/images/{id}_{sanitize(filename)}`.
    pub fn image_file_path(client_name: &str, id: &str, filename: &str) -> (r: String)
        ensures
            r@ == image_file_path(client_name@, id@, filename@),
    {
        let san_name = Self::sanitize_filename(client_name);
        let san_file = Self::sanitize_filename(filename);
        "pendings/".to_owned().concat(san_name.as_str()).concat("/images/").concat(id).concat(
            "_",
        ).concat(san_file.as_str())
    }

    /// Builds the recorded reference `images/{id}_{sanitize(filename)}`.
    pub fn image_relative_path(id: &str, filename: &str) -> (r: String)
        ensures
            r@ == image_relative_path(id@, filename@),
    {
        let san_file = Self::sanitize_filename(filename);
        "images/".to_owned().concat(id).concat("_").concat(san_file.as_str())
    }
}

} // verus!
