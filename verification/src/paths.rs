//! Names of the files that stand beside a configured file.
use vstd::prelude::*;
use vstd::string::*;

use crate::text::opt_str_view;

verus! {

/// The name of a file beside another: the other's name, or a default where it
/// has none, and a suffix.
pub open spec fn beside(
    file_name: Option<Seq<char>>,
    default: Seq<char>,
    suffix: Seq<char>,
) -> Seq<char> {
    match file_name {
        Some(n) => n + suffix,
        None => default + suffix,
    }
}

fn sidecar_name(file_name: Option<&str>, default: &str, suffix: &str) -> (r: String)
    ensures
        r@ == beside(opt_str_view(file_name), default@, suffix@),
{
    let mut s = match file_name {
        Some(n) => n.to_string(),
        None => default.to_string(),
    };
    s.append(suffix);
    s
}

/// The file of awaited requests, beside the delivery snapshot.
pub fn request_path(file_name: Option<&str>) -> (r: String)
    ensures
        r@ == beside(opt_str_view(file_name), "pending.json"@, ".requests"@),
{
    sidecar_name(file_name, "pending.json", ".requests")
}

/// The file of inbound turns, beside the delivery snapshot.
pub fn inbound_path(file_name: Option<&str>) -> (r: String)
    ensures
        r@ == beside(opt_str_view(file_name), "pending.json"@, ".inbound"@),
{
    sidecar_name(file_name, "pending.json", ".inbound")
}

/// The file of the interaction ledger, beside the lanes.
pub fn interaction_ledger_path(file_name: Option<&str>) -> (r: String)
    ensures
        r@ == beside(opt_str_view(file_name), "lanes.json"@, ".interaction-ledger.json"@),
{
    sidecar_name(file_name, "lanes.json", ".interaction-ledger.json")
}

/// The file of the interaction journal, beside the ledger.
pub fn interaction_journal_path(file_name: Option<&str>) -> (r: String)
    ensures
        r@ == beside(
            opt_str_view(file_name),
            "interaction-ledger.json"@,
            ".journal.ndjson"@,
        ),
{
    sidecar_name(file_name, "interaction-ledger.json", ".journal.ndjson")
}

/// The file of the revision generation, beside the lanes.
pub fn registry_generation_path(file_name: Option<&str>) -> (r: String)
    ensures
        r@ == beside(opt_str_view(file_name), "lanes.json"@, ".revision-generation"@),
{
    sidecar_name(file_name, "lanes.json", ".revision-generation")
}

} // verus!
