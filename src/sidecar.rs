//! Reading a submission's sidecar metadata file, a small TOML table.

use vstd::prelude::*;
use crate::record::{Entry, EntryModel, lookup_view, sidecar_record};

verus! {

/// What toml makes of `text` looked up at `key`: `None` where the text is no
/// valid TOML table, `Some(None)` where the key is missing or its value is no
/// string, and the string otherwise.
pub uninterp spec fn toml_string_at(text: Seq<char>, key: Seq<char>) -> Option<Option<Seq<char>>>;

/// Relies on toml's `Table::from_str` to parse `text`, and on `Map::get` and
/// `Value::as_str` to read the string stored at `key`.
#[verifier::external_body]
fn toml_lookup(text: &str, key: &str) -> (r: Option<Option<String>>)
    ensures
        lookup_view(r) == toml_string_at(text@, key@),
{
    match text.parse::<toml::Table>() {
        Err(_) => None,
        Ok(table) => Some(table.get(key).and_then(toml::Value::as_str).map(String::from)),
    }
}

/// The key of the student's user name in a sidecar file.
pub open spec fn username_key() -> Seq<char> {
    seq!['u', 's', 'e', 'r', 'n', 'a', 'm', 'e']
}

/// The key of the student's full name in a sidecar file.
pub open spec fn name_key() -> Seq<char> {
    seq!['n', 'a', 'm', 'e']
}

/// The key of the student's email address in a sidecar file.
pub open spec fn email_key() -> Seq<char> {
    seq!['e', 'm', 'a', 'i', 'l']
}

/// The fallback record of a submission whose sidecar file holds `text`.
pub open spec fn readme_record(text: Seq<char>) -> EntryModel {
    sidecar_record(
        toml_string_at(text, username_key()),
        toml_string_at(text, name_key()),
        toml_string_at(text, email_key()),
    )
}

impl Entry {
    /// Builds the fallback record of a submission from the text of its
    /// sidecar file (an empty text for a missing file).
    pub fn from_readme(text: &str) -> (r: Entry)
        ensures
            r@ == readme_record(text@),
    {
        let uk = "username";
        let nk = "name";
        let ek = "email";
        proof {
            reveal_strlit("username");
            reveal_strlit("name");
            reveal_strlit("email");
            assert(uk@ =~= username_key());
            assert(nk@ =~= name_key());
            assert(ek@ =~= email_key());
        }
        let username = toml_lookup(text, uk);
        let name = toml_lookup(text, nk);
        let email = toml_lookup(text, ek);
        Entry::from_sidecar(username, name, email)
    }
}

} // verus!
