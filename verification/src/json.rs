//! JSON encoding of query results, for the request layer to send onward.
//! The encoding itself is done by an outside library; this module gives
//! its result a name and composes it with the verified queries.

use crate::models::{names_view, Unit};
use crate::store::{Store, StoreError};
use crate::queries::{major_rows, names_of};
use vstd::prelude::*;

verus! {

/// The JSON text of a list of unit names: a JSON array of JSON strings.
/// The result depends on the names alone.
pub uninterp spec fn json_of(names: Seq<Seq<char>>) -> Seq<char>;

/// Relies on serde_json::to_string for a Vec<String>: a JSON array of
/// JSON strings holding exactly the given names, depending on the names
/// alone. It always succeeds on such a value: its only error paths are a
/// failing Serialize impl or a non-string map key, and a list of plain
/// strings has neither — every write goes into an infallible in-memory
/// buffer.
#[verifier::external_body]
fn units_to_json(units: &Vec<Unit>) -> (r: Result<String, String>)
    ensures
        r is Ok,
        r matches Ok(s) ==> s@ == json_of(names_view(units@)),
{
    match serde_json::to_string(units) {
        Ok(s) => Ok(s),
        Err(e) => Err(format!("{}", e)),
    }
}

impl Store {
    /// The response body for a lookup of one major's units: always the
    /// JSON array of every unit name stored under the major, in storage
    /// order.
    pub fn units_by_major_json(&self, major_title: &String) -> (r: Result<String, StoreError>)
        ensures
            r matches Ok(s) && s@ == json_of(names_of(major_rows(self@.units, major_title@))),
    {
        let units = self.get_units_by_major(major_title);
        match units_to_json(&units) {
            Ok(s) => Ok(s),
            Err(e) => Err(StoreError::Serialization(e)),
        }
    }
}

} // verus!
