use vstd::prelude::*;

verus! {

/// Error returned by `Converter::add_record` when the record's canonical
/// prefix or canonical URI prefix is already registered. It carries the
/// offending key.
#[derive(Debug)]
pub struct DuplicateRecordError(pub String);

impl DuplicateRecordError {
    /// The colliding key, for callers that report the failure.
    pub fn key(&self) -> (r: &String)
        ensures
            r@ == self.0@,
    {
        &self.0
    }
}

} // verus!
