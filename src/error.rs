//! The aggregated error of a request: a name, and a message for each field
//! that failed.
use vstd::prelude::*;
use crate::table::StrMap;

verus! {

/// An error named after what failed, with one message per offending field.
pub struct RequestError {
    name: String,
    errors: StrMap,
}

impl View for RequestError {
    type V = (Seq<char>, Map<Seq<char>, Seq<char>>);

    closed spec fn view(&self) -> (Seq<char>, Map<Seq<char>, Seq<char>>) {
        (self.name@, self.errors@)
    }
}

impl RequestError {
    /// An error called `name` with no field messages yet.
    pub fn new(name: String) -> (r: RequestError)
        ensures
            r@.0 == name@,
            r@.1 == Map::<Seq<char>, Seq<char>>::empty(),
    {
        RequestError { name, errors: StrMap::new() }
    }

    /// Records `value` as the message of the field `name`, replacing an
    /// earlier one.
    pub fn set_error(&mut self, name: String, value: String) -> (r: &Self)
        ensures
            final(self)@.0 == old(self)@.0,
            final(self)@.1 == old(self)@.1.insert(name@, value@),
            r@ == final(self)@,
    {
        self.errors.set(name, value);
        self
    }

    /// Whether some field has a message.
    pub fn has_error(&self) -> (r: bool)
        ensures
            r == !(self@.1.dom() =~= Set::<Seq<char>>::empty()),
    {
        !self.errors.is_empty()
    }

    /// The name of the error.
    pub fn name(&self) -> (r: &String)
        ensures
            r@ == self@.0,
    {
        &self.name
    }

    /// The field messages, each field once.
    pub fn errors(&self) -> (r: &StrMap)
        ensures
            r@ == self@.1,
    {
        &self.errors
    }
}

} // verus!
