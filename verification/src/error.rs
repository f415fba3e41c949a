use vstd::prelude::*;

verus! {

/// The library's error type: a human-readable description of what went
/// wrong, carried by every fallible operation.
#[derive(Debug)]
pub struct ChumError {
    msg: String,
}

impl ChumError {
    pub fn new(msg: &str) -> (e: ChumError)
        ensures
            e@ == msg@,
    {
        ChumError { msg: msg.to_owned() }
    }

    pub fn from_string(msg: String) -> (e: ChumError)
        ensures
            e@ == msg@,
    {
        ChumError { msg }
    }

    /// The description, for display by the caller.
    pub fn message(&self) -> (m: &str)
        ensures
            m@ == self@,
    {
        self.msg.as_str()
    }
}

impl View for ChumError {
    type V = Seq<char>;

    closed spec fn view(&self) -> Seq<char> {
        self.msg@
    }
}

} // verus!
