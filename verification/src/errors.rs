use vstd::prelude::*;

verus! {

/// Closed taxonomy of fetch failures. `Network` carries the transport
/// collaborator's diagnostic text, `Decode` the decoder's. `NotTriggeredYet`
/// is a sentinel resolved value for callers that need a non-optional result
/// before any trigger has been armed; it is not an operational failure.
#[derive(Clone, Debug, PartialEq, Eq)]
pub enum APIErr {
    Network(String),
    Decode(String),
    NotTriggeredYet(String),
}

impl APIErr {
    /// The diagnostic text, propagated verbatim from the layer that produced it.
    pub fn detail(&self) -> (r: &str)
        ensures
            r@ == self.detail_spec(),
    {
        match self {
            APIErr::Network(msg) => msg.as_str(),
            APIErr::Decode(msg) => msg.as_str(),
            APIErr::NotTriggeredYet(msg) => msg.as_str(),
        }
    }

    pub open spec fn detail_spec(&self) -> Seq<char> {
        match self {
            APIErr::Network(msg) => msg@,
            APIErr::Decode(msg) => msg@,
            APIErr::NotTriggeredYet(msg) => msg@,
        }
    }

    /// Short label naming the kind, as the error view shows it.
    pub fn kind_label(&self) -> (r: &'static str)
        ensures
            self is Network ==> r@ == "Network err"@,
            self is Decode ==> r@ == "Decode err"@,
            self is NotTriggeredYet ==> r@ == "Not triggered yet"@,
    {
        match self {
            APIErr::Network(_) => "Network err",
            APIErr::Decode(_) => "Decode err",
            APIErr::NotTriggeredYet(_) => "Not triggered yet",
        }
    }
}

} // verus!
