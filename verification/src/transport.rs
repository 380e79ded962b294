use vstd::prelude::*;

verus! {

/// The network transport a client or server uses.
#[derive(Debug, Clone, Copy, PartialEq, Eq, Structural)]
pub enum TransportType {
    Tcp,
}

impl Default for TransportType {
    fn default() -> (t: Self)
        ensures
            t == TransportType::Tcp,
    {
        TransportType::Tcp
    }
}

impl TransportType {
    /// The transport's display name.
    pub fn name(&self) -> (s: &'static str)
        ensures
            s@ == "TCP"@,
    {
        match self {
            TransportType::Tcp => "TCP",
        }
    }
}

} // verus!
