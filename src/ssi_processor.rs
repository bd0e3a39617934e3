use std::sync::Arc;
use vstd::prelude::*;

verus! {

/// The content processor applied to the shared template document before it
/// is sent. It is the place where directive substitution would happen; at
/// present the document passes through unchanged.
pub struct SSIProcessor;

impl SSIProcessor {
    /// What processing turns a document into: the document itself.
    pub open spec fn processed(&self, content: Seq<char>) -> Seq<char> {
        content
    }

    pub fn new() -> (r: Self) {
        SSIProcessor
    }

    /// Produces the owned output for the shared template `content`.
    pub fn process(&self, content: &Arc<String>) -> (r: String)
        ensures
            r@ == self.processed(content@),
            r@ == content@,
    {
        let doc: &String = &**content;
        doc.clone()
    }
}

} // verus!
