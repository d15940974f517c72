//! The error of a request that was asked for in the wrong encoding.
use vstd::prelude::*;
use vstd::string::StringExecFns;

verus! {

/// A request was asked for in an encoding that its kind does not come in.
#[derive(Debug)]
pub struct RequestEncodingDismatchError {
    pub url: String,
    pub try_to_encode_as: &'static str,
}

impl Clone for RequestEncodingDismatchError {
    fn clone(&self) -> (error: Self)
        ensures
            error.url@ == self.url@,
            error.try_to_encode_as@ == self.try_to_encode_as@,
    {
        Self { url: self.url.clone(), try_to_encode_as: self.try_to_encode_as }
    }
}

/// The text of the error for an address and an encoding.
pub open spec fn dismatch_text(url: Seq<char>, encoding: Seq<char>) -> Seq<char> {
    "RequestEncodingDismatchError-> request from url ["@ + url + "]-> try to encode as ["@
        + encoding + "]"@
}

impl RequestEncodingDismatchError {
    /// The error as a line of text.
    pub fn message(&self) -> (text: String)
        ensures
            text@ == dismatch_text(self.url@, self.try_to_encode_as@),
    {
        let mut text = String::from_str("RequestEncodingDismatchError-> request from url [");
        text.append(self.url.as_str());
        text.append("]-> try to encode as [");
        text.append(self.try_to_encode_as);
        text.append("]");
        text
    }
}

} // verus!
