use vstd::prelude::*;

use vstd::string::StringSliceAdditionalSpecFns;

verus! {

broadcast use vstd::string::group_string_axioms;

/// A prefix that keys are built on, within a limit of bytes.
pub struct StrAsciiPrefixView {
    prefix_len: usize,
    max_length: usize,
    prefix: String,
}

impl StrAsciiPrefixView {
    pub closed spec fn prefix(&self) -> Seq<char> {
        self.prefix@
    }

    /// The bytes of the prefix.
    pub closed spec fn prefix_len(&self) -> nat {
        self.prefix_len as nat
    }

    /// The limit of bytes, prefix included.
    pub closed spec fn max_length(&self) -> nat {
        self.max_length as nat
    }

    pub closed spec fn wf(&self) -> bool {
        &&& self.prefix_len as nat == vstd::utf8::encode_utf8(self.prefix@).len()
        &&& self.prefix_len <= self.max_length
    }

    /// A view on `prefix` for keys of at most `max_length` bytes.
    pub fn new(prefix: &str, max_length: usize) -> (r: Self)
        requires
            prefix.spec_bytes().len() <= max_length,
        ensures
            r.wf(),
            r.prefix() == prefix@,
            r.prefix_len() == prefix.spec_bytes().len(),
            r.max_length() == max_length,
    {
        let prefix_len = prefix.as_bytes().len();
        StrAsciiPrefixView { prefix_len, max_length, prefix: String::from_str(prefix) }
    }

    /// The prefix followed by `added`.
    pub fn with(&mut self, added: &str) -> (r: String)
        requires
            old(self).wf(),
            old(self).prefix_len() + added.spec_bytes().len() <= old(self).max_length(),
        ensures
            *final(self) == *old(self),
            r@ == old(self).prefix() + added@,
    {
        self.prefix.clone().concat(added)
    }
}

/// An ASCII string has as many bytes as characters.
pub proof fn lemma_ascii_len(s: &str)
    requires
        vstd::string::is_ascii(s),
    ensures
        s.spec_bytes().len() == s@.len(),
{
    vstd::string::is_ascii_spec_bytes(s);
}

} // verus!
