//! The server's responses and their wire form.

pub mod refera_error;

use vstd::prelude::*;
use vstd::hash_map::StringHashMap;
use vstd::utf8::{decode_utf8, encode_utf8, valid_utf8};
use crate::text::{decimal, decimal_string, lemma_encode_utf8_concat, utf8_to_string};

verus! {

/// The head of a response in wire form: the status line, a `Content-Length`
/// line giving `len`, and the blank line that ends the head.
pub open spec fn response_head(status: Seq<char>, len: nat) -> Seq<char> {
    status + "\r\nContent-Length: "@ + decimal(len) + "\r\n\r\n"@
}

/// A response: its status line, its header fields and its body.
pub struct ReferaResponse {
    pub status: String,
    pub headers: StringHashMap<String>,
    pub body: Vec<u8>,
}

impl ReferaResponse {
    /// A response with the given status line and body, and the given header
    /// fields (none when `headers` is `None`).
    pub fn new(status: String, headers: Option<StringHashMap<String>>, body: Vec<u8>) -> (r:
        ReferaResponse)
        ensures
            r.status@ == status@,
            r.headers@ == match headers {
                Some(h) => h@,
                None => Map::<Seq<char>, String>::empty(),
            },
            r.body@ == body@,
    {
        let headers = match headers {
            Some(h) => h,
            None => StringHashMap::new(),
        };
        ReferaResponse { status, headers, body }
    }

    /// The head of the response as text (the header fields are not written).
    fn head(&self) -> (s: String)
        ensures
            s@ == response_head(self.status@, self.body@.len()),
    {
        let mut s = self.status.clone();
        s.append("\r\nContent-Length: ");
        let len = decimal_string(self.body.len() as u64);
        s.append(len.as_str());
        s.append("\r\n\r\n");
        s
    }

    /// The response in wire form: the head in UTF-8, then the body bytes.
    pub fn as_u8(&self) -> (v: Vec<u8>)
        ensures
            v@ == encode_utf8(response_head(self.status@, self.body@.len())) + self.body@,
    {
        let head = self.head();
        let mut v = head.as_str().as_bytes_vec();
        let ghost start = v@;
        let n = self.body.len();
        let mut i: usize = 0;
        while i < n
            invariant
                n == self.body@.len(),
                i <= n,
                v@ == start + self.body@.take(i as int),
            decreases n - i,
        {
            v.push(self.body[i]);
            assert(self.body@.take(i + 1) =~= self.body@.take(i as int).push(self.body@[i as int]));
            i = i + 1;
        }
        assert(self.body@.take(n as int) =~= self.body@);
        v
    }

    /// The response as text: the head, then the body read as UTF-8.
    pub fn as_str(&self) -> (s: String)
        requires
            valid_utf8(self.body@),
        ensures
            s@ == response_head(self.status@, self.body@.len()) + decode_utf8(self.body@),
    {
        let mut s = self.head();
        let body = self.body.clone();
        assert(body@ =~= self.body@);
        match utf8_to_string(body) {
            Some(text) => {
                s.append(text.as_str());
                s
            },
            None => {
                assert(false);
                s
            },
        }
    }
}

/// For a body that is valid UTF-8, the wire form is the text form encoded
/// in UTF-8.
pub proof fn law_wire_form_is_encoded_text(status: Seq<char>, body: Seq<u8>)
    requires
        valid_utf8(body),
    ensures
        encode_utf8(response_head(status, body.len()) + decode_utf8(body)) == encode_utf8(
            response_head(status, body.len()),
        ) + body,
{
    lemma_encode_utf8_concat(response_head(status, body.len()), decode_utf8(body));
    vstd::utf8::decode_utf8_encode_utf8(body);
}

} // verus!
