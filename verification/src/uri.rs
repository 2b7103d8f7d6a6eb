//! Request targets: dropping the query and undoing percent-encoding.

use vstd::prelude::*;
use vstd::utf8::{decode_utf8, encode_utf8, valid_utf8};
use crate::text::{chars_of, first_of, lemma_first_of, lemma_first_of_props, push_char};

verus! {

/// The value of an ASCII hexadecimal digit, or `None`.
pub open spec fn hex_value(b: u8) -> Option<u8> {
    if 0x30 <= b <= 0x39 {
        Some((b - 0x30) as u8)
    } else if 0x41 <= b <= 0x46 {
        Some((b - 0x41 + 10) as u8)
    } else if 0x61 <= b <= 0x66 {
        Some((b - 0x61 + 10) as u8)
    } else {
        None
    }
}

/// Percent-decoding of bytes, scanning from the front: `%` followed by two
/// hexadecimal digits gives the byte they spell; any other byte is kept.
pub open spec fn percent_decoded(b: Seq<u8>) -> Seq<u8>
    decreases b.len(),
{
    if b.len() == 0 {
        b
    } else if b.len() >= 3 && b[0] == 0x25 && hex_value(b[1]) is Some && hex_value(b[2]) is Some {
        seq![(hex_value(b[1])->0 * 16 + hex_value(b[2])->0) as u8] + percent_decoded(b.skip(3))
    } else {
        seq![b[0]] + percent_decoded(b.drop_first())
    }
}

/// What `urlencoding::decode` makes of a text: its UTF-8 bytes
/// percent-decoded, read back as text; `None` when they are not valid UTF-8.
pub open spec fn url_decoding(s: Seq<char>) -> Option<Seq<char>> {
    let b = percent_decoded(encode_utf8(s));
    if valid_utf8(b) {
        Some(decode_utf8(b))
    } else {
        None
    }
}

/// Undoes percent-encoding (`urlencoding::decode`); `None` when the decoded
/// bytes are not valid UTF-8. A text without `%` comes back unchanged.
#[verifier::external_body]
pub(crate) fn url_decode(s: &str) -> (r: Option<String>)
    ensures
        r is Some <==> url_decoding(s@) is Some,
        r is Some ==> url_decoding(s@) == Some(r->0@),
        !s@.contains('%') ==> r is Some && r->0@ == s@,
{
    match urlencoding::decode(s) {
        Ok(d) => Some(d.into_owned()),
        Err(_) => None,
    }
}

/// A request target without its query: everything before the first `?`.
pub open spec fn without_query(url: Seq<char>) -> Seq<char> {
    url.take(first_of(url, '?') as int)
}

/// The request target `url` without its query.
pub fn strip_query(url: &str) -> (r: String)
    ensures
        r@ == without_query(url@),
{
    let cs = chars_of(url);
    let n = cs.len();
    let mut r = String::new();
    let mut k: usize = 0;
    while k < n && cs[k] != '?'
        invariant
            cs@ == url@,
            n == cs@.len(),
            k <= n,
            forall|j: int| 0 <= j < k ==> cs@[j] != '?',
            r@ == cs@.take(k as int),
        decreases n - k,
    {
        push_char(&mut r, cs[k]);
        assert(cs@.take(k + 1) =~= cs@.take(k as int).push(cs@[k as int]));
        k = k + 1;
    }
    proof {
        lemma_first_of(cs@, '?', k as int);
    }
    r
}

/// Dropping the query removes exactly what starts at the first `?`: the
/// result is a prefix of the target with no `?` in it, and it ends where the
/// target ends or just before a `?`. So a target without `?` is kept whole.
pub proof fn law_strip_query_cuts_at_first_question_mark(url: Seq<char>)
    ensures
        without_query(url).len() <= url.len(),
        url.take(without_query(url).len() as int) == without_query(url),
        !without_query(url).contains('?'),
        without_query(url).len() == url.len() || url[without_query(url).len() as int] == '?',
        !url.contains('?') ==> without_query(url) == url,
{
    lemma_first_of_props(url, '?');
    let w = without_query(url);
    assert(!w.contains('?')) by {
        if w.contains('?') {
            let j = choose|j: int| 0 <= j < w.len() && w[j] == '?';
            assert(url[j] == '?');
        }
    }
    if !url.contains('?') {
        if first_of(url, '?') < url.len() {
            assert(url.contains('?'));
        }
        assert(w =~= url);
    }
}

} // verus!
