//! Bytes as UTF-8 text.

use crate::lines::{first_byte, lemma_first_byte, split_lines, CR, LF};
use vstd::prelude::*;
use vstd::string::StringSliceAdditionalSpecFns;
use vstd::utf8::{decode_utf8, valid_utf8};

verus! {

/// `std::str::from_utf8`: the bytes are returned as text exactly when they
/// are well-formed UTF-8, and the text then encodes to the same bytes.
#[verifier::external_body]
pub(crate) fn from_utf8(bytes: &[u8]) -> (r: Option<&str>)
    ensures
        r is Some <==> valid_utf8(bytes@),
        r matches Some(s) ==> s.spec_bytes() == bytes@,
{
    std::str::from_utf8(bytes).ok()
}

/// Decodes bytes into an owned string when they are well-formed UTF-8.
pub fn decode(bytes: &[u8]) -> (r: Option<String>)
    ensures
        r is Some <==> valid_utf8(bytes@),
        r matches Some(s) ==> s@ == decode_utf8(bytes@),
{
    match from_utf8(bytes) {
        Some(s) => {
            proof {
                vstd::utf8::encode_utf8_decode_utf8(s@);
            }
            Some(s.to_owned())
        },
        None => None,
    }
}

/// Tells whether two byte strings are the same.
pub fn same_bytes(a: &[u8], b: &[u8]) -> (r: bool)
    ensures
        r == (a@ == b@),
{
    if a.len() != b.len() {
        return false;
    }
    let mut i: usize = 0;
    while i < a.len()
        invariant
            i <= a.len(),
            a.len() == b.len(),
            forall|j: int| 0 <= j < i ==> a@[j] == b@[j],
        decreases a.len() - i,
    {
        if a[i] != b[i] {
            return false;
        }
        i += 1;
    }
    proof {
        assert(a@ =~= b@);
    }
    true
}

/// Tells whether two texts are the same.
pub fn same_text(a: &str, b: &str) -> (r: bool)
    ensures
        r == (a@ == b@),
{
    proof {
        vstd::utf8::encode_utf8_decode_utf8(a@);
        vstd::utf8::encode_utf8_decode_utf8(b@);
    }
    same_bytes(a.as_bytes(), b.as_bytes())
}

/// Well-formed UTF-8 that is cut at an ASCII byte leaves well-formed UTF-8
/// before and after that byte.
pub proof fn lemma_cut_at_ascii(s: Seq<u8>, k: int)
    requires
        valid_utf8(s),
        0 <= k < s.len(),
        s[k] < 0x80,
    ensures
        valid_utf8(s.take(k)),
        valid_utf8(s.skip(k + 1)),
{
    vstd::utf8::is_char_boundary_iff_is_leading_byte(s, k);
    assert(vstd::utf8::is_leading_byte_width_1(s[k]));
    vstd::utf8::valid_utf8_split(s, k);
    let tail = s.subrange(k, s.len() as int);
    assert(tail[0] == s[k]);
    assert(vstd::utf8::pop_first_scalar(tail) =~= s.skip(k + 1));
    assert(s.subrange(0, k) =~= s.take(k));
}

/// Every line of well-formed UTF-8 is well-formed UTF-8.
pub proof fn lemma_lines_valid(s: Seq<u8>)
    requires
        valid_utf8(s),
    ensures
        forall|i: int| 0 <= i < split_lines(s).len() ==> valid_utf8(#[trigger] split_lines(s)[i]),
    decreases s.len(),
{
    let k = first_byte(s, LF) as int;
    lemma_first_byte(s, LF);
    if s.len() > 0 && k < s.len() {
        lemma_cut_at_ascii(s, k);
        let line = s.take(k);
        if line.len() > 0 && line.last() == CR {
            lemma_cut_at_ascii(line, line.len() - 1);
            assert(line.take(line.len() - 1) =~= line.drop_last());
        }
        let rest = s.skip(k + 1);
        lemma_lines_valid(rest);
        assert forall|i: int| 0 <= i < split_lines(s).len() implies valid_utf8(
            #[trigger] split_lines(s)[i],
        ) by {
            if i > 0 {
                assert(split_lines(s)[i] == split_lines(rest)[i - 1]);
            }
        }
    }
}

} // verus!
