//! Bytes to text.
use vstd::prelude::*;
use vstd::utf8::*;
use vstd::string::StringSliceAdditionalSpecFns;
use vstd::string::StringExecFns;

verus! {

/// The characters of ASCII bytes, one per byte.
pub open spec fn ascii_chars(v: Seq<u8>) -> Seq<char> {
    v.map_values(|b: u8| b as char)
}

pub open spec fn is_ascii_bytes(v: Seq<u8>) -> bool {
    forall|i: int| 0 <= i < v.len() ==> #[trigger] v[i] < 128
}

/// `std::str::from_utf8`: the bytes are borrowed as a `str` exactly when they
/// are valid UTF-8 (std documents that it returns an error otherwise), and
/// the `str` then holds the same bytes.
#[verifier::external_body]
fn str_from_utf8(v: &[u8]) -> (r: Option<&str>)
    ensures
        r is Some <==> valid_utf8(v@),
        r matches Some(s) ==> s.spec_bytes() == v@,
{
    std::str::from_utf8(v).ok()
}

pub proof fn lemma_ascii_encoding(v: Seq<u8>)
    requires
        is_ascii_bytes(v),
    ensures
        encode_utf8(ascii_chars(v)) == v,
        is_ascii_chars(ascii_chars(v)),
{
    let c = ascii_chars(v);
    assert forall|i| 0 <= i < c.len() implies '\0' <= #[trigger] c[i] <= '\u{7f}' by {
        assert(v[i] < 128);
    }
    is_ascii_chars_encode_utf8(c);
    assert forall|i| 0 <= i < c.len() implies #[trigger] encode_utf8(c)[i] == v[i] by {
        assert(c[i] as u8 == encode_utf8(c)[i]);
        assert(v[i] < 128);
    }
    assert(encode_utf8(c) =~= v);
}

/// A `String` of ASCII bytes, one character per byte.
pub fn ascii_string(v: &[u8]) -> (r: String)
    requires
        is_ascii_bytes(v@),
    ensures
        r@ == ascii_chars(v@),
{
    proof {
        lemma_ascii_encoding(v@);
        encode_utf8_valid_utf8(ascii_chars(v@));
    }
    match str_from_utf8(v) {
        Some(s) => {
            proof {
                encode_utf8_decode_utf8(s@);
                encode_utf8_decode_utf8(ascii_chars(v@));
            }
            String::from_str(s)
        },
        None => String::new(),
    }
}


/// The text of UTF-8 bytes, as `std::str::from_utf8` reads it.
pub fn utf8_string(v: &[u8]) -> (r: Option<String>)
    ensures
        r is Some <==> valid_utf8(v@),
        r matches Some(s) ==> s@ == decode_utf8(v@),
{
    match str_from_utf8(v) {
        Some(s) => {
            proof {
                encode_utf8_decode_utf8(s@);
            }
            Some(String::from_str(s))
        },
        None => None,
    }
}


/// ASCII bytes are valid UTF-8, and they decode to one character per byte.
pub proof fn lemma_ascii_utf8(v: Seq<u8>)
    requires
        is_ascii_bytes(v),
    ensures
        valid_utf8(v),
        decode_utf8(v) == ascii_chars(v),
{
    lemma_ascii_encoding(v);
    encode_utf8_valid_utf8(ascii_chars(v));
    encode_utf8_decode_utf8(ascii_chars(v));
}

} // verus!
