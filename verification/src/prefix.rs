//! A streaming parser may only ask for more input when the input it was given
//! leaves the outcome open: once it has answered `Done` or `Error` on some
//! bytes, the bytes that arrive after them do not change the answer.
use vstd::prelude::*;
use crate::grammar::{
    crlf_lit, header_range_ok, lemma_span, lit_at, span, spec_chunk_header, spec_crlf,
    spec_message_header, spec_request_line, spec_status_line, take_while, take_while1, version_at,
    CharClass, ParseResult,
};

verus! {

/// A parser's answer that does not wait for more input.
pub open spec fn settled<T>(r: ParseResult<T>) -> bool {
    !(r is Incomplete)
}

proof fn lemma_span_ext(s: Seq<u8>, t: Seq<u8>, i: int, c: CharClass)
    requires
        0 <= i <= s.len(),
        span(s, i, c) < s.len(),
    ensures
        span(s + t, i, c) == span(s, i, c),
    decreases s.len() - i,
{
    if i < s.len() {
        assert((s + t)[i] == s[i]);
        if crate::grammar::in_class(c, s[i]) {
            lemma_span_ext(s, t, i + 1, c);
        }
    }
}

proof fn lemma_take_while_ext(s: Seq<u8>, t: Seq<u8>, i: int, c: CharClass)
    requires
        0 <= i <= s.len(),
        settled(take_while(s, i, c)),
    ensures
        take_while(s + t, i, c) == take_while(s, i, c),
        take_while(s, i, c) matches ParseResult::Done(e, _) ==> e <= s.len(),
{
    lemma_span(s, i, c);
    lemma_span_ext(s, t, i, c);
}

proof fn lemma_take_while1_ext(s: Seq<u8>, t: Seq<u8>, i: int, c: CharClass)
    requires
        0 <= i <= s.len(),
        settled(take_while1(s, i, c)),
    ensures
        take_while1(s + t, i, c) == take_while1(s, i, c),
        take_while1(s, i, c) matches ParseResult::Done(e, _) ==> e <= s.len() && (s.len() <= usize::MAX ==> i < e),
{
    lemma_span(s, i, c);
    lemma_span_ext(s, t, i, c);
}

proof fn lemma_lit_ext(s: Seq<u8>, t: Seq<u8>, i: int, l: Seq<u8>)
    requires
        0 <= i <= s.len(),
        settled(lit_at(s, i, l)),
    ensures
        lit_at(s + t, i, l) == lit_at(s, i, l),
{
    let st = s + t;
    if i + l.len() <= s.len() {
        assert(st.subrange(i, i + l.len()) =~= s.subrange(i, i + l.len()));
    } else {
        let k = s.len() - i;
        assert(s.subrange(i, s.len() as int) != l.subrange(0, k));
        if i + l.len() <= st.len() {
            if st.subrange(i, i + l.len()) == l {
                assert(st.subrange(i, i + l.len()).subrange(0, k) =~= s.subrange(i, s.len() as int));
                assert(l.subrange(0, k) =~= st.subrange(i, i + l.len()).subrange(0, k));
            }
        } else {
            if st.subrange(i, st.len() as int) == l.subrange(0, st.len() - i) {
                assert(st.subrange(i, st.len() as int).subrange(0, k) =~= s.subrange(
                    i,
                    s.len() as int,
                ));
                assert(l.subrange(0, k) =~= l.subrange(0, st.len() - i).subrange(0, k));
            }
        }
    }
}

proof fn lemma_version_ext(s: Seq<u8>, t: Seq<u8>, i: int)
    requires
        0 <= i <= s.len(),
        settled(version_at(s, i)),
    ensures
        version_at(s + t, i) == version_at(s, i),
{
    assert((s + t)[i] == s[i]);
}

/// A settled CRLF stays settled.
pub proof fn lemma_crlf_ext(s: Seq<u8>, t: Seq<u8>)
    requires
        settled(spec_crlf(s)),
    ensures
        spec_crlf(s + t) == spec_crlf(s),
{
    lemma_lit_ext(s, t, 0, crlf_lit());
}

/// A settled header line stays settled.
pub proof fn lemma_message_header_ext(s: Seq<u8>, t: Seq<u8>)
    requires
        settled(spec_message_header(s)),
    ensures
        spec_message_header(s + t) == spec_message_header(s),
{
    let r1 = take_while1(s, 0, CharClass::Token);
    lemma_take_while1_ext(s, t, 0, CharClass::Token);
    if let ParseResult::Done(ne, _) = r1 {
        let r2 = lit_at(s, ne as int, crate::grammar::colon_lit());
        lemma_lit_ext(s, t, ne as int, crate::grammar::colon_lit());
        if let ParseResult::Done(p, _) = r2 {
            let r3 = take_while(s, p as int, CharClass::Space);
            lemma_take_while_ext(s, t, p as int, CharClass::Space);
            if let ParseResult::Done(vs, _) = r3 {
                let r4 = take_while(s, vs as int, CharClass::HeaderValue);
                lemma_take_while_ext(s, t, vs as int, CharClass::HeaderValue);
                if let ParseResult::Done(ve, _) = r4 {
                    lemma_lit_ext(s, t, ve as int, crlf_lit());
                }
            }
        }
    }
}

/// A settled status line stays settled.
pub proof fn lemma_status_line_ext(s: Seq<u8>, t: Seq<u8>)
    requires
        settled(spec_status_line(s)),
    ensures
        spec_status_line(s + t) == spec_status_line(s),
{
    let h = crate::grammar::http1_lit();
    let sp = crate::grammar::space_lit();
    lemma_lit_ext(s, t, 0, h);
    if lit_at(s, 0, h) is Done {
        lemma_version_ext(s, t, 7);
        if version_at(s, 7) is Done {
            lemma_lit_ext(s, t, 8, sp);
            if lit_at(s, 8, sp) is Done && s.len() >= 12 {
                lemma_lit_ext(s, t, 12, sp);
                if lit_at(s, 12, sp) is Done {
                    lemma_take_while_ext(s, t, 13, CharClass::HeaderValue);
                    if let ParseResult::Done(re, _) = take_while(s, 13, CharClass::HeaderValue) {
                        lemma_lit_ext(s, t, re as int, crlf_lit());
                    }
                }
            }
        }
    }
}

/// A settled request line stays settled.
pub proof fn lemma_request_line_ext(s: Seq<u8>, t: Seq<u8>)
    requires
        settled(spec_request_line(s)),
    ensures
        spec_request_line(s + t) == spec_request_line(s),
{
    let sp = crate::grammar::space_lit();
    lemma_take_while1_ext(s, t, 0, CharClass::Token);
    if let ParseResult::Done(me, _) = take_while1(s, 0, CharClass::Token) {
        lemma_lit_ext(s, t, me as int, sp);
        if let ParseResult::Done(us, _) = lit_at(s, me as int, sp) {
            lemma_take_while1_ext(s, t, us as int, CharClass::UriChar);
            if let ParseResult::Done(ue, _) = take_while1(s, us as int, CharClass::UriChar) {
                lemma_lit_ext(s, t, ue as int, sp);
                if let ParseResult::Done(hp, _) = lit_at(s, ue as int, sp) {
                    lemma_lit_ext(s, t, hp as int, crate::grammar::http1_lit());
                    if let ParseResult::Done(vp, _) = lit_at(s, hp as int, crate::grammar::http1_lit()) {
                        lemma_version_ext(s, t, vp as int);
                        if let ParseResult::Done(ve, _) = version_at(s, vp as int) {
                            lemma_lit_ext(s, t, ve as int, crlf_lit());
                        }
                    }
                }
            }
        }
    }
}

/// A settled chunk size line stays settled.
pub proof fn lemma_chunk_header_ext(s: Seq<u8>, t: Seq<u8>, i: int)
    requires
        0 <= i <= s.len() <= usize::MAX,
        settled(spec_chunk_header(s, i)),
    ensures
        spec_chunk_header(s + t, i) == spec_chunk_header(s, i),
{
    lemma_take_while1_ext(s, t, i, CharClass::Hex);
    if let ParseResult::Done(he, _) = take_while1(s, i, CharClass::Hex) {
        assert((s + t).subrange(i, he as int) =~= s.subrange(i, he as int));
        if crate::grammar::hex_value(s.subrange(i, he as int)) <= usize::MAX {
            lemma_lit_ext(s, t, he as int, crlf_lit());
        }
    }
}

/// Where a header line that parsed lies.
pub proof fn lemma_message_header_done(s: Seq<u8>)
    requires
        s.len() <= usize::MAX,
    ensures
        spec_message_header(s) matches ParseResult::Done(end, h) ==> header_range_ok(s, end, h),
{
    lemma_span(s, 0, CharClass::Token);
    if let ParseResult::Done(ne, _) = take_while1(s, 0, CharClass::Token) {
        if let ParseResult::Done(p, _) = lit_at(s, ne as int, crate::grammar::colon_lit()) {
            lemma_span(s, p as int, CharClass::Space);
            if let ParseResult::Done(vs, _) = take_while(s, p as int, CharClass::Space) {
                lemma_span(s, vs as int, CharClass::HeaderValue);
            }
        }
    }
}

/// Where a request line that parsed ends.
pub proof fn lemma_request_line_done(s: Seq<u8>)
    requires
        s.len() <= usize::MAX,
    ensures
        spec_request_line(s) matches ParseResult::Done(end, l) ==> end <= s.len(),
{
    let sp = crate::grammar::space_lit();
    lemma_span(s, 0, CharClass::Token);
    if let ParseResult::Done(me, _) = take_while1(s, 0, CharClass::Token) {
        if let ParseResult::Done(us, _) = lit_at(s, me as int, sp) {
            lemma_span(s, us as int, CharClass::UriChar);
        }
    }
}

/// Where a status line that parsed lies.
pub proof fn lemma_status_line_done(s: Seq<u8>)
    requires
        s.len() <= usize::MAX,
    ensures
        spec_status_line(s) matches ParseResult::Done(end, l) ==> 13 <= l.reason_end && l.reason_end
            + 2 == end <= s.len(),
{
    if s.len() >= 13 {
        lemma_span(s, 13, CharClass::HeaderValue);
    }
}

} // verus!
