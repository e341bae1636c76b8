//! Parsing a response head out of a response buffer, and recording what
//! to send of it: the headers the proxy adds, the headers it drops, and
//! the body it forwards.
use vstd::prelude::*;
use vstd::slice::slice_to_vec;
use vstd::string::StringSliceAdditionalSpecFns;
use vstd::utf8::encode_utf8;
use crate::buffer::{BufferQueue, BufferQueueV, OutputElementV};
use crate::response::{move_fits, parse_response, spec_parse_response, ResponseState, ResponseStateV};
use crate::types::{BufferMove, Chunk};

verus! {

/// The backend a client is bound to by the sticky session cookie.
#[derive(Debug, Clone, PartialEq)]
pub struct StickySession {
    pub sticky_id: String,
}

/// `Set-Cookie: `
pub open spec fn set_cookie_lit() -> Seq<u8> {
    seq![83u8, 101u8, 116u8, 45u8, 67u8, 111u8, 111u8, 107u8, 105u8, 101u8, 58u8, 32u8]
}

/// `; Path=/` and CRLF
pub open spec fn cookie_path_lit() -> Seq<u8> {
    seq![59u8, 32u8, 80u8, 97u8, 116u8, 104u8, 61u8, 47u8, 13u8, 10u8]
}

/// `Connection: close` and CRLF
pub open spec fn connection_close_lit() -> Seq<u8> {
    seq![67u8, 111u8, 110u8, 110u8, 101u8, 99u8, 116u8, 105u8, 111u8, 110u8, 58u8, 32u8, 99u8, 108u8, 111u8, 115u8, 101u8, 13u8, 10u8]
}

/// The header that sets the sticky session cookie `name` to `id`.
pub open spec fn sticky_cookie(name: Seq<u8>, id: Seq<u8>) -> Seq<u8> {
    set_cookie_lit() + name + seq![61u8] + id + cookie_path_lit()
}

/// The bytes of the sticky session's backend id, if there is a session.
pub open spec fn sticky_id_bytes(sticky_session: Option<&StickySession>) -> Option<Seq<u8>> {
    match sticky_session {
        Some(s) => Some(encode_utf8(s.sticky_id@)),
        None => None,
    }
}

/// The buffer once the sticky session cookie, if any, is queued for output.
pub open spec fn add_sticky(b: BufferQueueV, name: Seq<u8>, sticky: Option<Seq<u8>>) -> BufferQueueV {
    match sticky {
        Some(id) => b.push(OutputElementV::Insert(sticky_cookie(name, id))),
        None => b,
    }
}

/// The buffer once the proxy's own response headers are queued.
pub open spec fn add_head(b: BufferQueueV, added: Seq<u8>, name: Seq<u8>, sticky: Option<Seq<u8>>) -> BufferQueueV {
    add_sticky(b.push(OutputElementV::Insert(added)), name, sticky)
}

/// The states in which the head of the response is complete.
pub open spec fn head_complete(s: ResponseStateV) -> bool {
    ||| s is Response
    ||| s is ResponseUpgrade
    ||| s is ResponseWithBodyChunks
}

/// What the buffer records once `sz` bytes were parsed and are to be sent,
/// with the state `s2` reached: the new header end and buffer, or `None`
/// where a position would overflow.
pub open spec fn step_advance(
    s2: ResponseStateV,
    he: Option<usize>,
    b: BufferQueueV,
    sz: usize,
    added: Seq<u8>,
    name: Seq<u8>,
    sticky: Option<Seq<u8>>,
) -> Option<(Option<usize>, BufferQueueV)> {
    let plain = match b.consume(sz) {
        Some(b1) => Some((he, b1.push(OutputElementV::Slice(sz)))),
        None => None,
    };
    if he is Some {
        plain
    } else if head_complete(s2) {
        match add_head(b, added, name, sticky).consume(sz) {
            Some(b3) => Some((Some(b3.start_parsing_position), b3.push(OutputElementV::Slice(sz)))),
            None => None,
        }
    } else if s2 is ResponseWithBody {
        let length = s2->ResponseWithBody_length;
        match add_head(b, added, name, sticky).consume(sz) {
            Some(b3) => if sz + length > usize::MAX {
                None
            } else {
                match b3.push(OutputElementV::Slice((sz + length) as usize)).consume(length) {
                    Some(b5) => Some((Some(b3.start_parsing_position), b5)),
                    None => None,
                }
            },
            None => None,
        }
    } else if s2 is ResponseWithBodyCloseDelimited {
        let b2 = add_head(b, added, name, sticky);
        let b3 = if s2->ResponseWithBodyCloseDelimited_connection.keep_alive == Some(false) {
            b2.push(OutputElementV::Insert(connection_close_lit()))
        } else {
            b2
        };
        match b3.consume(sz) {
            Some(b4) => {
                let b5 = b4.push(OutputElementV::Slice(sz));
                let len = b5.unparsed().len() as usize;
                match b5.consume(len) {
                    Some(b6) => Some((Some(b4.start_parsing_position), b6.push(OutputElementV::Slice(len)))),
                    None => None,
                }
            },
            None => None,
        }
    } else {
        plain
    }
}

/// What the buffer records once `n` parsed bytes are to be dropped, with
/// the state `s2` reached.
pub open spec fn step_delete(
    s2: ResponseStateV,
    he: Option<usize>,
    b: BufferQueueV,
    n: usize,
    added: Seq<u8>,
    name: Seq<u8>,
    sticky: Option<Seq<u8>>,
) -> Option<(Option<usize>, BufferQueueV)> {
    match b.consume(n) {
        None => None,
        Some(b1) => if he is Some {
            Some((he, b1.push(OutputElementV::Delete(n))))
        } else if head_complete(s2) {
            Some((Some(b1.start_parsing_position), add_head(b1, added, name, sticky).push(OutputElementV::Delete(n))))
        } else if s2 is ResponseWithBody {
            let length = s2->ResponseWithBody_length;
            let b3 = add_sticky(
                b1.push(OutputElementV::Insert(added)).push(OutputElementV::Delete(length)),
                name,
                sticky,
            ).push(OutputElementV::Slice(length));
            match b3.consume(length) {
                Some(b4) => Some((Some(b1.start_parsing_position), b4)),
                None => None,
            }
        } else {
            Some((he, b1.push(OutputElementV::Delete(n))))
        },
    }
}

/// The states at which parsing stops.
pub open spec fn response_stops(s: ResponseStateV) -> bool {
    ||| s is Error
    ||| s is Response
    ||| s is ResponseWithBody
    ||| s is ResponseUpgrade
    ||| (s is ResponseWithBodyChunks && s->ResponseWithBodyChunks_chunk == Chunk::Ended)
    ||| s is ResponseWithBodyCloseDelimited
}

/// One round of the loop: the new state, header end and buffer, and whether
/// the loop stops; `None` where the round fails (an empty move, an overflow).
pub open spec fn response_step(
    state: ResponseStateV,
    he: Option<usize>,
    b: BufferQueueV,
    is_head: bool,
    added: Seq<u8>,
    name: Seq<u8>,
    sticky: Option<Seq<u8>>,
) -> Option<(ResponseStateV, Option<usize>, BufferQueueV, bool)> {
    let (mv, s2) = spec_parse_response(state, b.unparsed(), is_head, name);
    match mv {
        BufferMove::Stay => Some((s2, he, b, true)),
        BufferMove::Advance(sz) => if sz == 0 {
            None
        } else {
            match step_advance(s2, he, b, sz, added, name, sticky) {
                Some((he2, b2)) => Some((s2, he2, b2, response_stops(s2))),
                None => None,
            }
        },
        BufferMove::Delete(n) => match step_delete(s2, he, b, n, added, name, sticky) {
            Some((he2, b2)) => Some((s2, he2, b2, response_stops(s2))),
            None => None,
        },
    }
}

/// The whole loop: rounds until one stops; `None` where a round fails or
/// would not make progress.
pub open spec fn run_response(
    state: ResponseStateV,
    he: Option<usize>,
    b: BufferQueueV,
    is_head: bool,
    added: Seq<u8>,
    name: Seq<u8>,
    sticky: Option<Seq<u8>>,
) -> Option<(ResponseStateV, Option<usize>, BufferQueueV)>
    decreases b.unparsed().len(),
{
    match response_step(state, he, b, is_head, added, name, sticky) {
        None => None,
        Some((s2, he2, b2, stop)) => if stop {
            Some((s2, he2, b2))
        } else if b2.unparsed().len() < b.unparsed().len() {
            run_response(s2, he2, b2, is_head, added, name, sticky)
        } else {
            None
        },
    }
}

fn append_bytes(v: &mut Vec<u8>, s: &[u8])
    ensures
        final(v)@ == old(v)@ + s@,
{
    let mut i: usize = 0;
    while i < s.len()
        invariant
            i <= s@.len(),
            v@ == old(v)@ + s@.subrange(0, i as int),
        decreases s@.len() - i,
    {
        v.push(s[i]);
        i = i + 1;
        assert(v@ =~= old(v)@ + s@.subrange(0, i as int));
    }
    assert(s@.subrange(0, s@.len() as int) =~= s@);
}

fn sticky_cookie_bytes(name: &str, id: &str) -> (r: Vec<u8>)
    ensures
        r@ == sticky_cookie(name.spec_bytes(), id.spec_bytes()),
{
    let mut v: Vec<u8> = vec![83u8, 101u8, 116u8, 45u8, 67u8, 111u8, 111u8, 107u8, 105u8, 101u8, 58u8, 32u8];
    assert(v@ =~= set_cookie_lit());
    append_bytes(&mut v, name.as_bytes());
    v.push(61u8);
    append_bytes(&mut v, id.as_bytes());
    let path: Vec<u8> = vec![59u8, 32u8, 80u8, 97u8, 116u8, 104u8, 61u8, 47u8, 13u8, 10u8];
    assert(path@ =~= cookie_path_lit());
    append_bytes(&mut v, path.as_slice());
    assert(v@ =~= sticky_cookie(name.spec_bytes(), id.spec_bytes()));
    v
}

/// Queues the header that sets the sticky session cookie, if there is a session.
pub fn add_sticky_session_to_response(
    buf: &mut BufferQueue,
    sticky_name: &str,
    sticky_session: Option<&StickySession>,
)
    ensures
        final(buf)@ == add_sticky(old(buf)@, sticky_name.spec_bytes(), sticky_id_bytes(sticky_session)),
        final(buf).buffer == old(buf).buffer,
{
    if let Some(sticky_backend) = sticky_session {
        let sticky_cookie = sticky_cookie_bytes(sticky_name, sticky_backend.sticky_id.as_str());
        buf.insert_output(sticky_cookie);
    }
}


/// Records on the buffer that `sz` parsed bytes are to be sent; see [`step_advance`].
fn advance_buffer(
    state: &ResponseState,
    header_end: Option<usize>,
    buf: &mut BufferQueue,
    sz: usize,
    added_res_header: &str,
    sticky_name: &str,
    sticky_session: Option<&StickySession>,
) -> (he: Option<usize>)
    requires
        old(buf)@.wf(),
        step_advance(
            state@,
            header_end,
            old(buf)@,
            sz,
            added_res_header.spec_bytes(),
            sticky_name.spec_bytes(),
            sticky_id_bytes(sticky_session),
        ) is Some,
    ensures
        final(buf)@.wf(),
        final(buf).buffer == old(buf).buffer,
        (he, final(buf)@) == step_advance(
            state@,
            header_end,
            old(buf)@,
            sz,
            added_res_header.spec_bytes(),
            sticky_name.spec_bytes(),
            sticky_id_bytes(sticky_session),
        )->0,
{
    if header_end.is_some() {
        buf.consume_parsed_data(sz);
        buf.slice_output(sz);
        return header_end;
    }
    match state {
        ResponseState::Response { .. }
        | ResponseState::ResponseUpgrade { .. }
        | ResponseState::ResponseWithBodyChunks { .. } => {
            buf.insert_output(slice_to_vec(added_res_header.as_bytes()));
            add_sticky_session_to_response(buf, sticky_name, sticky_session);
            buf.consume_parsed_data(sz);
            let he = Some(buf.start_parsing_position);
            buf.slice_output(sz);
            he
        },
        ResponseState::ResponseWithBody { length, .. } => {
            let length = *length;
            buf.insert_output(slice_to_vec(added_res_header.as_bytes()));
            add_sticky_session_to_response(buf, sticky_name, sticky_session);
            buf.consume_parsed_data(sz);
            let he = Some(buf.start_parsing_position);
            buf.slice_output(sz + length);
            buf.consume_parsed_data(length);
            he
        },
        ResponseState::ResponseWithBodyCloseDelimited { connection, .. } => {
            buf.insert_output(slice_to_vec(added_res_header.as_bytes()));
            add_sticky_session_to_response(buf, sticky_name, sticky_session);
            // the Connection header was dropped: a response that ends with the
            // connection says so again
            if let Some(false) = connection.keep_alive {
                let close: Vec<u8> = vec![67u8, 111u8, 110u8, 110u8, 101u8, 99u8, 116u8, 105u8, 111u8, 110u8, 58u8, 32u8, 99u8, 108u8, 111u8, 115u8, 101u8, 13u8, 10u8];
                assert(close@ =~= connection_close_lit());
                buf.insert_output(close);
            }
            buf.consume_parsed_data(sz);
            let he = Some(buf.start_parsing_position);
            buf.slice_output(sz);
            let len = buf.available_input_data();
            buf.consume_parsed_data(len);
            buf.slice_output(len);
            he
        },
        _ => {
            buf.consume_parsed_data(sz);
            buf.slice_output(sz);
            header_end
        },
    }
}

/// Records on the buffer that `n` parsed bytes are to be dropped; see [`step_delete`].
fn delete_buffer(
    state: &ResponseState,
    header_end: Option<usize>,
    buf: &mut BufferQueue,
    n: usize,
    added_res_header: &str,
    sticky_name: &str,
    sticky_session: Option<&StickySession>,
) -> (he: Option<usize>)
    requires
        old(buf)@.wf(),
        step_delete(
            state@,
            header_end,
            old(buf)@,
            n,
            added_res_header.spec_bytes(),
            sticky_name.spec_bytes(),
            sticky_id_bytes(sticky_session),
        ) is Some,
    ensures
        final(buf)@.wf(),
        final(buf).buffer == old(buf).buffer,
        (he, final(buf)@) == step_delete(
            state@,
            header_end,
            old(buf)@,
            n,
            added_res_header.spec_bytes(),
            sticky_name.spec_bytes(),
            sticky_id_bytes(sticky_session),
        )->0,
{
    buf.consume_parsed_data(n);
    if header_end.is_some() {
        buf.delete_output(n);
        return header_end;
    }
    match state {
        ResponseState::Response { .. }
        | ResponseState::ResponseUpgrade { .. }
        | ResponseState::ResponseWithBodyChunks { .. } => {
            let he = Some(buf.start_parsing_position);
            buf.insert_output(slice_to_vec(added_res_header.as_bytes()));
            add_sticky_session_to_response(buf, sticky_name, sticky_session);
            buf.delete_output(n);
            he
        },
        ResponseState::ResponseWithBody { length, .. } => {
            let length = *length;
            let he = Some(buf.start_parsing_position);
            buf.insert_output(slice_to_vec(added_res_header.as_bytes()));
            buf.delete_output(length);
            add_sticky_session_to_response(buf, sticky_name, sticky_session);
            buf.slice_output(length);
            buf.consume_parsed_data(length);
            he
        },
        _ => {
            buf.delete_output(n);
            header_end
        },
    }
}

/// Whether recording that `sz` parsed bytes are to be sent keeps every
/// position within a `usize`; see [`step_advance`].
fn advance_fits(
    state: &ResponseState,
    header_end: Option<usize>,
    buf: &BufferQueue,
    sz: usize,
    added_res_header: &str,
    sticky_name: &str,
    sticky_session: Option<&StickySession>,
) -> (r: bool)
    requires
        buf@.wf(),
    ensures
        r == step_advance(
            state@,
            header_end,
            buf@,
            sz,
            added_res_header.spec_bytes(),
            sticky_name.spec_bytes(),
            sticky_id_bytes(sticky_session),
        ) is Some,
{
    let pp = buf.parsed_position;
    if pp > usize::MAX - sz {
        return false;
    }
    if header_end.is_some() {
        return true;
    }
    match state {
        ResponseState::ResponseWithBody { length, .. } => {
            let length = *length;
            sz <= usize::MAX - length && pp + sz <= usize::MAX - length
        },
        ResponseState::ResponseWithBodyCloseDelimited { .. } => {
            let after = pp + sz;
            let offset = after - buf.buffer_position;
            let data = buf.buffer.available_data();
            let len = if data <= offset {
                0
            } else {
                data - offset
            };
            after <= usize::MAX - len
        },
        _ => true,
    }
}

/// Whether recording that `n` parsed bytes are to be dropped keeps every
/// position within a `usize`; see [`step_delete`].
fn delete_fits(state: &ResponseState, header_end: Option<usize>, buf: &BufferQueue, n: usize) -> (r: bool)
    ensures
        forall|added: Seq<u8>, name: Seq<u8>, sticky: Option<Seq<u8>>|
            r == step_delete(state@, header_end, buf@, n, added, name, sticky) is Some,
{
    let pp = buf.parsed_position;
    if pp > usize::MAX - n {
        return false;
    }
    if header_end.is_some() {
        return true;
    }
    match state {
        ResponseState::ResponseWithBody { length, .. } => pp + n <= usize::MAX - *length,
        _ => true,
    }
}

/// Parses as much of the response head in `buf` as it can, as
/// [`parse_response_until_stop`] does, where that can be done: `None`, with
/// the parsed part of the buffer recorded as far as it got, where a step
/// would move by nothing, move a position past `usize::MAX`, or not move on.
pub fn try_parse_response_until_stop(
    current_state: ResponseState,
    header_end: Option<usize>,
    buf: &mut BufferQueue,
    is_head: bool,
    added_res_header: &str,
    sticky_name: &str,
    sticky_session: Option<&StickySession>,
    app_id: Option<&str>,
) -> (r: Option<(ResponseState, Option<usize>)>)
    requires
        old(buf)@.wf(),
    ensures
        final(buf).buffer == old(buf).buffer,
        ({
            let res = run_response(
                current_state@,
                header_end,
                old(buf)@,
                is_head,
                added_res_header.spec_bytes(),
                sticky_name.spec_bytes(),
                sticky_id_bytes(sticky_session),
            );
            match r {
                Some(p) => {
                    &&& res is Some
                    &&& p.0@ == (res->0).0
                    &&& p.1 == (res->0).1
                    &&& final(buf)@ == (res->0).2
                },
                None => res is None,
            }
        }),
{
    let ghost added = added_res_header.spec_bytes();
    let ghost name = sticky_name.spec_bytes();
    let ghost sticky = sticky_id_bytes(sticky_session);
    let ghost result = run_response(current_state@, header_end, buf@, is_head, added, name, sticky);
    let mut state = current_state;
    let mut he = header_end;
    loop
        invariant
            buf@.wf(),
            buf.buffer == old(buf).buffer,
            run_response(state@, he, buf@, is_head, added, name, sticky) == result,
            result == run_response(current_state@, header_end, old(buf)@, is_head, added, name, sticky),
            added == added_res_header.spec_bytes(),
            name == sticky_name.spec_bytes(),
            sticky == sticky_id_bytes(sticky_session),
        decreases buf@.unparsed().len(),
    {
        let ghost b0 = buf@;
        let ghost st0 = state@;
        let ghost he0 = he;
        let before = buf.available_input_data();
        let (mv, new_state) = parse_response(
            state,
            buf.unparsed_data(),
            is_head,
            sticky_name,
            app_id,
        );
        state = new_state;
        proof {
            let sp = spec_parse_response(st0, b0.unparsed(), is_head, name);
            assert(mv == sp.0 && state@ == sp.1);
            reveal_with_fuel(run_response, 1);
        }
        match mv {
            BufferMove::Advance(sz) => {
                if sz == 0 || !advance_fits(
                    &state,
                    he,
                    buf,
                    sz,
                    added_res_header,
                    sticky_name,
                    sticky_session,
                ) {
                    return None;
                }
                he = advance_buffer(
                    &state,
                    he,
                    buf,
                    sz,
                    added_res_header,
                    sticky_name,
                    sticky_session,
                );
            },
            BufferMove::Delete(n) => {
                if !delete_fits(&state, he, buf, n) {
                    return None;
                }
                he = delete_buffer(
                    &state,
                    he,
                    buf,
                    n,
                    added_res_header,
                    sticky_name,
                    sticky_session,
                );
            },
            BufferMove::Stay => {
                assert(response_step(st0, he0, b0, is_head, added, name, sticky) == Some(
                    (state@, he0, b0, true),
                ));
                assert(result == Some((state@, he0, b0)));
                return Some((state, he));
            },
        }
        let stop = match &state {
            ResponseState::Error { .. } => true,
            ResponseState::Response { .. }
            | ResponseState::ResponseWithBody { .. }
            | ResponseState::ResponseUpgrade { .. }
            | ResponseState::ResponseWithBodyCloseDelimited { .. } => true,
            ResponseState::ResponseWithBodyChunks { chunk: Chunk::Ended, .. } => true,
            _ => false,
        };
        assert(stop == response_stops(state@));
        assert(response_step(st0, he0, b0, is_head, added, name, sticky) == Some(
            (state@, he, buf@, stop),
        ));
        if stop {
            assert(result == Some((state@, he, buf@)));
            return Some((state, he));
        }
        if buf.available_input_data() >= before {
            assert(result is None);
            return None;
        }
    }
}

/// Parses as much of the response head in `buf` as it can, from
/// `current_state`, and queues what to send: once the head is complete, the
/// proxy's own headers (`added_res_header`, the sticky session cookie), then
/// the parsed bytes, except the headers that are dropped; a body of known
/// length is queued whole, and a body delimited by the end of the connection
/// is queued as far as it is buffered. Returns the state and, once the head is
/// complete, the position where it ends. [`try_parse_response_until_stop`]
/// tells beforehand whether the `requires` holds.
pub fn parse_response_until_stop(
    current_state: ResponseState,
    header_end: Option<usize>,
    buf: &mut BufferQueue,
    is_head: bool,
    added_res_header: &str,
    sticky_name: &str,
    sticky_session: Option<&StickySession>,
    app_id: Option<&str>,
) -> (r: (ResponseState, Option<usize>))
    requires
        old(buf)@.wf(),
        run_response(
            current_state@,
            header_end,
            old(buf)@,
            is_head,
            added_res_header.spec_bytes(),
            sticky_name.spec_bytes(),
            sticky_id_bytes(sticky_session),
        ) is Some,
    ensures
        ({
            let res = run_response(
                current_state@,
                header_end,
                old(buf)@,
                is_head,
                added_res_header.spec_bytes(),
                sticky_name.spec_bytes(),
                sticky_id_bytes(sticky_session),
            )->0;
            &&& r.0@ == res.0
            &&& r.1 == res.1
            &&& final(buf)@ == res.2
        }),
        final(buf).buffer == old(buf).buffer,
{
    match try_parse_response_until_stop(
        current_state,
        header_end,
        buf,
        is_head,
        added_res_header,
        sticky_name,
        sticky_session,
        app_id,
    ) {
        Some(r) => r,
        None => (ResponseState::Initial, None),
    }
}

/// How many buffer bytes an output element hands on or drops.
pub open spec fn queued(e: OutputElementV) -> int {
    match e {
        OutputElementV::Slice(n) => n as int,
        OutputElementV::Delete(n) => n as int,
        OutputElementV::Insert(_) => 0,
    }
}

/// How many buffer bytes the output queue hands on or drops, in all.
pub open spec fn queued_len(out: Seq<OutputElementV>) -> int
    decreases out.len(),
{
    if out.len() == 0 {
        0
    } else {
        queued_len(out.drop_last()) + queued(out.last())
    }
}

/// The buffer `b2` came from `b` by parsing on: the same data, the output
/// only grown, and each byte parsed meanwhile queued once, to be sent or
/// dropped.
pub open spec fn accounts(b: BufferQueueV, b2: BufferQueueV) -> bool {
    &&& b2.data == b.data
    &&& b2.buffer_position == b.buffer_position
    &&& b.output.len() <= b2.output.len()
    &&& b2.output.subrange(0, b.output.len() as int) == b.output
    &&& queued_len(b2.output) - queued_len(b.output) == b2.parsed_position - b.parsed_position
}

proof fn lemma_accounts_refl(b: BufferQueueV)
    ensures
        accounts(b, b),
{
    assert(b.output.subrange(0, b.output.len() as int) =~= b.output);
}

proof fn lemma_accounts_trans(a: BufferQueueV, b: BufferQueueV, c: BufferQueueV)
    requires
        accounts(a, b),
        accounts(b, c),
    ensures
        accounts(a, c),
{
    assert(c.output.subrange(0, a.output.len() as int) =~= c.output.subrange(
        0,
        b.output.len() as int,
    ).subrange(0, a.output.len() as int));
}

proof fn lemma_accounts_push(b: BufferQueueV, e: OutputElementV)
    ensures
        accounts(b, b.push(e)) <==> queued(e) == 0,
        queued_len(b.push(e).output) == queued_len(b.output) + queued(e),
{
    assert(b.push(e).output.drop_last() =~= b.output);
    assert(b.push(e).output.subrange(0, b.output.len() as int) =~= b.output);
}

proof fn lemma_accounts_consume_push(b: BufferQueueV, n: usize, e: OutputElementV)
    requires
        b.consume(n) is Some,
        queued(e) == n,
    ensures
        accounts(b, b.consume(n)->0.push(e)),
{
    let b1 = b.consume(n)->0;
    lemma_accounts_push(b1, e);
    assert(b1.push(e).output.subrange(0, b.output.len() as int) =~= b.output);
}

proof fn lemma_accounts_sticky(b: BufferQueueV, name: Seq<u8>, sticky: Option<Seq<u8>>)
    ensures
        accounts(b, add_sticky(b, name, sticky)),
{
    lemma_accounts_refl(b);
    if let Some(id) = sticky {
        lemma_accounts_push(b, OutputElementV::Insert(sticky_cookie(name, id)));
    }
}

proof fn lemma_accounts_head(b: BufferQueueV, added: Seq<u8>, name: Seq<u8>, sticky: Option<Seq<u8>>)
    ensures
        accounts(b, add_head(b, added, name, sticky)),
        add_head(b, added, name, sticky).parsed_position == b.parsed_position,
{
    let b1 = b.push(OutputElementV::Insert(added));
    lemma_accounts_push(b, OutputElementV::Insert(added));
    lemma_accounts_sticky(b1, name, sticky);
    lemma_accounts_trans(b, b1, add_head(b, added, name, sticky));
}

/// A header line that is dropped leaves the head unfinished.
proof fn lemma_delete_keeps_head_open(state: ResponseStateV, s: Seq<u8>, is_head: bool, name: Seq<u8>)
    requires
        spec_parse_response(state, s, is_head, name).0 is Delete,
    ensures
        ({
            let s2 = spec_parse_response(state, s, is_head, name).1;
            !head_complete(s2) && !(s2 is ResponseWithBody)
        }),
{
}

proof fn lemma_step_accounts(
    state: ResponseStateV,
    he: Option<usize>,
    b: BufferQueueV,
    is_head: bool,
    added: Seq<u8>,
    name: Seq<u8>,
    sticky: Option<Seq<u8>>,
)
    requires
        b.wf(),
        response_step(state, he, b, is_head, added, name, sticky) is Some,
    ensures
        ({
            let b2 = (response_step(state, he, b, is_head, added, name, sticky)->0).2;
            accounts(b, b2) && b2.wf()
        }),
{
    let (mv, s2) = spec_parse_response(state, b.unparsed(), is_head, name);
    match mv {
        BufferMove::Stay => {
            lemma_accounts_refl(b);
        },
        BufferMove::Advance(sz) => {
            let plain = b.consume(sz);
            if he is Some || !(head_complete(s2) || s2 is ResponseWithBody || s2 is ResponseWithBodyCloseDelimited) {
                lemma_accounts_consume_push(b, sz, OutputElementV::Slice(sz));
            } else if head_complete(s2) {
                let b2 = add_head(b, added, name, sticky);
                lemma_accounts_head(b, added, name, sticky);
                lemma_accounts_consume_push(b2, sz, OutputElementV::Slice(sz));
                lemma_accounts_trans(b, b2, b2.consume(sz)->0.push(OutputElementV::Slice(sz)));
            } else if s2 is ResponseWithBody {
                let length = s2->ResponseWithBody_length;
                let b2 = add_head(b, added, name, sticky);
                lemma_accounts_head(b, added, name, sticky);
                let b3 = b2.consume(sz)->0;
                let b4 = b3.push(OutputElementV::Slice((sz + length) as usize));
                lemma_accounts_push(b3, OutputElementV::Slice((sz + length) as usize));
                assert(b2.consume(sz) is Some);
                assert(sz + length <= usize::MAX);
                assert(b4.consume(length) is Some);
                let b5 = b4.consume(length)->0;
                assert(b5.output =~= b2.output.push(OutputElementV::Slice((sz + length) as usize)));
                assert(b5.output.subrange(0, b2.output.len() as int) =~= b2.output);
                assert(queued_len(b5.output) == queued_len(b2.output) + sz + length);
                assert(accounts(b2, b5));
                lemma_accounts_trans(b, b2, b5);
            } else {
                let b2 = add_head(b, added, name, sticky);
                lemma_accounts_head(b, added, name, sticky);
                let b3 = if s2->ResponseWithBodyCloseDelimited_connection.keep_alive == Some(false) {
                    b2.push(OutputElementV::Insert(connection_close_lit()))
                } else {
                    b2
                };
                lemma_accounts_refl(b2);
                lemma_accounts_push(b2, OutputElementV::Insert(connection_close_lit()));
                lemma_accounts_trans(b, b2, b3);
                lemma_accounts_consume_push(b3, sz, OutputElementV::Slice(sz));
                let b5 = b3.consume(sz)->0.push(OutputElementV::Slice(sz));
                lemma_accounts_trans(b, b3, b5);
                let len = b5.unparsed().len() as usize;
                if b5.consume(len) is Some {
                    lemma_accounts_consume_push(b5, len, OutputElementV::Slice(len));
                    lemma_accounts_trans(b, b5, b5.consume(len)->0.push(OutputElementV::Slice(len)));
                }
            }
        },
        BufferMove::Delete(n) => {
            lemma_delete_keeps_head_open(state, b.unparsed(), is_head, name);
            lemma_accounts_consume_push(b, n, OutputElementV::Delete(n));
        },
    }
}

/// Every byte that response parsing moves past is queued once for the
/// output, to be sent or dropped, and nothing queued before is changed:
/// the bytes that the queued output elements hand on or drop grow exactly
/// as the parsed position does, and the buffer's data stays as it was.
pub proof fn law_parsed_bytes_are_queued_once(
    state: ResponseStateV,
    he: Option<usize>,
    b: BufferQueueV,
    is_head: bool,
    added: Seq<u8>,
    name: Seq<u8>,
    sticky: Option<Seq<u8>>,
)
    requires
        b.wf(),
        run_response(state, he, b, is_head, added, name, sticky) is Some,
    ensures
        accounts(b, (run_response(state, he, b, is_head, added, name, sticky)->0).2),
    decreases b.unparsed().len(),
{
    lemma_step_accounts(state, he, b, is_head, added, name, sticky);
    let (s2, he2, b2, stop) = response_step(state, he, b, is_head, added, name, sticky)->0;
    if !stop {
        law_parsed_bytes_are_queued_once(s2, he2, b2, is_head, added, name, sticky);
        lemma_accounts_trans(b, b2, (run_response(s2, he2, b2, is_head, added, name, sticky)->0).2);
    }
}

/// No element queued from position `from` on inserts bytes of its own.
pub open spec fn no_inserts_from(out: Seq<OutputElementV>, from: int) -> bool {
    forall|i: int| from <= i < out.len() ==> !(#[trigger] out[i] is Insert)
}

/// The output of `b2` is that of `b` followed by elements that only hand on
/// or drop buffer bytes.
pub open spec fn only_moves(b: BufferQueueV, b2: BufferQueueV) -> bool {
    &&& b.output.len() <= b2.output.len()
    &&& b2.output.subrange(0, b.output.len() as int) == b.output
    &&& no_inserts_from(b2.output, b.output.len() as int)
}

proof fn lemma_only_moves_trans(a: BufferQueueV, b: BufferQueueV, c: BufferQueueV)
    requires
        only_moves(a, b),
        only_moves(b, c),
    ensures
        only_moves(a, c),
{
    assert(c.output.subrange(0, a.output.len() as int) =~= c.output.subrange(
        0,
        b.output.len() as int,
    ).subrange(0, a.output.len() as int));
    assert forall|i: int| a.output.len() <= i < c.output.len() implies !(#[trigger] c.output[i] is Insert) by {
        if i < b.output.len() {
            assert(c.output[i] == c.output.subrange(0, b.output.len() as int)[i]);
        }
    }
}

proof fn lemma_step_keeps_head_end(
    state: ResponseStateV,
    h: usize,
    b: BufferQueueV,
    is_head: bool,
    added: Seq<u8>,
    name: Seq<u8>,
    sticky: Option<Seq<u8>>,
)
    requires
        response_step(state, Some(h), b, is_head, added, name, sticky) is Some,
    ensures
        (response_step(state, Some(h), b, is_head, added, name, sticky)->0).1 == Some(h),
        only_moves(b, (response_step(state, Some(h), b, is_head, added, name, sticky)->0).2),
{
    let (mv, s2) = spec_parse_response(state, b.unparsed(), is_head, name);
    assert(b.output.subrange(0, b.output.len() as int) =~= b.output);
    match mv {
        BufferMove::Advance(sz) => {
            let b2 = b.consume(sz)->0.push(OutputElementV::Slice(sz));
            assert(b2.output.subrange(0, b.output.len() as int) =~= b.output);
        },
        BufferMove::Delete(n) => {
            let b2 = b.consume(n)->0.push(OutputElementV::Delete(n));
            assert(b2.output.subrange(0, b.output.len() as int) =~= b.output);
        },
        BufferMove::Stay => {},
    }
}

/// Once the end of the response head is known, parsing on keeps it, and
/// queues only the bytes it moves past, to be sent or dropped: nothing of
/// its own (neither the proxy's added headers nor a sticky session cookie)
/// is inserted again.
pub proof fn law_known_head_end_is_kept(
    state: ResponseStateV,
    h: usize,
    b: BufferQueueV,
    is_head: bool,
    added: Seq<u8>,
    name: Seq<u8>,
    sticky: Option<Seq<u8>>,
)
    requires
        run_response(state, Some(h), b, is_head, added, name, sticky) is Some,
    ensures
        (run_response(state, Some(h), b, is_head, added, name, sticky)->0).1 == Some(h),
        only_moves(b, (run_response(state, Some(h), b, is_head, added, name, sticky)->0).2),
    decreases b.unparsed().len(),
{
    lemma_step_keeps_head_end(state, h, b, is_head, added, name, sticky);
    let (s2, he2, b2, stop) = response_step(state, Some(h), b, is_head, added, name, sticky)->0;
    if !stop {
        law_known_head_end_is_kept(s2, h, b2, is_head, added, name, sticky);
        lemma_only_moves_trans(b, b2, (run_response(s2, Some(h), b2, is_head, added, name, sticky)->0).2);
    }
}

/// What the proxy inserts before the head of a response once the head is
/// complete: the added headers, then the sticky session cookie if there is
/// a session, then `Connection: close` where `close` says so.
pub open spec fn head_inserts(added: Seq<u8>, name: Seq<u8>, sticky: Option<Seq<u8>>, close: bool) -> Seq<OutputElementV> {
    seq![OutputElementV::Insert(added)] + match sticky {
        Some(id) => seq![OutputElementV::Insert(sticky_cookie(name, id))],
        None => Seq::empty(),
    } + if close {
        seq![OutputElementV::Insert(connection_close_lit())]
    } else {
        Seq::empty()
    }
}

/// When the head of a response completes with a move over `sz` bytes, the
/// output queue gets, in this order: the added headers, the sticky session
/// cookie if there is a session, `Connection: close` for a body delimited by
/// the end of a connection that is not kept alive, and then the head's bytes
/// (with the body, for a body of known length; followed by the body
/// buffered so far, for a body delimited by the end of the connection).
pub proof fn law_head_completion_order(
    s2: ResponseStateV,
    b: BufferQueueV,
    sz: usize,
    added: Seq<u8>,
    name: Seq<u8>,
    sticky: Option<Seq<u8>>,
)
    requires
        head_complete(s2) || s2 is ResponseWithBody || s2 is ResponseWithBodyCloseDelimited,
        step_advance(s2, None, b, sz, added, name, sticky) is Some,
    ensures
        ({
            let out = (step_advance(s2, None, b, sz, added, name, sticky)->0).1.output;
            let close = s2 is ResponseWithBodyCloseDelimited
                && s2->ResponseWithBodyCloseDelimited_connection.keep_alive == Some(false);
            let pre = b.output + head_inserts(added, name, sticky, close);
            &&& out.subrange(0, pre.len() as int) == pre
            &&& (head_complete(s2) ==> out == pre.push(OutputElementV::Slice(sz)))
            &&& (s2 matches ResponseStateV::ResponseWithBody { length, .. } ==> out == pre.push(
                OutputElementV::Slice((sz + length) as usize),
            ))
            &&& (s2 is ResponseWithBodyCloseDelimited ==> out.len() == pre.len() + 2 && out[pre.len() as int]
                == OutputElementV::Slice(sz) && out[pre.len() + 1int] is Slice)
        }),
{
    let close = s2 is ResponseWithBodyCloseDelimited
        && s2->ResponseWithBodyCloseDelimited_connection.keep_alive == Some(false);
    let pre = b.output + head_inserts(added, name, sticky, close);
    let out = (step_advance(s2, None, b, sz, added, name, sticky)->0).1.output;
    let h = add_head(b, added, name, sticky);
    let hi = head_inserts(added, name, sticky, false);
    assert(h.output =~= b.output + hi);
    if close {
        assert(h.output.push(OutputElementV::Insert(connection_close_lit())) =~= pre);
    } else {
        assert(h.output =~= pre);
    }
    assert(out.subrange(0, pre.len() as int) =~= pre);
}

} // verus!
