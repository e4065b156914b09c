//! Reassembly of frames from the inbound byte stream and their application
//! to the session.

use vstd::prelude::*;

use crate::error::EngineError;
use crate::protocol::HEADER_LEN;
use crate::response::{response_of, Response, ResponseView};
use crate::response_header::{header_of, HeaderView, ResponseHeader};
use crate::session::{apply_response, Session, SessionView};

verus! {

/// What the front of the inbound byte stream holds.
pub enum FrameStep {
    /// Not yet a whole frame.
    Incomplete,
    /// A header with the wrong marker byte or version; `rest` follows it.
    BadHeader { rest: Seq<u8> },
    /// A whole frame, and the bytes after it.
    Frame { header: HeaderView, body: Seq<u8>, rest: Seq<u8> },
}

/// Splits the first frame off `buf`.
pub open spec fn next_frame(buf: Seq<u8>) -> FrameStep {
    if buf.len() < HEADER_LEN {
        FrameStep::Incomplete
    } else if !header_of(buf).valid {
        FrameStep::BadHeader { rest: buf.skip(HEADER_LEN as int) }
    } else if buf.len() < HEADER_LEN + header_of(buf).body_len {
        FrameStep::Incomplete
    } else {
        let end = HEADER_LEN + header_of(buf).body_len;
        FrameStep::Frame {
            header: header_of(buf),
            body: buf.subrange(HEADER_LEN as int, end),
            rest: buf.skip(end),
        }
    }
}

/// The outcome of dispatching buffered bytes: the session after every
/// decoded response, the bytes left over, the responses in order, the
/// unhandled responses met on the way, and the fatal error that stopped it.
pub struct Dispatch {
    pub session: SessionView,
    pub rest: Seq<u8>,
    pub decoded: Seq<ResponseView>,
    pub notices: Seq<EngineError>,
    pub error: Option<EngineError>,
}

/// The report for a response that the engine does not handle, if it is one.
pub open spec fn notice_of(h: HeaderView, r: ResponseView) -> Seq<EngineError> {
    match r {
        ResponseView::Invalid { response_type, error_code } => seq![
            EngineError::UnhandledResponse { response_type, error_code, request_id: h.request_id },
        ],
        _ => Seq::empty(),
    }
}

/// Decodes and applies every whole frame at the front of `buf`, stopping at
/// an incomplete frame or at the first fatal error.
pub open spec fn dispatch(s: SessionView, buf: Seq<u8>) -> Dispatch
    decreases buf.len(),
{
    match next_frame(buf) {
        FrameStep::Incomplete => Dispatch {
            session: s,
            rest: buf,
            decoded: Seq::empty(),
            notices: Seq::empty(),
            error: None,
        },
        FrameStep::BadHeader { rest } => Dispatch {
            session: s,
            rest,
            decoded: Seq::empty(),
            notices: Seq::empty(),
            error: Some(EngineError::Protocol),
        },
        FrameStep::Frame { header, body, rest } => {
            match response_of(header.response_type, header.error_code, body) {
                None => Dispatch {
                    session: s,
                    rest,
                    decoded: Seq::empty(),
                    notices: Seq::empty(),
                    error: Some(EngineError::ShortBody),
                },
                Some(r) => {
                    let d = dispatch(apply_response(s, r), rest);
                    Dispatch {
                        decoded: seq![r] + d.decoded,
                        notices: notice_of(header, r) + d.notices,
                        ..d
                    }
                },
            }
        },
    }
}

/// Chunks laid end to end.
pub open spec fn joined(chunks: Seq<Seq<u8>>) -> Seq<u8>
    decreases chunks.len(),
{
    if chunks.len() == 0 {
        Seq::empty()
    } else {
        joined(chunks.drop_last()) + chunks.last()
    }
}

/// Receiving `chunks` one after another from session `s` and an empty inbox:
/// each chunk joins the bytes left over and the whole is dispatched.
pub open spec fn feed(s: SessionView, chunks: Seq<Seq<u8>>) -> Dispatch
    decreases chunks.len(),
{
    if chunks.len() == 0 {
        Dispatch {
            session: s,
            rest: Seq::empty(),
            decoded: Seq::empty(),
            notices: Seq::empty(),
            error: None,
        }
    } else {
        let before = feed(s, chunks.drop_last());
        let d = dispatch(before.session, before.rest + chunks.last());
        Dispatch {
            decoded: before.decoded + d.decoded,
            notices: before.notices + d.notices,
            error: if before.error is Some {
                before.error
            } else {
                d.error
            },
            ..d
        }
    }
}

/// A single whole frame: a valid header, exactly the body it announces, and a
/// body that decodes.
pub open spec fn is_whole_frame(f: Seq<u8>) -> bool {
    &&& f.len() >= HEADER_LEN
    &&& header_of(f).valid
    &&& f.len() == HEADER_LEN + header_of(f).body_len
    &&& response_of(header_of(f).response_type, header_of(f).error_code, f.skip(HEADER_LEN as int))
        is Some
}

/// The response a whole frame decodes to.
pub open spec fn frame_response(f: Seq<u8>) -> ResponseView {
    response_of(header_of(f).response_type, header_of(f).error_code, f.skip(HEADER_LEN as int))->0
}

/// The bytes of the first `k` chunks begin the bytes of all of them.
proof fn lemma_joined_prefix(chunks: Seq<Seq<u8>>, k: int)
    requires
        0 <= k <= chunks.len(),
    ensures
        joined(chunks.take(k)).len() <= joined(chunks).len(),
        joined(chunks.take(k)) == joined(chunks).take(joined(chunks.take(k)).len() as int),
    decreases chunks.len(),
{
    if k == chunks.len() {
        assert(chunks.take(k) =~= chunks);
    } else {
        lemma_joined_prefix(chunks.drop_last(), k);
        assert(chunks.drop_last().take(k) =~= chunks.take(k));
    }
}

/// A proper beginning of a whole frame decodes to nothing and stays buffered.
proof fn lemma_partial_frame_waits(s: SessionView, f: Seq<u8>, p: Seq<u8>)
    requires
        is_whole_frame(f),
        p.len() < f.len(),
        p == f.take(p.len() as int),
    ensures
        dispatch(s, p) == (Dispatch {
            session: s,
            rest: p,
            decoded: Seq::empty(),
            notices: Seq::empty(),
            error: None,
        }),
{
    if p.len() >= HEADER_LEN {
        assert(header_of(p) == header_of(f));
    }
}

/// A whole frame decodes to its one response and leaves nothing behind.
proof fn lemma_whole_frame(s: SessionView, f: Seq<u8>)
    requires
        is_whole_frame(f),
    ensures
        dispatch(s, f) == (Dispatch {
            session: apply_response(s, frame_response(f)),
            rest: Seq::empty(),
            decoded: seq![frame_response(f)],
            notices: notice_of(header_of(f), frame_response(f)),
            error: None,
        }),
{
    let h = header_of(f);
    assert(f.subrange(HEADER_LEN as int, HEADER_LEN + h.body_len) =~= f.skip(HEADER_LEN as int));
    assert(f.skip(HEADER_LEN + h.body_len) =~= Seq::<u8>::empty());
    let d = dispatch(apply_response(s, frame_response(f)), Seq::empty());
    assert(seq![frame_response(f)] + d.decoded =~= seq![frame_response(f)]);
    assert(notice_of(h, frame_response(f)) + d.notices =~= notice_of(h, frame_response(f)));
}

proof fn lemma_feed_steps(s: SessionView, chunks: Seq<Seq<u8>>, k: int)
    requires
        is_whole_frame(joined(chunks)),
        0 <= k <= chunks.len(),
    ensures
        ({
            let f = joined(chunks);
            let p = joined(chunks.take(k));
            if p.len() < f.len() {
                feed(s, chunks.take(k)) == (Dispatch {
                    session: s,
                    rest: p,
                    decoded: Seq::empty(),
                    notices: Seq::empty(),
                    error: None,
                })
            } else {
                feed(s, chunks.take(k)) == (Dispatch {
                    session: apply_response(s, frame_response(f)),
                    rest: Seq::empty(),
                    decoded: seq![frame_response(f)],
                    notices: notice_of(header_of(f), frame_response(f)),
                    error: None,
                })
            }
        }),
    decreases k,
{
    let f = joined(chunks);
    lemma_joined_prefix(chunks, k);
    if k > 0 {
        let prev = chunks.take(k - 1);
        assert(chunks.take(k).drop_last() =~= prev);
        assert(chunks.take(k).last() == chunks[k - 1]);
        lemma_feed_steps(s, chunks, k - 1);
        lemma_joined_prefix(chunks, k - 1);
        let p0 = joined(prev);
        let p = joined(chunks.take(k));
        let before = feed(s, prev);
        if p0.len() < f.len() {
            assert(before.rest + chunks[k - 1] == p);
            if p.len() < f.len() {
                lemma_partial_frame_waits(before.session, f, p);
            } else {
                assert(p =~= f);
                lemma_whole_frame(s, f);
            }
        } else {
            assert(p0 =~= f);
            assert(chunks[k - 1].len() == 0);
            assert(before.rest + chunks[k - 1] =~= Seq::<u8>::empty());
        }
        let d = dispatch(before.session, before.rest + chunks[k - 1]);
        assert(before.decoded + d.decoded =~= feed(s, chunks.take(k)).decoded);
    }
}

/// However the bytes of one whole frame are split into chunks, receiving the
/// chunks one at a time decodes nothing while bytes are missing and exactly
/// that frame's response once all of them have arrived.
pub proof fn lemma_chunked_frame(s: SessionView, chunks: Seq<Seq<u8>>)
    requires
        is_whole_frame(joined(chunks)),
    ensures
        forall|k: int|
            0 <= k <= chunks.len() && #[trigger] joined(chunks.take(k)).len()
                < joined(chunks).len() ==> feed(s, chunks.take(k)).decoded.len() == 0,
        feed(s, chunks).decoded == seq![frame_response(joined(chunks))],
        feed(s, chunks).session == apply_response(s, frame_response(joined(chunks))),
        feed(s, chunks).rest.len() == 0,
        feed(s, chunks).error is None,
{
    assert forall|k: int|
        0 <= k <= chunks.len() && #[trigger] joined(chunks.take(k)).len()
            < joined(chunks).len() implies feed(s, chunks.take(k)).decoded.len() == 0 by {
        lemma_feed_steps(s, chunks, k);
    }
    lemma_feed_steps(s, chunks, chunks.len() as int);
    assert(chunks.take(chunks.len() as int) =~= chunks);
}

/// Decodes every whole frame at the front of `inbox` and applies each to
/// `session`; the bytes of an unfinished frame stay in `inbox` for later.
/// Returns the unhandled responses met, or the fatal error that stopped it.
pub fn dispatch_frames(session: &mut Session, inbox: &mut Vec<u8>) -> (r: Result<
    Vec<EngineError>,
    EngineError,
>)
    ensures
        final(session)@ == dispatch(old(session)@, old(inbox)@).session,
        final(inbox)@ == dispatch(old(session)@, old(inbox)@).rest,
        match r {
            Ok(notices) => dispatch(old(session)@, old(inbox)@).error is None && notices@
                == dispatch(old(session)@, old(inbox)@).notices,
            Err(e) => dispatch(old(session)@, old(inbox)@).error == Some(e),
        },
{
    let ghost s0 = session@;
    let ghost b0 = inbox@;
    let mut notices: Vec<EngineError> = Vec::new();
    let mut pos: usize = 0;
    assert(b0.skip(0) =~= b0);
    loop
        invariant_except_break
            s0 == old(session)@,
            b0 == old(inbox)@,
            inbox@ == b0,
            pos <= inbox@.len(),
            dispatch(s0, b0).session == dispatch(session@, b0.skip(pos as int)).session,
            dispatch(s0, b0).rest == dispatch(session@, b0.skip(pos as int)).rest,
            dispatch(s0, b0).error == dispatch(session@, b0.skip(pos as int)).error,
            dispatch(s0, b0).notices == notices@ + dispatch(session@, b0.skip(pos as int)).notices,
        ensures
            inbox@ == b0,
            pos <= inbox@.len(),
            dispatch(s0, b0).session == session@,
            dispatch(s0, b0).rest == b0.skip(pos as int),
            dispatch(s0, b0).error is None,
            dispatch(s0, b0).notices == notices@,
        decreases inbox@.len() - pos,
    {
        let ghost cur = b0.skip(pos as int);
        let avail = inbox.len() - pos;
        if avail < HEADER_LEN {
            assert(dispatch(session@, cur).notices =~= Seq::<EngineError>::empty());
            assert(notices@ + Seq::<EngineError>::empty() =~= notices@);
            break ;
        }
        let header = ResponseHeader::decode(&inbox[pos..pos + HEADER_LEN]);
        assert(inbox@.subrange(pos as int, pos + HEADER_LEN) =~= cur.take(12));
        assert(header_of(cur.take(12)) == header_of(cur));
        if !header.valid() {
            let rest = inbox.split_off(pos + HEADER_LEN);
            *inbox = rest;
            assert(inbox@ =~= cur.skip(12));
            assert(next_frame(cur) == FrameStep::BadHeader { rest: cur.skip(12) });
            assert(dispatch(session@, cur).rest == cur.skip(12));
            return Err(EngineError::Protocol);
        }
        let body_len = header.body_len() as usize;
        if avail - HEADER_LEN < body_len {
            assert(dispatch(session@, cur).notices =~= Seq::<EngineError>::empty());
            assert(notices@ + Seq::<EngineError>::empty() =~= notices@);
            break ;
        }
        let end = pos + HEADER_LEN + body_len;
        let body = &inbox[pos + HEADER_LEN..end];
        assert(body@ =~= cur.subrange(12, 12 + body_len));
        assert(b0.skip(end as int) =~= cur.skip(12 + body_len));
        match Response::decode(&header, body) {
            None => {
                let rest = inbox.split_off(end);
                *inbox = rest;
                return Err(EngineError::ShortBody);
            },
            Some(resp) => {
                let ghost before = notices@;
                session.apply(&resp);
                match resp {
                    Response::Invalid { response_type, error_code } => {
                        notices.push(
                            EngineError::UnhandledResponse {
                                response_type,
                                error_code,
                                request_id: header.request_id(),
                            },
                        );
                    },
                    _ => {},
                }
                assert(notices@ =~= before + notice_of(header@, resp@));
                assert(before + (notice_of(header@, resp@) + dispatch(session@, b0.skip(end as int)).notices)
                    =~= notices@ + dispatch(session@, b0.skip(end as int)).notices);
                pos = end;
            },
        }
    }
    let rest = inbox.split_off(pos);
    *inbox = rest;
    Ok(notices)
}

} // verus!
