//! Inbound wire codec: the two-shape probe over response envelopes. A frame
//! either bears `"success":true` and a payload, or `"success":false` and an
//! ordered error list; anything else is a malformed frame.
use crate::atoms::{
    bytes_from_hex_region, bytes_of_hex, bytes_of_str, copy_region, hex_of_bytes, is_hex_b,
    lemma_bytes_of_hex_round, lemma_hex_of_bytes_props, lemma_scan_hex_in_bounds,
    lemma_scan_hex_region, lemma_scan_quote_in_bounds, lemma_scan_quote_region, lemma_sub_region,
    lit_at, match_lit, push_lit, scan_hex, scan_hex_x, scan_quote_x, scan_to_quote,
};
use crate::protocol::{
    resp_model, OkModelingResponse, OkResponseData, ProtocolError, RespDecode, RespModel,
};
use vstd::prelude::*;
use vstd::string::*;

verus! {

pub open spec fn succ_pre() -> Seq<u8> {
    bytes_of_str("{\"success\":true,\"resp\":{\"type\":\"")
}

pub open spec fn fail_pre() -> Seq<u8> {
    bytes_of_str("{\"success\":false,\"errors\":[")
}

pub open spec fn modeling_tag() -> Seq<u8> {
    bytes_of_str("modeling")
}

pub open spec fn modeling_mid() -> Seq<u8> {
    bytes_of_str("\",\"data\":{\"modeling_response\":{\"type\":\"")
}

pub open spec fn empty_tail() -> Seq<u8> {
    bytes_of_str("empty\"}}}}")
}

pub open spec fn snap_mid() -> Seq<u8> {
    bytes_of_str("take_snapshot\",\"data\":{\"contents\":\"")
}

pub open spec fn snap_tail() -> Seq<u8> {
    bytes_of_str("\"}}}}}")
}

pub open spec fn no_error_msg() -> Seq<u8> {
    bytes_of_str("no error given")
}

pub open spec fn quote_free(m: Seq<u8>) -> bool {
    forall|t: int| 0 <= t < m.len() ==> #[trigger] m[t] != 34u8
}

/// The error list from position `i`: a quoted message, then either a comma
/// and further messages, or the closing `]}` at the end of the frame.
pub open spec fn parse_errors_from(s: Seq<u8>, i: int) -> Option<Seq<Seq<u8>>>
    decreases s.len() - i,
        via parse_errors_dec
{
    if i < 0 || i + 2 > s.len() {
        None
    } else if s[i] != 34u8 {
        None
    } else {
        let q = scan_to_quote(s, i + 1);
        if q >= s.len() {
            None
        } else if q + 1 < s.len() && s[q + 1] == 44u8 {
            match parse_errors_from(s, q + 2) {
                Some(rest) => Some(seq![s.subrange(i + 1, q)] + rest),
                None => None,
            }
        } else if q + 3 == s.len() && s[q + 1] == 93u8 && s[q + 2] == 125u8 {
            Some(seq![s.subrange(i + 1, q)])
        } else {
            None
        }
    }
}

#[via_fn]
proof fn parse_errors_dec(s: Seq<u8>, i: int) {
    if !(i < 0 || i + 2 > s.len()) && s[i] == 34u8 {
        lemma_scan_quote_in_bounds(s, i + 1);
    }
}

/// What decoding one inbound text frame yields.
pub open spec fn spec_decode_response(s: Seq<u8>) -> RespDecode {
    if lit_at(s, 0, succ_pre()) {
        let i = succ_pre().len() as int;
        let q = scan_to_quote(s, i);
        if q >= s.len() {
            RespDecode::Malformed
        } else if s.subrange(i, q) == modeling_tag() {
            if lit_at(s, q, modeling_mid()) {
                let j = q + modeling_mid().len();
                if lit_at(s, j, empty_tail()) && j + empty_tail().len() == s.len() {
                    RespDecode::Payload(RespModel::Empty)
                } else if lit_at(s, j, snap_mid()) {
                    let a = j + snap_mid().len();
                    let b = scan_hex(s, a);
                    if (b - a) % 2 == 0 && lit_at(s, b, snap_tail()) && b + snap_tail().len()
                        == s.len() {
                        RespDecode::Payload(RespModel::Snapshot(bytes_of_hex(s.subrange(a, b))))
                    } else {
                        RespDecode::Malformed
                    }
                } else {
                    RespDecode::Malformed
                }
            } else {
                RespDecode::Malformed
            }
        } else {
            RespDecode::Payload(RespModel::Other)
        }
    } else if lit_at(s, 0, fail_pre()) {
        let i = fail_pre().len() as int;
        if lit_at(s, i, bytes_of_str("]}")) && i + bytes_of_str("]}").len() == s.len() {
            RespDecode::Remote(no_error_msg())
        } else {
            match parse_errors_from(s, i) {
                Some(msgs) => RespDecode::Remote(msgs.last()),
                None => RespDecode::Malformed,
            }
        }
    } else {
        RespDecode::Malformed
    }
}

proof fn lemma_parse_errors_nonempty(s: Seq<u8>, i: int)
    requires
        parse_errors_from(s, i) is Some,
    ensures
        parse_errors_from(s, i)->Some_0.len() >= 1,
{
}

/// The last message of the error list, parsed from position `i`.
fn parse_errors_x(s: &Vec<u8>, i: usize) -> (r: Option<Vec<u8>>)
    ensures
        match r {
            Some(m) => parse_errors_from(s@, i as int) matches Some(msgs) && m@ == msgs.last(),
            None => parse_errors_from(s@, i as int) is None,
        },
    decreases s@.len() - i,
{
    let sl: usize = s.len();
    if i >= sl || sl - i < 2 {
        return None;
    }
    if s[i] != 34 {
        return None;
    }
    let q = scan_quote_x(s, i + 1);
    if q == sl {
        return None;
    }
    if q + 1 < sl && s[q + 1] == 44 {
        let rest = parse_errors_x(s, q + 2);
        match rest {
            Some(m) => {
                proof {
                    lemma_parse_errors_nonempty(s@, q + 2);
                }
                return Some(m);
            },
            None => {
                return None;
            },
        }
    }
    if q + 1 < sl && sl - q == 3 && s[q + 1] == 93 && s[q + 2] == 125 {
        return Some(copy_region(s, i + 1, q));
    }
    None
}

/// Decode one inbound text frame: the success shape first, then the failure
/// shape; a remote failure carries the last reported message, and an empty
/// error list is reported as `no error given`.
#[verifier::rlimit(100)]
pub fn decode_response(s: &Vec<u8>) -> (r: Result<OkResponseData, ProtocolError>)
    ensures
        match r {
            Ok(d) => spec_decode_response(s@) == RespDecode::Payload(resp_model(&d)),
            Err(e) => match e {
                ProtocolError::RemoteError(m) => spec_decode_response(s@) == RespDecode::Remote(
                    m@,
                ),
                ProtocolError::MalformedFrame => spec_decode_response(s@) == RespDecode::Malformed,
                _ => false,
            },
        },
{
    proof {
        reveal_strlit("{\"success\":true,\"resp\":{\"type\":\"");
        reveal_strlit("{\"success\":false,\"errors\":[");
        reveal_strlit("modeling");
        reveal_strlit("\",\"data\":{\"modeling_response\":{\"type\":\"");
        reveal_strlit("empty\"}}}}");
        reveal_strlit("take_snapshot\",\"data\":{\"contents\":\"");
        reveal_strlit("\"}}}}}");
        reveal_strlit("]}");
        reveal_strlit("no error given");
    }
    if let Some(i) = match_lit(s, 0, "{\"success\":true,\"resp\":{\"type\":\"") {
        let q = scan_quote_x(s, i);
        if q == s.len() {
            return Err(ProtocolError::MalformedFrame);
        }
        let tag_is_modeling: bool = q == i + 8 && match_lit(s, i, "modeling").is_some();
        proof {
            if tag_is_modeling {
                assert(s@.subrange(i as int, q as int) =~= modeling_tag());
            } else {
                if q == i + 8 {
                    assert(s@.subrange(i as int, q as int) != modeling_tag());
                } else {
                    assert(s@.subrange(i as int, q as int).len() != modeling_tag().len());
                }
            }
        }
        if !tag_is_modeling {
            return Ok(OkResponseData::Other);
        }
        let j = match match_lit(s, q, "\",\"data\":{\"modeling_response\":{\"type\":\"") {
            Some(j) => j,
            None => {
                return Err(ProtocolError::MalformedFrame);
            },
        };
        if let Some(j2) = match_lit(s, j, "empty\"}}}}") {
            if j2 == s.len() {
                return Ok(
                    OkResponseData::Modeling { modeling_response: OkModelingResponse::Empty },
                );
            }
            proof {
                assert(s@[j as int] == empty_tail()[0]);
                if lit_at(s@, j as int, snap_mid()) {
                    assert(s@[j as int] == snap_mid()[0]);
                    assert(false);
                }
            }
            return Err(ProtocolError::MalformedFrame);
        }
        let a = match match_lit(s, j, "take_snapshot\",\"data\":{\"contents\":\"") {
            Some(a) => a,
            None => {
                return Err(ProtocolError::MalformedFrame);
            },
        };
        let b = scan_hex_x(s, a);
        if (b - a) % 2 != 0 {
            return Err(ProtocolError::MalformedFrame);
        }
        let e = match match_lit(s, b, "\"}}}}}") {
            Some(e) => e,
            None => {
                return Err(ProtocolError::MalformedFrame);
            },
        };
        if e != s.len() {
            return Err(ProtocolError::MalformedFrame);
        }
        proof {
            lemma_scan_hex_in_bounds(s@, a as int);
        }
        let data = bytes_from_hex_region(s, a, b);
        return Ok(
            OkResponseData::Modeling {
                modeling_response: OkModelingResponse::TakeSnapshot { data },
            },
        );
    }
    if let Some(i) = match_lit(s, 0, "{\"success\":false,\"errors\":[") {
        if let Some(j) = match_lit(s, i, "]}") {
            if j == s.len() {
                let mut msg: Vec<u8> = Vec::new();
                push_lit(&mut msg, "no error given");
                return Err(ProtocolError::RemoteError(msg));
            }
        }
        return match parse_errors_x(s, i) {
            Some(m) => Err(ProtocolError::RemoteError(m)),
            None => Err(ProtocolError::MalformedFrame),
        };
    }
    Err(ProtocolError::MalformedFrame)
}

/// A success envelope carrying an empty modeling acknowledgement.
pub open spec fn render_success_empty() -> Seq<u8> {
    succ_pre() + modeling_tag() + modeling_mid() + empty_tail()
}

/// A success envelope carrying a snapshot whose payload is `data`.
pub open spec fn render_snapshot(data: Seq<u8>) -> Seq<u8> {
    succ_pre() + modeling_tag() + modeling_mid() + snap_mid() + hex_of_bytes(data) + snap_tail()
}

/// The rendered error list: quoted messages separated by commas.
pub open spec fn errors_bytes(msgs: Seq<Seq<u8>>) -> Seq<u8>
    decreases msgs.len(),
{
    if msgs.len() == 0 {
        Seq::<u8>::empty()
    } else if msgs.len() == 1 {
        seq![34u8] + msgs[0] + seq![34u8]
    } else {
        seq![34u8] + msgs[0] + seq![34u8] + seq![44u8] + errors_bytes(msgs.drop_first())
    }
}

/// A failure envelope carrying the given error messages.
pub open spec fn render_failure(msgs: Seq<Seq<u8>>) -> Seq<u8> {
    fail_pre() + errors_bytes(msgs) + bytes_of_str("]}")
}

/// A frame that opens with the success prefix never decodes to a remote
/// error, whatever else it holds.
pub proof fn lemma_success_never_remote(s: Seq<u8>)
    requires
        lit_at(s, 0, succ_pre()),
    ensures
        !(spec_decode_response(s) is Remote),
{
}

proof fn lemma_fail_not_succ(s: Seq<u8>)
    requires
        lit_at(s, 0, fail_pre()),
    ensures
        !lit_at(s, 0, succ_pre()),
{
    reveal_strlit("{\"success\":true,\"resp\":{\"type\":\"");
    reveal_strlit("{\"success\":false,\"errors\":[");
    if lit_at(s, 0, succ_pre()) {
        assert(s.subrange(0, succ_pre().len() as int)[11] == s[11]);
        assert(s.subrange(0, fail_pre().len() as int)[11] == s[11]);
        assert(succ_pre()[11] != fail_pre()[11]);
        assert(false);
    }
}

/// An empty error list decodes to the fixed `no error given` message.
pub proof fn lemma_failure_empty_remote()
    ensures
        spec_decode_response(render_failure(Seq::<Seq<u8>>::empty())) == RespDecode::Remote(
            no_error_msg(),
        ),
{
    reveal_strlit("]}");
    let s = render_failure(Seq::<Seq<u8>>::empty());
    let fp = fail_pre();
    let cl = bytes_of_str("]}");
    assert(errors_bytes(Seq::<Seq<u8>>::empty()) =~= Seq::<u8>::empty());
    assert(s =~= fp + cl);
    assert(s.subrange(0, fp.len() as int) =~= fp);
    assert(lit_at(s, 0, fp));
    lemma_fail_not_succ(s);
    assert(s.subrange(fp.len() as int, fp.len() + cl.len() as int) =~= cl);
    assert(lit_at(s, fp.len() as int, cl));
}

proof fn lemma_parse_errors_round(s: Seq<u8>, i: int, msgs: Seq<Seq<u8>>)
    requires
        msgs.len() >= 1,
        forall|k: int| 0 <= k < msgs.len() ==> quote_free(#[trigger] msgs[k]),
        0 <= i,
        i + errors_bytes(msgs).len() + 2 == s.len(),
        s.subrange(i, i + errors_bytes(msgs).len()) == errors_bytes(msgs),
        s[s.len() - 2] == 93u8,
        s[s.len() - 1] == 125u8,
    ensures
        parse_errors_from(s, i) == Some(msgs),
    decreases msgs.len(),
{
    let eb = errors_bytes(msgs);
    let m0 = msgs[0];
    assert(forall|k: int| 0 <= k < eb.len() ==> s[i + k] == #[trigger] eb[k]) by {
        assert(forall|k: int| 0 <= k < eb.len() ==> s.subrange(i, i + eb.len())[k] == #[trigger] eb[k]);
    }
    if msgs.len() == 1 {
        assert(eb =~= seq![34u8] + m0 + seq![34u8]);
        assert(eb[0] == 34u8);
        assert(s[i + 0] == eb[0]);
        assert(s[i] == 34u8);
        assert forall|k: int| i + 1 <= k < i + 1 + m0.len() implies #[trigger] s[k] != 34u8 by {
            assert(s[k] == eb[k - i]);
            assert(eb[k - i] == m0[k - i - 1]);
            assert(quote_free(m0));
        }
        assert(s[i + 1 + m0.len() as int] == eb[1 + m0.len() as int]);
        assert(eb[1 + m0.len() as int] == 34u8);
        lemma_scan_quote_region(s, i + 1, i + 1 + m0.len());
        let q = i + 1 + m0.len();
        assert(q + 3 == s.len());
        assert(s[q + 1] == 93u8);
        assert(s[q + 2] == 125u8);
        assert forall|t: int| 0 <= t < m0.len() implies s.subrange(i + 1, q)[t] == #[trigger] m0[t] by {
            assert(s[i + 1 + t] == eb[1 + t]);
            assert(eb[1 + t] == m0[t]);
        }
        assert(s.subrange(i + 1, q) =~= m0);
        assert(parse_errors_from(s, i) == Some(seq![s.subrange(i + 1, q)]));
        assert(seq![s.subrange(i + 1, q)] =~~= msgs);
    } else {
        let rest = msgs.drop_first();
        let ebr = errors_bytes(rest);
        assert(eb =~= seq![34u8] + m0 + seq![34u8] + seq![44u8] + ebr);
        assert(eb[0] == 34u8);
        assert(s[i + 0] == eb[0]);
        assert(s[i] == 34u8);
        assert forall|k: int| i + 1 <= k < i + 1 + m0.len() implies #[trigger] s[k] != 34u8 by {
            assert(s[k] == eb[k - i]);
            assert(eb[k - i] == m0[k - i - 1]);
            assert(quote_free(m0));
        }
        let q = i + 1 + m0.len();
        assert(s[q] == eb[q - i]);
        assert(eb[q - i] == 34u8);
        lemma_scan_quote_region(s, i + 1, q);
        assert(s[q + 1] == eb[q + 1 - i]);
        assert(eb[q + 1 - i] == 44u8);
        assert(q + 1 < s.len());
        assert(eb.subrange(q + 2 - i, q + 2 - i + ebr.len()) =~= ebr);
        lemma_sub_region(s, i, eb, q + 2 - i, ebr);
        assert(forall|k: int| 0 <= k < rest.len() ==> quote_free(#[trigger] rest[k])) by {
            assert(forall|k: int| 0 <= k < rest.len() ==> rest[k] == msgs[k + 1]);
        }
        lemma_parse_errors_round(s, q + 2, rest);
        assert forall|t: int| 0 <= t < m0.len() implies s.subrange(i + 1, q)[t] == #[trigger] m0[t] by {
            assert(s[i + 1 + t] == eb[1 + t]);
            assert(eb[1 + t] == m0[t]);
        }
        assert(s.subrange(i + 1, q) =~= m0);
        assert(parse_errors_from(s, i) == Some(seq![s.subrange(i + 1, q)] + rest));
        assert(seq![s.subrange(i + 1, q)] + rest =~~= msgs);
    }
}

/// A failure envelope with a non-empty error list decodes to a remote error
/// carrying exactly the last message.
pub proof fn lemma_failure_remote_last(msgs: Seq<Seq<u8>>)
    requires
        msgs.len() >= 1,
        forall|k: int| 0 <= k < msgs.len() ==> quote_free(#[trigger] msgs[k]),
    ensures
        spec_decode_response(render_failure(msgs)) == RespDecode::Remote(msgs.last()),
{
    reveal_strlit("]}");
    let s = render_failure(msgs);
    let fp = fail_pre();
    let eb = errors_bytes(msgs);
    let cl = bytes_of_str("]}");
    let i = fp.len() as int;
    assert(s.subrange(0, i) =~= fp);
    assert(lit_at(s, 0, fp));
    lemma_fail_not_succ(s);
    assert(eb.len() >= 1);
    assert(eb[0] == 34u8) by {
        if msgs.len() == 1 {
            assert(eb == seq![34u8] + msgs[0] + seq![34u8]);
        } else {
            assert(eb == seq![34u8] + msgs[0] + seq![34u8] + seq![44u8] + errors_bytes(
                msgs.drop_first(),
            ));
        }
    }
    assert(s[i] == eb[0]);
    if lit_at(s, i, cl) {
        assert(s.subrange(i, i + cl.len())[0] == s[i]);
        assert(cl[0] == 93u8);
        assert(false);
    }
    assert(s.subrange(i, i + eb.len()) =~= eb);
    assert(s[s.len() - 2] == cl[0]);
    assert(s[s.len() - 1] == cl[1]);
    assert(cl[0] == 93u8 && cl[1] == 125u8);
    lemma_parse_errors_round(s, i, msgs);
}

/// A rendered empty acknowledgement decodes to the empty payload.
pub proof fn lemma_decode_render_empty()
    ensures
        spec_decode_response(render_success_empty()) == RespDecode::Payload(RespModel::Empty),
{
    reveal_strlit("{\"success\":true,\"resp\":{\"type\":\"");
    reveal_strlit("modeling");
    reveal_strlit("\",\"data\":{\"modeling_response\":{\"type\":\"");
    reveal_strlit("empty\"}}}}");
    let s = render_success_empty();
    let sp = succ_pre();
    let tg = modeling_tag();
    let md = modeling_mid();
    let et = empty_tail();
    let i = sp.len() as int;
    let q = i + tg.len();
    let j = q + md.len();
    assert(s.len() == j + et.len());
    assert(s.subrange(0, i) =~= sp);
    assert(lit_at(s, 0, sp));
    assert forall|k: int| i <= k < q implies #[trigger] s[k] != 34u8 by {
        assert(s[k] == tg[k - i]);
    }
    assert(s[q] == md[0]);
    assert(md[0] == 34u8);
    lemma_scan_quote_region(s, i, q);
    assert(s.subrange(i, q) =~= tg);
    assert(s.subrange(q, j) =~= md);
    assert(lit_at(s, q, md));
    assert(s.subrange(j, j + et.len()) =~= et);
    assert(lit_at(s, j, et));
}

/// A rendered snapshot decodes to a snapshot payload carrying the same bytes.
pub proof fn lemma_decode_render_snapshot(data: Seq<u8>)
    ensures
        spec_decode_response(render_snapshot(data)) == RespDecode::Payload(
            RespModel::Snapshot(data),
        ),
{
    reveal_strlit("{\"success\":true,\"resp\":{\"type\":\"");
    reveal_strlit("modeling");
    reveal_strlit("\",\"data\":{\"modeling_response\":{\"type\":\"");
    reveal_strlit("empty\"}}}}");
    reveal_strlit("take_snapshot\",\"data\":{\"contents\":\"");
    reveal_strlit("\"}}}}}");
    let s = render_snapshot(data);
    let sp = succ_pre();
    let tg = modeling_tag();
    let md = modeling_mid();
    let sm = snap_mid();
    let hx = hex_of_bytes(data);
    let st = snap_tail();
    lemma_hex_of_bytes_props(data);
    let i = sp.len() as int;
    let q = i + tg.len();
    let j = q + md.len();
    let a = j + sm.len();
    let b = a + hx.len();
    assert(s.len() == b + st.len());
    assert(s.subrange(0, i) =~= sp);
    assert(lit_at(s, 0, sp));
    assert forall|k: int| i <= k < q implies #[trigger] s[k] != 34u8 by {
        assert(s[k] == tg[k - i]);
    }
    assert(s[q] == md[0]);
    assert(md[0] == 34u8);
    lemma_scan_quote_region(s, i, q);
    assert(s.subrange(i, q) =~= tg);
    assert(s.subrange(q, j) =~= md);
    assert(lit_at(s, q, md));
    assert(s.subrange(j, j + sm.len()) =~= sm);
    assert(lit_at(s, j, sm));
    assert(s[j] == sm[0]);
    if lit_at(s, j, empty_tail()) {
        assert(s.subrange(j, j + empty_tail().len())[0] == s[j]);
        assert(empty_tail()[0] != sm[0]);
        assert(false);
    }
    assert forall|k: int| a <= k < b implies is_hex_b(#[trigger] s[k]) by {
        assert(s[k] == hx[k - a]);
    }
    assert(s[b] == st[0]);
    assert(st[0] == 34u8);
    assert(!is_hex_b(34u8));
    lemma_scan_hex_region(s, a, b);
    assert((b - a) % 2 == 0);
    assert(s.subrange(b, b + st.len()) =~= st);
    assert(lit_at(s, b, st));
    assert(s.subrange(a, b) =~= hx);
    lemma_bytes_of_hex_round(data);
}

} // verus!
