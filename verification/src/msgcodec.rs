//! The wire codec for requests and responses: canonical JSON with keys in
//! sorted order, UUIDs in hyphenated hexadecimal, timestamps in RFC 3339,
//! confidences as fixed-point decimals.

use vstd::prelude::*;

use crate::hex::{hex_digit_char, push_hex_digit};
use crate::json::{json_view_obj, JsonV, JsonValue};
use crate::jsonser::{push_json, ser_json};
use crate::message::{
    spec_action_str, spec_auth_method_str, spec_context_type_str, Action, ActionMetadata,
    Alternative, AlternativeV, Constraints, Context, Interpretation, Request, RequestV, Responder,
    Response, ResponseV, Sender,
};
use crate::time::{format_rfc3339_millis, rfc3339_of, valid_timestamp};

verus! {

/// The hexadecimal rendering of `n`, zero padded to `width` digits.
pub open spec fn hex_pad(n: int, width: int) -> Seq<char>
    decreases width,
{
    if width <= 1 {
        seq![hex_digit_char(n % 16)]
    } else {
        hex_pad(n / 16, width - 1) + seq![hex_digit_char(n % 16)]
    }
}

/// The hyphenated rendering of a UUID value: 8-4-4-4-12 lowercase
/// hexadecimal digits.
pub open spec fn uuid_str(u: u128) -> Seq<char> {
    let h = hex_pad(u as int, 32);
    h.subrange(0, 8) + seq!['-'] + h.subrange(8, 12) + seq!['-'] + h.subrange(12, 16) + seq!['-']
        + h.subrange(16, 20) + seq!['-'] + h.subrange(20, 32)
}

/// Append the hexadecimal rendering of `n`, zero padded to `width` digits.
fn push_hex_pad(out: &mut String, n: u128, width: u8)
    requires
        width >= 1,
    ensures
        final(out)@ == old(out)@ + hex_pad(n as int, width as int),
    decreases width,
{
    if width <= 1 {
        push_hex_digit(out, (n % 16) as u8);
    } else {
        push_hex_pad(out, n / 16, width - 1);
        push_hex_digit(out, (n % 16) as u8);
    }
}

/// Render a UUID value in hyphenated hexadecimal.
pub fn format_uuid(u: u128) -> (r: String)
    ensures
        r@ == uuid_str(u),
{
    let mut full = String::new();
    push_hex_pad(&mut full, u, 32);
    let full_str = full.as_str();
    proof {
        lemma_hex_pad_len(u as int, 32);
        reveal_strlit("-");
    }
    let mut out = String::new();
    out.append(full_str.substring_char(0, 8));
    out.append("-");
    out.append(full_str.substring_char(8, 12));
    out.append("-");
    out.append(full_str.substring_char(12, 16));
    out.append("-");
    out.append(full_str.substring_char(16, 20));
    out.append("-");
    out.append(full_str.substring_char(20, 32));
    proof {
        assert(out@ =~= uuid_str(u));
    }
    out
}

/// `hex_pad` produces exactly `width` characters.
pub proof fn lemma_hex_pad_len(n: int, width: int)
    requires
        width >= 1,
    ensures
        hex_pad(n, width).len() == width,
    decreases width,
{
    if width > 1 {
        lemma_hex_pad_len(n / 16, width - 1);
    }
}

/// A singleton object member list.
pub open spec fn member(key: Seq<char>, v: JsonV) -> Seq<(Seq<char>, JsonV)> {
    seq![(key, v)]
}

/// The JSON model of a request, keys in sorted order; `signature`,
/// `constraints` and `in_response_to` appear only when present.  The
/// `signature_included` flag leaves the signature out, which is the form
/// signatures are computed over.
pub open spec fn req_jsonv(r: RequestV, signature_included: bool) -> JsonV {
    JsonV::Obj(
        member("confidence"@, JsonV::Num(r.confidence as i64)) + (match r.constraints {
            Some(c) => member("constraints"@, constraints_jsonv(c)),
            None => Seq::empty(),
        }) + member("context"@, context_jsonv(r.context)) + member(
            "conversation_id"@,
            JsonV::Str(uuid_str(r.conversation_id)),
        ) + (match r.in_response_to {
            Some(m) => member("in_response_to"@, JsonV::Str(uuid_str(m))),
            None => Seq::empty(),
        }) + member("intent"@, JsonV::Str(r.intent)) + member(
            "message_id"@,
            JsonV::Str(uuid_str(r.message_id)),
        ) + member("protocol_version"@, JsonV::Str(r.protocol_version)) + member(
            "sender"@,
            sender_jsonv(r.sender),
        ) + (if signature_included {
            match r.signature {
                Some(sig) => member("signature"@, JsonV::Str(sig)),
                None => Seq::empty(),
            }
        } else {
            Seq::empty()
        }) + member("timestamp"@, JsonV::Str(rfc3339_of(r.timestamp))),
    )
}

/// The JSON model of a sender.
pub open spec fn sender_jsonv(s: crate::message::SenderV) -> JsonV {
    JsonV::Obj(
        member("auth_method"@, JsonV::Str(spec_auth_method_str(s.auth_method))) + member(
            "id"@,
            JsonV::Str(s.id),
        ),
    )
}

/// The JSON model of a context.
pub open spec fn context_jsonv(c: crate::message::ContextV) -> JsonV {
    JsonV::Obj(
        member("content"@, JsonV::Str(c.content)) + member(
            "semantic_hash"@,
            JsonV::Str(c.semantic_hash),
        ) + member("type"@, JsonV::Str(spec_context_type_str(c.context_type))),
    )
}

/// The JSON model of constraints; absent fields are omitted.
pub open spec fn constraints_jsonv(c: crate::message::ConstraintsV) -> JsonV {
    JsonV::Obj(
        (match c.max_cost {
            Some(mc) => member("max_cost"@, JsonV::Num(mc as i64)),
            None => Seq::empty(),
        }) + (match c.privacy {
            Some(p) => member("privacy"@, JsonV::Str(p)),
            None => Seq::empty(),
        }) + (match c.timeout_ms {
            Some(t) => member("timeout_ms"@, JsonV::Num((t * 1_000_000) as i64)),
            None => Seq::empty(),
        }),
    )
}


/// The JSON models of a list of strings.
pub open spec fn strs_jsonv(qs: Seq<Seq<char>>) -> Seq<JsonV> {
    qs.map_values(|q: Seq<char>| JsonV::Str(q))
}

/// The JSON model of action metadata; absent fields are omitted.
pub open spec fn metadata_jsonv(m: crate::message::ActionMetadataV) -> JsonV {
    JsonV::Obj(
        (match m.questions {
            Some(qs) => member("questions"@, JsonV::Arr(strs_jsonv(qs))),
            None => Seq::empty(),
        }) + (match m.reason {
            Some(t) => member("reason"@, JsonV::Str(t)),
            None => Seq::empty(),
        }) + (match m.reason_code {
            Some(c) => member("reason_code"@, JsonV::Str(crate::error::spec_refusal_code_str(c))),
            None => Seq::empty(),
        }) + (match m.result {
            Some(v) => member("result"@, v),
            None => Seq::empty(),
        }),
    )
}

/// The JSON model of one alternative.
pub open spec fn alternative_jsonv(a: AlternativeV) -> JsonV {
    JsonV::Obj(
        member("capability_id"@, JsonV::Str(a.capability_id)) + member(
            "confidence"@,
            JsonV::Num(a.confidence as i64),
        ) + (match a.estimated_cost {
            Some(c) => member("estimated_cost"@, JsonV::Num(c as i64)),
            None => Seq::empty(),
        }) + member("interpretation"@, JsonV::Str(a.interpretation)),
    )
}

/// The JSON model of an interpretation.
pub open spec fn interp_jsonv(i: crate::message::InterpretationV) -> JsonV {
    JsonV::Obj(
        member("confidence"@, JsonV::Num(i.confidence as i64)) + member(
            "text"@,
            JsonV::Str(i.text),
        ),
    )
}

/// The JSON model of a responder.
pub open spec fn responder_jsonv(r: crate::message::ResponderV) -> JsonV {
    JsonV::Obj(
        member("capabilities"@, JsonV::Arr(strs_jsonv(r.capabilities))) + member(
            "id"@,
            JsonV::Str(r.id),
        ),
    )
}

/// The JSON model of a response, keys in sorted order; `action_metadata`
/// and `alternatives` appear only when present.
pub open spec fn resp_jsonv(r: ResponseV) -> JsonV {
    JsonV::Obj(
        member("action"@, JsonV::Str(spec_action_str(r.action))) + (match r.action_metadata {
            Some(m) => member("action_metadata"@, metadata_jsonv(m)),
            None => Seq::empty(),
        }) + (match r.alternatives {
            Some(alts) => member(
                "alternatives"@,
                JsonV::Arr(alts.map_values(|a: AlternativeV| alternative_jsonv(a))),
            ),
            None => Seq::empty(),
        }) + member("confidence"@, JsonV::Num(r.confidence as i64)) + member(
            "conversation_id"@,
            JsonV::Str(uuid_str(r.conversation_id)),
        ) + member("in_response_to"@, JsonV::Str(uuid_str(r.in_response_to))) + member(
            "interpretation"@,
            interp_jsonv(r.interpretation),
        ) + member("message_id"@, JsonV::Str(uuid_str(r.message_id))) + member(
            "responder"@,
            responder_jsonv(r.responder),
        ) + member("timestamp"@, JsonV::Str(rfc3339_of(r.timestamp))),
    )
}

/// A request the codec can put on the wire: well-formed, with constraint
/// values inside the fixed-point range.
pub open spec fn serializable_request(r: RequestV) -> bool {
    &&& r.confidence <= crate::confidence::SCALE
    &&& valid_timestamp(r.timestamp)
    &&& (r.constraints matches Some(c) ==> ((c.max_cost matches Some(mc)
        ==> mc <= 0x7fff_ffff_ffff_ffffu64) && (c.timeout_ms matches Some(t) ==> t
        <= 9_223_372_036_854u64)))
}

/// A response the codec can put on the wire: well-formed, with costs inside
/// the fixed-point range.
pub open spec fn serializable_response(r: ResponseV) -> bool {
    &&& r.confidence <= crate::confidence::SCALE
    &&& r.interpretation.confidence <= crate::confidence::SCALE
    &&& valid_timestamp(r.timestamp)
    &&& (r.alternatives matches Some(alts) ==> forall|i: int|
        0 <= i < alts.len() ==> (#[trigger] alts[i]).confidence <= crate::confidence::SCALE && (
        alts[i].estimated_cost matches Some(c) ==> c <= 0x7fff_ffff_ffff_ffffu64))
}

/// Append a member to an object under construction.
fn obj_push(pairs: &mut Vec<(String, JsonValue)>, key: &str, v: JsonValue)
    ensures
        json_view_obj(final(pairs)@, 0) == json_view_obj(old(pairs)@, 0).push((key@, v@)),
{
    let ghost before = pairs@;
    let keystring = String::from_str(key);
    pairs.push((keystring, v));
    proof {
        crate::json::lemma_json_view_obj_push(before, keystring, v);
    }
}

/// A JSON array of strings.
fn strs_to_json(items: &Vec<String>) -> (r: JsonValue)
    ensures
        r@ == JsonV::Arr(strs_jsonv(items.deep_view())),
{
    let mut out: Vec<JsonValue> = Vec::new();
    let mut i: usize = 0;
    while i < items.len()
        invariant
            0 <= i <= items@.len(),
            out@.len() == i,
            forall|j: int| 0 <= j < i ==> (#[trigger] out@[j])@ == JsonV::Str(items@[j]@),
        decreases items@.len() - i,
    {
        out.push(JsonValue::Str(items[i].clone()));
        i += 1;
    }
    proof {
        crate::json::lemma_json_view_arr_len(out@, 0);
        assert forall|k: int| 0 <= k < out@.len() implies crate::json::json_view_arr(out@, 0)[k]
            == strs_jsonv(items.deep_view())[k] by {
            crate::json::lemma_json_view_arr_index(out@, 0, k);
        }
        assert(crate::json::json_view_arr(out@, 0) =~= strs_jsonv(items.deep_view()));
    }
    JsonValue::Arr(out)
}

/// The JSON document of a sender.
fn sender_to_json(s: &Sender) -> (r: JsonValue)
    ensures
        r@ == sender_jsonv(s@),
{
    let method: &str = match s.auth_method {
        crate::message::AuthMethod::Token => "token",
        crate::message::AuthMethod::Certificate => "certificate",
        crate::message::AuthMethod::ApiKey => "api_key",
        crate::message::AuthMethod::NoAuth => "none",
    };
    let mut pairs: Vec<(String, JsonValue)> = Vec::new();
    proof {
        assert(json_view_obj(pairs@, 0) =~= Seq::<(Seq<char>, JsonV)>::empty());
    }
    obj_push(&mut pairs, "auth_method", JsonValue::Str(String::from_str(method)));
    obj_push(&mut pairs, "id", JsonValue::Str(s.id.clone()));
    proof {
        assert(json_view_obj(pairs@, 0) =~= member(
            "auth_method"@,
            JsonV::Str(spec_auth_method_str(s@.auth_method)),
        ) + member("id"@, JsonV::Str(s@.id)));
    }
    JsonValue::Obj(pairs)
}

/// The JSON document of a context.
fn context_to_json(c: &Context) -> (r: JsonValue)
    ensures
        r@ == context_jsonv(c@),
{
    let kind: &str = match c.context_type {
        crate::message::ContextType::Transcript => "transcript",
        crate::message::ContextType::Summary => "summary",
        crate::message::ContextType::Structured => "structured",
    };
    let mut pairs: Vec<(String, JsonValue)> = Vec::new();
    proof {
        assert(json_view_obj(pairs@, 0) =~= Seq::<(Seq<char>, JsonV)>::empty());
    }
    obj_push(&mut pairs, "content", JsonValue::Str(c.content.clone()));
    obj_push(&mut pairs, "semantic_hash", JsonValue::Str(c.semantic_hash.clone()));
    obj_push(&mut pairs, "type", JsonValue::Str(String::from_str(kind)));
    proof {
        assert(json_view_obj(pairs@, 0) =~= member("content"@, JsonV::Str(c@.content)) + member(
            "semantic_hash"@,
            JsonV::Str(c@.semantic_hash),
        ) + member("type"@, JsonV::Str(spec_context_type_str(c@.context_type))));
    }
    JsonValue::Obj(pairs)
}

/// The JSON document of constraints.
fn constraints_to_json(c: &Constraints) -> (r: JsonValue)
    requires
        c.max_cost matches Some(mc) ==> mc <= 0x7fff_ffff_ffff_ffffu64,
        c.timeout_ms matches Some(t) ==> t <= 9_223_372_036_854u64,
    ensures
        r@ == constraints_jsonv(c@),
{
    let mut pairs: Vec<(String, JsonValue)> = Vec::new();
    proof {
        assert(json_view_obj(pairs@, 0) =~= Seq::<(Seq<char>, JsonV)>::empty());
    }
    match &c.max_cost {
        Some(mc) => {
            obj_push(&mut pairs, "max_cost", JsonValue::Num(*mc as i64));
        },
        None => {},
    }
    match &c.privacy {
        Some(p) => {
            obj_push(&mut pairs, "privacy", JsonValue::Str(p.clone()));
        },
        None => {},
    }
    match &c.timeout_ms {
        Some(t) => {
            obj_push(&mut pairs, "timeout_ms", JsonValue::Num((*t * 1_000_000) as i64));
        },
        None => {},
    }
    proof {
        assert(json_view_obj(pairs@, 0) =~= (match c@.max_cost {
            Some(mc) => member("max_cost"@, JsonV::Num(mc as i64)),
            None => Seq::empty(),
        }) + (match c@.privacy {
            Some(p) => member("privacy"@, JsonV::Str(p)),
            None => Seq::empty(),
        }) + (match c@.timeout_ms {
            Some(t) => member("timeout_ms"@, JsonV::Num((t * 1_000_000) as i64)),
            None => Seq::empty(),
        }));
    }
    JsonValue::Obj(pairs)
}

/// The JSON document of a request; `include_signature` leaves the
/// signature out, which is the form signatures are computed over.
#[verifier::rlimit(100)]
pub fn request_to_json(req: &Request, include_signature: bool) -> (r: JsonValue)
    requires
        serializable_request(req@),
    ensures
        r@ == req_jsonv(req@, include_signature),
{
    let mut pairs: Vec<(String, JsonValue)> = Vec::new();
    proof {
        assert(json_view_obj(pairs@, 0) =~= Seq::<(Seq<char>, JsonV)>::empty());
    }
    obj_push(&mut pairs, "confidence", JsonValue::Num(req.confidence as i64));
    match &req.constraints {
        Some(c) => {
            let cj = constraints_to_json(c);
            obj_push(&mut pairs, "constraints", cj);
        },
        None => {},
    }
    let ctx = context_to_json(&req.context);
    obj_push(&mut pairs, "context", ctx);
    obj_push(&mut pairs, "conversation_id", JsonValue::Str(format_uuid(req.conversation_id)));
    match &req.in_response_to {
        Some(m) => {
            obj_push(&mut pairs, "in_response_to", JsonValue::Str(format_uuid(*m)));
        },
        None => {},
    }
    obj_push(&mut pairs, "intent", JsonValue::Str(req.intent.clone()));
    obj_push(&mut pairs, "message_id", JsonValue::Str(format_uuid(req.message_id)));
    obj_push(&mut pairs, "protocol_version", JsonValue::Str(req.protocol_version.clone()));
    let snd = sender_to_json(&req.sender);
    obj_push(&mut pairs, "sender", snd);
    if include_signature {
        match &req.signature {
            Some(sig) => {
                obj_push(&mut pairs, "signature", JsonValue::Str(sig.clone()));
            },
            None => {},
        }
    }
    obj_push(&mut pairs, "timestamp", JsonValue::Str(format_rfc3339_millis(req.timestamp)));
    proof {
        assert(req_jsonv(req@, include_signature) matches JsonV::Obj(ms) && json_view_obj(
            pairs@,
            0,
        ) =~= ms);
    }
    JsonValue::Obj(pairs)
}

/// The JSON document of action metadata.
fn metadata_to_json(m: &ActionMetadata) -> (r: JsonValue)
    ensures
        r@ == metadata_jsonv(m@),
{
    let mut pairs: Vec<(String, JsonValue)> = Vec::new();
    proof {
        assert(json_view_obj(pairs@, 0) =~= Seq::<(Seq<char>, JsonV)>::empty());
    }
    match &m.questions {
        Some(qs) => {
            let arr = strs_to_json(qs);
            obj_push(&mut pairs, "questions", arr);
        },
        None => {},
    }
    match &m.reason {
        Some(t) => {
            obj_push(&mut pairs, "reason", JsonValue::Str(t.clone()));
        },
        None => {},
    }
    match &m.reason_code {
        Some(c) => {
            obj_push(&mut pairs, "reason_code", JsonValue::Str(c.code_str()));
        },
        None => {},
    }
    match &m.result {
        Some(v) => {
            let copy = v.clone();
            obj_push(&mut pairs, "result", copy);
        },
        None => {},
    }
    proof {
        assert(metadata_jsonv(m@) matches JsonV::Obj(ms) && json_view_obj(pairs@, 0) =~= ms);
    }
    JsonValue::Obj(pairs)
}

/// The JSON document of one alternative.
fn alternative_to_json(a: &Alternative) -> (r: JsonValue)
    requires
        a.confidence <= crate::confidence::SCALE,
        a.estimated_cost matches Some(c) ==> c <= 0x7fff_ffff_ffff_ffffu64,
    ensures
        r@ == alternative_jsonv(a@),
{
    let mut pairs: Vec<(String, JsonValue)> = Vec::new();
    proof {
        assert(json_view_obj(pairs@, 0) =~= Seq::<(Seq<char>, JsonV)>::empty());
    }
    obj_push(&mut pairs, "capability_id", JsonValue::Str(a.capability_id.clone()));
    obj_push(&mut pairs, "confidence", JsonValue::Num(a.confidence as i64));
    match &a.estimated_cost {
        Some(c) => {
            obj_push(&mut pairs, "estimated_cost", JsonValue::Num(*c as i64));
        },
        None => {},
    }
    obj_push(&mut pairs, "interpretation", JsonValue::Str(a.interpretation.clone()));
    proof {
        assert(alternative_jsonv(a@) matches JsonV::Obj(ms) && json_view_obj(pairs@, 0) =~= ms);
    }
    JsonValue::Obj(pairs)
}

/// The JSON document of a response.
#[verifier::rlimit(100)]
pub fn response_to_json(resp: &Response) -> (r: JsonValue)
    requires
        serializable_response(resp@),
    ensures
        r@ == resp_jsonv(resp@),
{
    let mut pairs: Vec<(String, JsonValue)> = Vec::new();
    proof {
        assert(json_view_obj(pairs@, 0) =~= Seq::<(Seq<char>, JsonV)>::empty());
    }
    obj_push(&mut pairs, "action", JsonValue::Str(resp.action.action_str()));
    match &resp.action_metadata {
        Some(m) => {
            let mj = metadata_to_json(m);
            obj_push(&mut pairs, "action_metadata", mj);
        },
        None => {},
    }
    match &resp.alternatives {
        Some(alts) => {
            proof {
                assert forall|j: int| 0 <= j < alts@.len() implies (#[trigger] alts@[j]).confidence
                    <= crate::confidence::SCALE && (alts@[j].estimated_cost matches Some(c) ==> c
                    <= 0x7fff_ffff_ffff_ffffu64) by {
                    assert(crate::message::alternatives_view(alts@)[j] == alts@[j]@);
                }
            }
            let mut arr: Vec<JsonValue> = Vec::new();
            let mut i: usize = 0;
            while i < alts.len()
                invariant
                    0 <= i <= alts@.len(),
                    arr@.len() == i,
                    forall|j: int|
                        0 <= j < alts@.len() ==> (#[trigger] alts@[j]).confidence
                            <= crate::confidence::SCALE && (alts@[j].estimated_cost matches Some(c)
                            ==> c <= 0x7fff_ffff_ffff_ffffu64),
                    forall|j: int|
                        0 <= j < i ==> (#[trigger] arr@[j])@ == alternative_jsonv(alts@[j]@),
                decreases alts@.len() - i,
            {
                let aj = alternative_to_json(&alts[i]);
                arr.push(aj);
                i += 1;
            }
            proof {
                crate::json::lemma_json_view_arr_len(arr@, 0);
                assert forall|k: int| 0 <= k < arr@.len() implies crate::json::json_view_arr(
                    arr@,
                    0,
                )[k] == crate::message::alternatives_view(alts@).map_values(
                    |a: AlternativeV| alternative_jsonv(a),
                )[k] by {
                    crate::json::lemma_json_view_arr_index(arr@, 0, k);
                }
                assert(crate::json::json_view_arr(arr@, 0)
                    =~= crate::message::alternatives_view(alts@).map_values(
                    |a: AlternativeV| alternative_jsonv(a),
                ));
            }
            obj_push(&mut pairs, "alternatives", JsonValue::Arr(arr));
        },
        None => {},
    }
    obj_push(&mut pairs, "confidence", JsonValue::Num(resp.confidence as i64));
    obj_push(&mut pairs, "conversation_id", JsonValue::Str(format_uuid(resp.conversation_id)));
    obj_push(&mut pairs, "in_response_to", JsonValue::Str(format_uuid(resp.in_response_to)));
    let mut ipairs: Vec<(String, JsonValue)> = Vec::new();
    proof {
        assert(json_view_obj(ipairs@, 0) =~= Seq::<(Seq<char>, JsonV)>::empty());
    }
    obj_push(&mut ipairs, "confidence", JsonValue::Num(resp.interpretation.confidence as i64));
    obj_push(&mut ipairs, "text", JsonValue::Str(resp.interpretation.text.clone()));
    proof {
        assert(interp_jsonv(resp@.interpretation) matches JsonV::Obj(ms) && json_view_obj(
            ipairs@,
            0,
        ) =~= ms);
    }
    obj_push(&mut pairs, "interpretation", JsonValue::Obj(ipairs));
    obj_push(&mut pairs, "message_id", JsonValue::Str(format_uuid(resp.message_id)));
    let mut rpairs: Vec<(String, JsonValue)> = Vec::new();
    proof {
        assert(json_view_obj(rpairs@, 0) =~= Seq::<(Seq<char>, JsonV)>::empty());
    }
    let caps_arr = strs_to_json(&resp.responder.capabilities);
    obj_push(&mut rpairs, "capabilities", caps_arr);
    obj_push(&mut rpairs, "id", JsonValue::Str(resp.responder.id.clone()));
    proof {
        assert(responder_jsonv(resp@.responder) matches JsonV::Obj(ms) && json_view_obj(
            rpairs@,
            0,
        ) =~= ms);
    }
    obj_push(&mut pairs, "responder", JsonValue::Obj(rpairs));
    obj_push(&mut pairs, "timestamp", JsonValue::Str(format_rfc3339_millis(resp.timestamp)));
    proof {
        assert(resp_jsonv(resp@) matches JsonV::Obj(ms) && json_view_obj(pairs@, 0) =~= ms);
    }
    JsonValue::Obj(pairs)
}

/// Serialize a request to its canonical wire text, signature included.
pub fn serialize_request(req: &Request) -> (r: String)
    requires
        serializable_request(req@),
    ensures
        r@ == ser_json(req_jsonv(req@, true)),
{
    let doc = request_to_json(req, true);
    let mut out = String::new();
    push_json(&mut out, &doc);
    proof {
        assert(out@ =~= ser_json(req_jsonv(req@, true)));
    }
    out
}

/// The canonical text a request signature is computed over: the request
/// with the signature field removed.
pub fn request_signing_text(req: &Request) -> (r: String)
    requires
        serializable_request(req@),
    ensures
        r@ == ser_json(req_jsonv(req@, false)),
{
    let doc = request_to_json(req, false);
    let mut out = String::new();
    push_json(&mut out, &doc);
    proof {
        assert(out@ =~= ser_json(req_jsonv(req@, false)));
    }
    out
}

/// Serialize a response to its canonical wire text.
pub fn serialize_response(resp: &Response) -> (r: String)
    requires
        serializable_response(resp@),
    ensures
        r@ == ser_json(resp_jsonv(resp@)),
{
    let doc = response_to_json(resp);
    let mut out = String::new();
    push_json(&mut out, &doc);
    proof {
        assert(out@ =~= ser_json(resp_jsonv(resp@)));
    }
    out
}


/// The value of the first member with the given key, if any.
pub open spec fn obj_lookup(ms: Seq<(Seq<char>, JsonV)>, key: Seq<char>) -> Option<JsonV>
    decreases ms.len(),
{
    if ms.len() == 0 {
        None
    } else if ms[0].0 == key {
        Some(ms[0].1)
    } else {
        obj_lookup(ms.drop_first(), key)
    }
}

/// Looking up a key beyond a mismatching prefix skips the prefix.
proof fn lemma_obj_lookup_skip(ms: Seq<(Seq<char>, JsonV)>, key: Seq<char>, i: int)
    requires
        0 <= i < ms.len(),
        ms.skip(i)[0].0 != key,
    ensures
        obj_lookup(ms.skip(i), key) == obj_lookup(ms.skip(i + 1), key),
{
    assert(ms.skip(i).drop_first() =~= ms.skip(i + 1));
}

/// A key that sits at position `j`, with no earlier occurrence, is what
/// the lookup finds.
pub proof fn lemma_obj_lookup_at(ms: Seq<(Seq<char>, JsonV)>, key: Seq<char>, j: int)
    requires
        0 <= j < ms.len(),
        ms[j].0 == key,
        forall|i: int| 0 <= i < j ==> (#[trigger] ms[i]).0 != key,
    ensures
        obj_lookup(ms, key) == Some(ms[j].1),
    decreases j,
{
    if j > 0 {
        let rest = ms.drop_first();
        assert forall|i: int| 0 <= i < j - 1 implies (#[trigger] rest[i]).0 != key by {
            assert(rest[i] == ms[i + 1]);
        }
        assert(rest[j - 1] == ms[j]);
        lemma_obj_lookup_at(rest, key, j - 1);
    }
}

/// A key that occurs nowhere is not found.
pub proof fn lemma_obj_lookup_none(ms: Seq<(Seq<char>, JsonV)>, key: Seq<char>)
    requires
        forall|i: int| 0 <= i < ms.len() ==> (#[trigger] ms[i]).0 != key,
    ensures
        obj_lookup(ms, key) is None,
    decreases ms.len(),
{
    if ms.len() > 0 {
        let rest = ms.drop_first();
        assert forall|i: int| 0 <= i < rest.len() implies (#[trigger] rest[i]).0 != key by {
            assert(rest[i] == ms[i + 1]);
        }
        lemma_obj_lookup_none(rest, key);
    }
}

/// Look up the first member with the given key.
fn obj_get<'a>(pairs: &'a Vec<(String, JsonValue)>, key: &str) -> (r: Option<&'a JsonValue>)
    ensures
        match obj_lookup(json_view_obj(pairs@, 0), key@) {
            Some(vv) => r matches Some(v) && v@ == vv,
            None => r is None,
        },
{
    let ghost ms = json_view_obj(pairs@, 0);
    proof {
        crate::json::lemma_json_view_obj_len(pairs@, 0);
        assert(ms.skip(0) =~= ms);
    }
    let mut i: usize = 0;
    while i < pairs.len()
        invariant
            0 <= i <= pairs@.len(),
            ms == json_view_obj(pairs@, 0),
            ms.len() == pairs@.len(),
            obj_lookup(ms, key@) == obj_lookup(ms.skip(i as int), key@),
        decreases pairs@.len() - i,
    {
        proof {
            crate::json::lemma_json_view_obj_index(pairs@, 0, i as int);
            assert(ms.skip(i as int)[0] == ms[i as int]);
        }
        if crate::strutil::str_eq(pairs[i].0.as_str(), key) {
            proof {
                assert(obj_lookup(ms.skip(i as int), key@) == Some(ms[i as int].1));
            }
            return Some(&pairs[i].1);
        }
        proof {
            lemma_obj_lookup_skip(ms, key@, i as int);
        }
        i += 1;
    }
    proof {
        assert(ms.skip(pairs@.len() as int).len() == 0);
    }
    None
}

/// How many digit positions lie before position `i` of a hyphenated UUID.
pub open spec fn uuid_digits_before(i: int) -> int {
    if i <= 8 {
        i
    } else if i <= 13 {
        i - 1
    } else if i <= 18 {
        i - 2
    } else if i <= 23 {
        i - 3
    } else {
        i - 4
    }
}

/// Powers of sixteen multiply along addition of exponents.
pub proof fn lemma_pow16_add(a: int, b: int)
    requires
        a >= 0,
        b >= 0,
    ensures
        pow16(a + b) == pow16(a) * pow16(b),
    decreases b,
{
    lemma_pow16_pos(a);
    if b == 0 {
        assert(pow16(a) * 1 == pow16(a)) by (nonlinear_arith);
    } else {
        lemma_pow16_add(a, b - 1);
        assert(pow16(a + b) == 16 * pow16(a + b - 1));
        assert(16 * (pow16(a) * pow16(b - 1)) == pow16(a) * (16 * pow16(b - 1)))
            by (nonlinear_arith);
    }
}

/// Parse a hyphenated UUID: exactly 8-4-4-4-12 hexadecimal digits.  Parsing
/// a rendered UUID gives its value back.
pub fn parse_uuid(s: &str) -> (r: Option<u128>)
    ensures
        forall|u: u128| s@ == uuid_str(u) ==> r == Some(u),
{
    let n = s.unicode_len();
    if n != 36 {
        proof {
            assert forall|u: u128| s@ != uuid_str(u) by {
                lemma_uuid_str_chars(u);
            }
        }
        return None;
    }
    let mut value: u128 = 0;
    let mut i: usize = 0;
    proof {
        assert forall|u: u128| s@ == uuid_str(u) implies value as int == (u as int) / pow16(
            32 - uuid_digits_before(0),
        ) by {
            lemma_pow16_32();
            vstd::arithmetic::div_mod::lemma_basic_div(u as int, pow16(32));
        }
    }
    while i < 36
        invariant
            0 <= i <= 36,
            n == s@.len(),
            36 == s@.len(),
            forall|u: u128|
                s@ == uuid_str(u) ==> value as int == (u as int) / pow16(
                    32 - uuid_digits_before(i as int),
                ),
        decreases 36 - i,
    {
        let ghost value0 = value;
        let c = s.get_char(i);
        if i == 8 || i == 13 || i == 18 || i == 23 {
            if c != '-' {
                proof {
                    assert forall|u: u128| s@ != uuid_str(u) by {
                        lemma_uuid_str_chars(u);
                    }
                }
                return None;
            }
        } else {
            let d: u128 = if '0' <= c && c <= '9' {
                (c as u32 - '0' as u32) as u128
            } else if 'a' <= c && c <= 'f' {
                (c as u32 - 'a' as u32) as u128 + 10
            } else if 'A' <= c && c <= 'F' {
                (c as u32 - 'A' as u32) as u128 + 10
            } else {
                proof {
                    assert forall|u: u128| s@ != uuid_str(u) by {
                        lemma_uuid_str_chars(u);
                        lemma_hex_pad_index(u as int, 32, uuid_digit_index(i as int));
                    }
                }
                return None;
            };
            proof {
                assert forall|u: u128| s@ == uuid_str(u) implies value0 as int <= (
                0xffff_ffff_ffff_ffff_ffff_ffff_ffff_ffffu128 / 16) as int by {
                    lemma_uuid_str_chars(u);
                    let idx = uuid_digit_index(i as int);
                    lemma_pow16_32();
                    lemma_pow16_add(32 - idx, idx);
                    lemma_pow16_pos(32 - idx);
                    lemma_pow16_pos(idx);
                    vstd::arithmetic::div_mod::lemma_multiply_divide_lt(
                        u as int,
                        pow16(32 - idx),
                        pow16(idx),
                    );
                    assert((u as int) / pow16(32 - idx) < pow16(idx));
                    if idx <= 31 {
                        lemma_pow16_mono(idx, 31);
                    }
                }
            }
            if value > 0xffff_ffff_ffff_ffff_ffff_ffff_ffff_ffffu128 / 16 {
                proof {
                    assert forall|u: u128| s@ != uuid_str(u) by {}
                }
                return None;
            }
            value = value * 16 + d;
            proof {
                assert forall|u: u128| s@ == uuid_str(u) implies value as int == (u as int)
                    / pow16(32 - uuid_digits_before(i as int + 1)) by {
                    lemma_uuid_str_chars(u);
                    let idx = uuid_digit_index(i as int);
                    assert(s@[i as int] == hex_pad(u as int, 32)[idx]);
                    lemma_pow16_32();
                    lemma_hex_pad_index(u as int, 32, idx);
                    assert(d as int == uuid_hex_val(c));
                    lemma_hex_prefix_value(u as int, 32, idx, value0 as int);
                    assert(uuid_digits_before(i as int + 1) == idx + 1);
                }
            }
        }
        i += 1;
    }
    proof {
        assert forall|u: u128| s@ == uuid_str(u) implies value == u by {
            assert(uuid_digits_before(36) == 32);
            assert(pow16(0) == 1);
        }
    }
    Some(value)
}

/// Powers of sixteen are monotone.
pub proof fn lemma_pow16_mono(a: int, b: int)
    requires
        0 <= a <= b,
    ensures
        pow16(a) <= pow16(b),
    decreases b - a,
{
    lemma_pow16_pos(a);
    if a < b {
        lemma_pow16_mono(a, b - 1);
        lemma_pow16_pos(b - 1);
    }
}

/// A fixed-point confidence from a JSON number: accepted exactly on the
/// unit interval, unchanged.
fn confidence_from_num(v: i64) -> (r: Option<u64>)
    ensures
        r == if 0 <= v && v <= 1_000_000 {
            Some(v as u64)
        } else {
            None::<u64>
        },
        r matches Some(c) ==> c <= crate::confidence::SCALE,
{
    if 0 <= v && v <= 1_000_000 {
        Some(v as u64)
    } else {
        None
    }
}

/// What a sender model looks up to under its two keys.
proof fn lemma_sender_jsonv_lookup(sv: crate::message::SenderV)
    ensures
        sender_jsonv(sv) matches JsonV::Obj(ms) && obj_lookup(ms, "id"@) == Some(
            JsonV::Str(sv.id),
        ) && obj_lookup(ms, "auth_method"@) == Some(
            JsonV::Str(spec_auth_method_str(sv.auth_method)),
        ),
{
    reveal_strlit("id");
    reveal_strlit("auth_method");
    assert("id"@.len() == 2);
    assert("auth_method"@.len() == 11);
    let ms = member("auth_method"@, JsonV::Str(spec_auth_method_str(sv.auth_method))) + member(
        "id"@,
        JsonV::Str(sv.id),
    );
    assert(ms.len() == 2);
    assert(ms[0].0 == "auth_method"@);
    assert(ms[1].0 == "id"@);
    assert(ms.drop_first() =~= member("id"@, JsonV::Str(sv.id)));
    assert(obj_lookup(ms, "auth_method"@) == Some(ms[0].1));
    assert(ms[0].0 != "id"@);
    assert(obj_lookup(ms.drop_first(), "id"@) == Some(ms.drop_first()[0].1));
    assert(ms.drop_first()[0].1 == JsonV::Str(sv.id));
}

/// The four wire names of authentication methods are pairwise distinct.
proof fn lemma_auth_method_strs_distinct()
    ensures
        "token"@ != "certificate"@,
        "token"@ != "api_key"@,
        "token"@ != "none"@,
        "certificate"@ != "api_key"@,
        "certificate"@ != "none"@,
        "api_key"@ != "none"@,
{
    reveal_strlit("token");
    reveal_strlit("certificate");
    reveal_strlit("api_key");
    reveal_strlit("none");
    assert("token"@.len() == 5);
    assert("certificate"@.len() == 11);
    assert("api_key"@.len() == 7);
    assert("none"@.len() == 4);
}

/// Parse a sender object.  Parsing the document of a sender gives the
/// sender back.
fn sender_from_json(v: &JsonValue) -> (r: Option<Sender>)
    ensures
        forall|sv: crate::message::SenderV|
            v@ == sender_jsonv(sv) ==> (r matches Some(snd) && snd@ == sv),
{
    proof {
        lemma_auth_method_strs_distinct();
    }
    let pairs = match v {
        JsonValue::Obj(pairs) => pairs,
        _ => {
            proof {
                assert forall|sv: crate::message::SenderV| v@ != sender_jsonv(sv) by {
                    lemma_sender_jsonv_lookup(sv);
                }
            }
            return None;
        },
    };
    let id = match obj_get(pairs, "id") {
        Some(JsonValue::Str(t)) => t.clone(),
        _ => {
            proof {
                assert forall|sv: crate::message::SenderV| v@ != sender_jsonv(sv) by {
                    lemma_sender_jsonv_lookup(sv);
                }
            }
            return None;
        },
    };
    let auth_method = match obj_get(pairs, "auth_method") {
        Some(JsonValue::Str(t)) => {
            if crate::strutil::str_eq(t.as_str(), "token") {
                crate::message::AuthMethod::Token
            } else if crate::strutil::str_eq(t.as_str(), "certificate") {
                crate::message::AuthMethod::Certificate
            } else if crate::strutil::str_eq(t.as_str(), "api_key") {
                crate::message::AuthMethod::ApiKey
            } else if crate::strutil::str_eq(t.as_str(), "none") {
                crate::message::AuthMethod::NoAuth
            } else {
                proof {
                    assert forall|sv: crate::message::SenderV| v@ != sender_jsonv(sv) by {
                        lemma_sender_jsonv_lookup(sv);
                    }
                }
                return None;
            }
        },
        _ => {
            proof {
                assert forall|sv: crate::message::SenderV| v@ != sender_jsonv(sv) by {
                    lemma_sender_jsonv_lookup(sv);
                }
            }
            return None;
        },
    };
    let r = Some(Sender { id, auth_method });
    proof {
        assert forall|sv: crate::message::SenderV| v@ == sender_jsonv(sv) implies (r matches Some(
            snd,
        ) && snd@ == sv) by {
            lemma_sender_jsonv_lookup(sv);
            assert(id@ == sv.id);
            match sv.auth_method {
                crate::message::AuthMethod::Token => {
                    assert(spec_auth_method_str(sv.auth_method) == "token"@);
                },
                crate::message::AuthMethod::Certificate => {
                    assert(spec_auth_method_str(sv.auth_method) == "certificate"@);
                },
                crate::message::AuthMethod::ApiKey => {
                    assert(spec_auth_method_str(sv.auth_method) == "api_key"@);
                },
                crate::message::AuthMethod::NoAuth => {
                    assert(spec_auth_method_str(sv.auth_method) == "none"@);
                },
            }
            assert(auth_method == sv.auth_method);
        }
    }
    r
}

/// What a context model looks up to under its three keys.
proof fn lemma_context_jsonv_lookup(cv: crate::message::ContextV)
    ensures
        context_jsonv(cv) matches JsonV::Obj(ms) && obj_lookup(ms, "content"@) == Some(
            JsonV::Str(cv.content),
        ) && obj_lookup(ms, "semantic_hash"@) == Some(JsonV::Str(cv.semantic_hash)) && obj_lookup(
            ms,
            "type"@,
        ) == Some(JsonV::Str(spec_context_type_str(cv.context_type))),
{
    reveal_strlit("content");
    reveal_strlit("semantic_hash");
    reveal_strlit("type");
    assert("content"@.len() == 7);
    assert("semantic_hash"@.len() == 13);
    assert("type"@.len() == 4);
    let ms = member("content"@, JsonV::Str(cv.content)) + member(
        "semantic_hash"@,
        JsonV::Str(cv.semantic_hash),
    ) + member("type"@, JsonV::Str(spec_context_type_str(cv.context_type)));
    assert(ms.len() == 3);
    assert(ms[0].0 == "content"@);
    assert(ms[1].0 == "semantic_hash"@);
    assert(ms[2].0 == "type"@);
    assert(obj_lookup(ms, "content"@) == Some(ms[0].1));
    assert(ms.drop_first() =~= member("semantic_hash"@, JsonV::Str(cv.semantic_hash)) + member(
        "type"@,
        JsonV::Str(spec_context_type_str(cv.context_type)),
    ));
    assert(ms[0].0 != "semantic_hash"@);
    assert(ms[0].0 != "type"@);
    assert(obj_lookup(ms, "semantic_hash"@) == obj_lookup(ms.drop_first(), "semantic_hash"@));
    assert(obj_lookup(ms, "type"@) == obj_lookup(ms.drop_first(), "type"@));
    assert(ms.drop_first()[0].0 == "semantic_hash"@);
    assert(obj_lookup(ms.drop_first(), "semantic_hash"@) == Some(ms.drop_first()[0].1));
    assert(ms.drop_first()[0].1 == JsonV::Str(cv.semantic_hash));
    assert(ms.drop_first()[0].0 != "type"@);
    assert(ms.drop_first().drop_first() =~= member(
        "type"@,
        JsonV::Str(spec_context_type_str(cv.context_type)),
    ));
    assert(obj_lookup(ms.drop_first(), "type"@) == obj_lookup(
        ms.drop_first().drop_first(),
        "type"@,
    ));
    assert(obj_lookup(ms.drop_first().drop_first(), "type"@) == Some(
        ms.drop_first().drop_first()[0].1,
    ));
    assert(ms.drop_first().drop_first()[0].1 == JsonV::Str(
        spec_context_type_str(cv.context_type),
    ));
}

/// The three wire names of context types are pairwise distinct.
proof fn lemma_context_type_strs_distinct()
    ensures
        "transcript"@ != "summary"@,
        "transcript"@ != "structured"@,
        "summary"@ != "structured"@,
{
    reveal_strlit("transcript");
    reveal_strlit("summary");
    reveal_strlit("structured");
    assert("transcript"@.len() == 10);
    assert("summary"@.len() == 7);
    assert("structured"@.len() == 10);
    assert("transcript"@[0] == 't');
    assert("structured"@[0] == 's');
}

/// Parse a context object.  Parsing the document of a context gives the
/// context back.
fn context_from_json(v: &JsonValue) -> (r: Option<Context>)
    ensures
        forall|cv: crate::message::ContextV|
            v@ == context_jsonv(cv) ==> (r matches Some(ctx) && ctx@ == cv),
{
    proof {
        lemma_context_type_strs_distinct();
    }
    let pairs = match v {
        JsonValue::Obj(pairs) => pairs,
        _ => {
            proof {
                assert forall|cv: crate::message::ContextV| v@ != context_jsonv(cv) by {
                    lemma_context_jsonv_lookup(cv);
                }
            }
            return None;
        },
    };
    let content = match obj_get(pairs, "content") {
        Some(JsonValue::Str(t)) => t.clone(),
        _ => {
            proof {
                assert forall|cv: crate::message::ContextV| v@ != context_jsonv(cv) by {
                    lemma_context_jsonv_lookup(cv);
                }
            }
            return None;
        },
    };
    let semantic_hash = match obj_get(pairs, "semantic_hash") {
        Some(JsonValue::Str(t)) => t.clone(),
        _ => {
            proof {
                assert forall|cv: crate::message::ContextV| v@ != context_jsonv(cv) by {
                    lemma_context_jsonv_lookup(cv);
                }
            }
            return None;
        },
    };
    let context_type = match obj_get(pairs, "type") {
        Some(JsonValue::Str(t)) => {
            if crate::strutil::str_eq(t.as_str(), "transcript") {
                crate::message::ContextType::Transcript
            } else if crate::strutil::str_eq(t.as_str(), "summary") {
                crate::message::ContextType::Summary
            } else if crate::strutil::str_eq(t.as_str(), "structured") {
                crate::message::ContextType::Structured
            } else {
                proof {
                    assert forall|cv: crate::message::ContextV| v@ != context_jsonv(cv) by {
                        lemma_context_jsonv_lookup(cv);
                    }
                }
                return None;
            }
        },
        _ => {
            proof {
                assert forall|cv: crate::message::ContextV| v@ != context_jsonv(cv) by {
                    lemma_context_jsonv_lookup(cv);
                }
            }
            return None;
        },
    };
    let r = Some(Context { context_type, content, semantic_hash });
    proof {
        assert forall|cv: crate::message::ContextV| v@ == context_jsonv(cv) implies (r matches
            Some(ctx) && ctx@ == cv) by {
            lemma_context_jsonv_lookup(cv);
            assert(content@ == cv.content);
            assert(semantic_hash@ == cv.semantic_hash);
            match cv.context_type {
                crate::message::ContextType::Transcript => {
                    assert(spec_context_type_str(cv.context_type) == "transcript"@);
                },
                crate::message::ContextType::Summary => {
                    assert(spec_context_type_str(cv.context_type) == "summary"@);
                },
                crate::message::ContextType::Structured => {
                    assert(spec_context_type_str(cv.context_type) == "structured"@);
                },
            }
            assert(context_type == cv.context_type);
        }
    }
    r
}

/// The bounds under which a constraints model fits the wire's fixed-point
/// range.
pub open spec fn constraints_in_range(cv: crate::message::ConstraintsV) -> bool {
    &&& (cv.max_cost matches Some(mc) ==> mc <= 0x7fff_ffff_ffff_ffffu64)
    &&& (cv.timeout_ms matches Some(t) ==> t <= 9_223_372_036_854u64)
}

/// What a constraints model looks up to under its three keys, each present
/// exactly when its field is.
proof fn lemma_constraints_jsonv_lookup(cv: crate::message::ConstraintsV)
    ensures
        constraints_jsonv(cv) matches JsonV::Obj(ms) && {
            &&& obj_lookup(ms, "max_cost"@) == match cv.max_cost {
                Some(mc) => Some(JsonV::Num(mc as i64)),
                None => None,
            }
            &&& obj_lookup(ms, "privacy"@) == match cv.privacy {
                Some(p) => Some(JsonV::Str(p)),
                None => None,
            }
            &&& obj_lookup(ms, "timeout_ms"@) == match cv.timeout_ms {
                Some(t) => Some(JsonV::Num((t * 1_000_000) as i64)),
                None => None,
            }
        },
{
    reveal_strlit("max_cost");
    reveal_strlit("privacy");
    reveal_strlit("timeout_ms");
    assert("max_cost"@.len() == 8);
    assert("privacy"@.len() == 7);
    assert("timeout_ms"@.len() == 10);
    let ms = (constraints_jsonv(cv))->Obj_0;
    let d1: int = if cv.max_cost is Some { 1 } else { 0 };
    let d2: int = if cv.privacy is Some { 1 } else { 0 };
    let d3: int = if cv.timeout_ms is Some { 1 } else { 0 };
    assert(ms.len() == d1 + d2 + d3);
    if cv.max_cost is Some {
        assert(ms[0] == ("max_cost"@, JsonV::Num(cv.max_cost->Some_0 as i64)));
    }
    if cv.privacy is Some {
        assert(ms[d1] == ("privacy"@, JsonV::Str(cv.privacy->Some_0)));
    }
    if cv.timeout_ms is Some {
        assert(ms[d1 + d2] == ("timeout_ms"@, JsonV::Num((cv.timeout_ms->Some_0 * 1_000_000) as i64)));
    }
    match cv.max_cost {
        Some(_) => {
            lemma_obj_lookup_at(ms, "max_cost"@, 0);
        },
        None => {
            lemma_obj_lookup_none(ms, "max_cost"@);
        },
    }
    match cv.privacy {
        Some(_) => {
            lemma_obj_lookup_at(ms, "privacy"@, d1);
        },
        None => {
            lemma_obj_lookup_none(ms, "privacy"@);
        },
    }
    match cv.timeout_ms {
        Some(_) => {
            lemma_obj_lookup_at(ms, "timeout_ms"@, d1 + d2);
        },
        None => {
            lemma_obj_lookup_none(ms, "timeout_ms"@);
        },
    }
}

/// Parse a constraints object.  Parsing the document of an in-range
/// constraints record gives the record back.
fn constraints_from_json(v: &JsonValue) -> (r: Option<Constraints>)
    ensures
        forall|cv: crate::message::ConstraintsV|
            (constraints_in_range(cv) && v@ == constraints_jsonv(cv)) ==> (r matches Some(c)
                && c@ == cv),
{
    let pairs = match v {
        JsonValue::Obj(pairs) => pairs,
        _ => {
            proof {
                assert forall|cv: crate::message::ConstraintsV|
                    !(constraints_in_range(cv) && v@ == constraints_jsonv(cv)) by {
                    lemma_constraints_jsonv_lookup(cv);
                }
            }
            return None;
        },
    };
    let max_cost: Option<u64> = match obj_get(pairs, "max_cost") {
        Some(JsonValue::Num(n)) => {
            if *n < 0 {
                proof {
                    assert forall|cv: crate::message::ConstraintsV|
                        !(constraints_in_range(cv) && v@ == constraints_jsonv(cv)) by {
                        lemma_constraints_jsonv_lookup(cv);
                    }
                }
                return None;
            }
            Some(*n as u64)
        },
        Some(_) => {
            proof {
                assert forall|cv: crate::message::ConstraintsV|
                    !(constraints_in_range(cv) && v@ == constraints_jsonv(cv)) by {
                    lemma_constraints_jsonv_lookup(cv);
                }
            }
            return None;
        },
        None => None,
    };
    let privacy: Option<String> = match obj_get(pairs, "privacy") {
        Some(JsonValue::Str(t)) => Some(t.clone()),
        Some(_) => {
            proof {
                assert forall|cv: crate::message::ConstraintsV|
                    !(constraints_in_range(cv) && v@ == constraints_jsonv(cv)) by {
                    lemma_constraints_jsonv_lookup(cv);
                }
            }
            return None;
        },
        None => None,
    };
    let timeout_ms: Option<u64> = match obj_get(pairs, "timeout_ms") {
        Some(JsonValue::Num(n)) => {
            if *n < 0 || *n % 1_000_000 != 0 {
                proof {
                    assert forall|cv: crate::message::ConstraintsV|
                        !(constraints_in_range(cv) && v@ == constraints_jsonv(cv)) by {
                        lemma_constraints_jsonv_lookup(cv);
                        if constraints_in_range(cv) && v@ == constraints_jsonv(cv) {
                            match cv.timeout_ms {
                                Some(t) => {
                                    assert((t * 1_000_000) as i64 % 1_000_000 == 0 && (t
                                        * 1_000_000) as i64 >= 0) by (nonlinear_arith)
                                        requires
                                            t <= 9_223_372_036_854u64,
                                    ;
                                },
                                None => {},
                            }
                        }
                    }
                }
                return None;
            }
            Some((*n / 1_000_000) as u64)
        },
        Some(_) => {
            proof {
                assert forall|cv: crate::message::ConstraintsV|
                    !(constraints_in_range(cv) && v@ == constraints_jsonv(cv)) by {
                    lemma_constraints_jsonv_lookup(cv);
                }
            }
            return None;
        },
        None => None,
    };
    let r = Some(Constraints { max_cost, privacy, timeout_ms });
    proof {
        assert forall|cv: crate::message::ConstraintsV|
            (constraints_in_range(cv) && v@ == constraints_jsonv(cv)) implies (r matches Some(c)
            && c@ == cv) by {
            lemma_constraints_jsonv_lookup(cv);
            match cv.max_cost {
                Some(mc) => {
                    assert(max_cost == Some((mc as i64) as u64));
                },
                None => {},
            }
            match cv.timeout_ms {
                Some(t) => {
                    assert((t * 1_000_000) as i64 / 1_000_000 == t && (t * 1_000_000) as i64 >= 0)
                        by (nonlinear_arith)
                        requires
                            t <= 9_223_372_036_854u64,
                    ;
                },
                None => {},
            }
        }
    }
    r
}

/// Parse a timestamp string into protocol-range milliseconds.  A rendered
/// in-range timestamp parses back to its value.
fn timestamp_from_str(t: &str) -> (r: Option<i64>)
    ensures
        r matches Some(ms) ==> valid_timestamp(ms),
        forall|ts: i64| (valid_timestamp(ts) && t@ == rfc3339_of(ts)) ==> r == Some(ts),
{
    match crate::time::parse_rfc3339_millis(t) {
        Some(ms) => {
            if 0 <= ms && ms < crate::time::TS_LIMIT {
                Some(ms)
            } else {
                None
            }
        },
        None => None,
    }
}

/// The keys a request object may carry.
fn request_key_known(key: &str) -> (r: bool)
    ensures
        r == (key@ == "confidence"@ || key@ == "constraints"@ || key@ == "context"@ || key@
            == "conversation_id"@ || key@ == "in_response_to"@ || key@ == "intent"@ || key@
            == "message_id"@ || key@ == "protocol_version"@ || key@ == "sender"@ || key@
            == "signature"@ || key@ == "timestamp"@),
{
    crate::strutil::str_eq(key, "confidence") || crate::strutil::str_eq(key, "constraints")
        || crate::strutil::str_eq(key, "context") || crate::strutil::str_eq(
        key,
        "conversation_id",
    ) || crate::strutil::str_eq(key, "in_response_to") || crate::strutil::str_eq(key, "intent")
        || crate::strutil::str_eq(key, "message_id") || crate::strutil::str_eq(
        key,
        "protocol_version",
    ) || crate::strutil::str_eq(key, "sender") || crate::strutil::str_eq(key, "signature")
        || crate::strutil::str_eq(key, "timestamp")
}

/// Parse a request from its wire text.  The parse is strict: the document
/// must be a single JSON object, every key must be known, every required
/// field present and well typed, and the confidence in the unit interval.
/// A parsed request is well formed.
#[verifier::loop_isolation(false)]
#[verifier::rlimit(100)]
pub fn parse_request(s: &str) -> (r: Option<Request>)
    ensures
        r matches Some(req) ==> crate::message::valid_request(req),
        forall|rv: RequestV|
            (serializable_request(rv) && s@ == crate::jsonser::ser_json(
                #[trigger] req_jsonv(rv, true),
            )) ==> (r matches Some(req) && req@ == rv),
{
    let doc = match crate::jsonparse::parse_json(s) {
        Some(d) => d,
        None => {
            proof {
                assert forall|rv: RequestV|
                    !(serializable_request(rv) && s@ == crate::jsonser::ser_json(
                        req_jsonv(rv, true),
                    )) by {
                    if serializable_request(rv) && s@ == crate::jsonser::ser_json(
                        req_jsonv(rv, true),
                    ) {
                        lemma_serialized_request_parses(rv, s@);
                        lemma_req_jsonv_lookup(rv);
                    }
                }
            }
            return None;
        },
    };
    let pairs = match &doc {
        JsonValue::Obj(pairs) => pairs,
        _ => {
            proof {
                assert forall|rv: RequestV|
                    !(serializable_request(rv) && s@ == crate::jsonser::ser_json(
                        req_jsonv(rv, true),
                    )) by {
                    if serializable_request(rv) && s@ == crate::jsonser::ser_json(
                        req_jsonv(rv, true),
                    ) {
                        lemma_serialized_request_parses(rv, s@);
                        lemma_req_jsonv_lookup(rv);
                    }
                }
            }
            return None;
        },
    };
    let mut i: usize = 0;
    while i < pairs.len()
        invariant
            0 <= i <= pairs@.len(),
        decreases pairs@.len() - i,
    {
        if !request_key_known(pairs[i].0.as_str()) {
            proof {
                crate::json::lemma_json_view_obj_len(pairs@, 0);
                crate::json::lemma_json_view_obj_index(pairs@, 0, i as int);
            }
            proof {
                assert forall|rv: RequestV|
                    !(serializable_request(rv) && s@ == crate::jsonser::ser_json(
                        req_jsonv(rv, true),
                    )) by {
                    if serializable_request(rv) && s@ == crate::jsonser::ser_json(
                        req_jsonv(rv, true),
                    ) {
                        lemma_serialized_request_parses(rv, s@);
                        lemma_req_jsonv_lookup(rv);
                    }
                }
            }
            return None;
        }
        i += 1;
    }
    let confidence = match obj_get(pairs, "confidence") {
        Some(JsonValue::Num(n)) => match confidence_from_num(*n) {
            Some(c) => c,
            None => {
                proof {
                    assert forall|rv: RequestV|
                        !(serializable_request(rv) && s@ == crate::jsonser::ser_json(
                            req_jsonv(rv, true),
                        )) by {
                        if serializable_request(rv) && s@ == crate::jsonser::ser_json(
                            req_jsonv(rv, true),
                        ) {
                            lemma_serialized_request_parses(rv, s@);
                            lemma_req_jsonv_lookup(rv);
                        }
                    }
                }
                return None;
            },
        },
        _ => {
            proof {
                assert forall|rv: RequestV|
                    !(serializable_request(rv) && s@ == crate::jsonser::ser_json(
                        req_jsonv(rv, true),
                    )) by {
                    if serializable_request(rv) && s@ == crate::jsonser::ser_json(
                        req_jsonv(rv, true),
                    ) {
                        lemma_serialized_request_parses(rv, s@);
                        lemma_req_jsonv_lookup(rv);
                    }
                }
            }
            return None;
        },
    };
    let constraints: Option<Constraints> = match obj_get(pairs, "constraints") {
        Some(v) => match constraints_from_json(v) {
            Some(c) => Some(c),
            None => {
                proof {
                    assert forall|rv: RequestV|
                        !(serializable_request(rv) && s@ == crate::jsonser::ser_json(
                            req_jsonv(rv, true),
                        )) by {
                        if serializable_request(rv) && s@ == crate::jsonser::ser_json(
                            req_jsonv(rv, true),
                        ) {
                            lemma_serialized_request_parses(rv, s@);
                            lemma_req_jsonv_lookup(rv);
                        }
                    }
                }
                return None;
            },
        },
        None => None,
    };
    let context = match obj_get(pairs, "context") {
        Some(v) => match context_from_json(v) {
            Some(c) => c,
            None => {
                proof {
                    assert forall|rv: RequestV|
                        !(serializable_request(rv) && s@ == crate::jsonser::ser_json(
                            req_jsonv(rv, true),
                        )) by {
                        if serializable_request(rv) && s@ == crate::jsonser::ser_json(
                            req_jsonv(rv, true),
                        ) {
                            lemma_serialized_request_parses(rv, s@);
                            lemma_req_jsonv_lookup(rv);
                        }
                    }
                }
                return None;
            },
        },
        None => {
            proof {
                assert forall|rv: RequestV|
                    !(serializable_request(rv) && s@ == crate::jsonser::ser_json(
                        req_jsonv(rv, true),
                    )) by {
                    if serializable_request(rv) && s@ == crate::jsonser::ser_json(
                        req_jsonv(rv, true),
                    ) {
                        lemma_serialized_request_parses(rv, s@);
                        lemma_req_jsonv_lookup(rv);
                    }
                }
            }
            return None;
        },
    };
    let conversation_id = match obj_get(pairs, "conversation_id") {
        Some(JsonValue::Str(t)) => match parse_uuid(t.as_str()) {
            Some(u) => u,
            None => {
                proof {
                    assert forall|rv: RequestV|
                        !(serializable_request(rv) && s@ == crate::jsonser::ser_json(
                            req_jsonv(rv, true),
                        )) by {
                        if serializable_request(rv) && s@ == crate::jsonser::ser_json(
                            req_jsonv(rv, true),
                        ) {
                            lemma_serialized_request_parses(rv, s@);
                            lemma_req_jsonv_lookup(rv);
                        }
                    }
                }
                return None;
            },
        },
        _ => {
            proof {
                assert forall|rv: RequestV|
                    !(serializable_request(rv) && s@ == crate::jsonser::ser_json(
                        req_jsonv(rv, true),
                    )) by {
                    if serializable_request(rv) && s@ == crate::jsonser::ser_json(
                        req_jsonv(rv, true),
                    ) {
                        lemma_serialized_request_parses(rv, s@);
                        lemma_req_jsonv_lookup(rv);
                    }
                }
            }
            return None;
        },
    };
    let in_response_to: Option<u128> = match obj_get(pairs, "in_response_to") {
        Some(JsonValue::Str(t)) => match parse_uuid(t.as_str()) {
            Some(u) => Some(u),
            None => {
                proof {
                    assert forall|rv: RequestV|
                        !(serializable_request(rv) && s@ == crate::jsonser::ser_json(
                            req_jsonv(rv, true),
                        )) by {
                        if serializable_request(rv) && s@ == crate::jsonser::ser_json(
                            req_jsonv(rv, true),
                        ) {
                            lemma_serialized_request_parses(rv, s@);
                            lemma_req_jsonv_lookup(rv);
                        }
                    }
                }
                return None;
            },
        },
        Some(_) => {
            proof {
                assert forall|rv: RequestV|
                    !(serializable_request(rv) && s@ == crate::jsonser::ser_json(
                        req_jsonv(rv, true),
                    )) by {
                    if serializable_request(rv) && s@ == crate::jsonser::ser_json(
                        req_jsonv(rv, true),
                    ) {
                        lemma_serialized_request_parses(rv, s@);
                        lemma_req_jsonv_lookup(rv);
                    }
                }
            }
            return None;
        },
        None => None,
    };
    let intent = match obj_get(pairs, "intent") {
        Some(JsonValue::Str(t)) => t.clone(),
        _ => {
            proof {
                assert forall|rv: RequestV|
                    !(serializable_request(rv) && s@ == crate::jsonser::ser_json(
                        req_jsonv(rv, true),
                    )) by {
                    if serializable_request(rv) && s@ == crate::jsonser::ser_json(
                        req_jsonv(rv, true),
                    ) {
                        lemma_serialized_request_parses(rv, s@);
                        lemma_req_jsonv_lookup(rv);
                    }
                }
            }
            return None;
        },
    };
    let message_id = match obj_get(pairs, "message_id") {
        Some(JsonValue::Str(t)) => match parse_uuid(t.as_str()) {
            Some(u) => u,
            None => {
                proof {
                    assert forall|rv: RequestV|
                        !(serializable_request(rv) && s@ == crate::jsonser::ser_json(
                            req_jsonv(rv, true),
                        )) by {
                        if serializable_request(rv) && s@ == crate::jsonser::ser_json(
                            req_jsonv(rv, true),
                        ) {
                            lemma_serialized_request_parses(rv, s@);
                            lemma_req_jsonv_lookup(rv);
                        }
                    }
                }
                return None;
            },
        },
        _ => {
            proof {
                assert forall|rv: RequestV|
                    !(serializable_request(rv) && s@ == crate::jsonser::ser_json(
                        req_jsonv(rv, true),
                    )) by {
                    if serializable_request(rv) && s@ == crate::jsonser::ser_json(
                        req_jsonv(rv, true),
                    ) {
                        lemma_serialized_request_parses(rv, s@);
                        lemma_req_jsonv_lookup(rv);
                    }
                }
            }
            return None;
        },
    };
    let protocol_version = match obj_get(pairs, "protocol_version") {
        Some(JsonValue::Str(t)) => t.clone(),
        _ => {
            proof {
                assert forall|rv: RequestV|
                    !(serializable_request(rv) && s@ == crate::jsonser::ser_json(
                        req_jsonv(rv, true),
                    )) by {
                    if serializable_request(rv) && s@ == crate::jsonser::ser_json(
                        req_jsonv(rv, true),
                    ) {
                        lemma_serialized_request_parses(rv, s@);
                        lemma_req_jsonv_lookup(rv);
                    }
                }
            }
            return None;
        },
    };
    let sender = match obj_get(pairs, "sender") {
        Some(v) => match sender_from_json(v) {
            Some(snd) => snd,
            None => {
                proof {
                    assert forall|rv: RequestV|
                        !(serializable_request(rv) && s@ == crate::jsonser::ser_json(
                            req_jsonv(rv, true),
                        )) by {
                        if serializable_request(rv) && s@ == crate::jsonser::ser_json(
                            req_jsonv(rv, true),
                        ) {
                            lemma_serialized_request_parses(rv, s@);
                            lemma_req_jsonv_lookup(rv);
                        }
                    }
                }
                return None;
            },
        },
        None => {
            proof {
                assert forall|rv: RequestV|
                    !(serializable_request(rv) && s@ == crate::jsonser::ser_json(
                        req_jsonv(rv, true),
                    )) by {
                    if serializable_request(rv) && s@ == crate::jsonser::ser_json(
                        req_jsonv(rv, true),
                    ) {
                        lemma_serialized_request_parses(rv, s@);
                        lemma_req_jsonv_lookup(rv);
                    }
                }
            }
            return None;
        },
    };
    let signature: Option<String> = match obj_get(pairs, "signature") {
        Some(JsonValue::Str(t)) => Some(t.clone()),
        Some(_) => {
            proof {
                assert forall|rv: RequestV|
                    !(serializable_request(rv) && s@ == crate::jsonser::ser_json(
                        req_jsonv(rv, true),
                    )) by {
                    if serializable_request(rv) && s@ == crate::jsonser::ser_json(
                        req_jsonv(rv, true),
                    ) {
                        lemma_serialized_request_parses(rv, s@);
                        lemma_req_jsonv_lookup(rv);
                    }
                }
            }
            return None;
        },
        None => None,
    };
    let timestamp = match obj_get(pairs, "timestamp") {
        Some(JsonValue::Str(t)) => match timestamp_from_str(t.as_str()) {
            Some(ms) => ms,
            None => {
                proof {
                    assert forall|rv: RequestV|
                        !(serializable_request(rv) && s@ == crate::jsonser::ser_json(
                            req_jsonv(rv, true),
                        )) by {
                        if serializable_request(rv) && s@ == crate::jsonser::ser_json(
                            req_jsonv(rv, true),
                        ) {
                            lemma_serialized_request_parses(rv, s@);
                            lemma_req_jsonv_lookup(rv);
                        }
                    }
                }
                return None;
            },
        },
        _ => {
            proof {
                assert forall|rv: RequestV|
                    !(serializable_request(rv) && s@ == crate::jsonser::ser_json(
                        req_jsonv(rv, true),
                    )) by {
                    if serializable_request(rv) && s@ == crate::jsonser::ser_json(
                        req_jsonv(rv, true),
                    ) {
                        lemma_serialized_request_parses(rv, s@);
                        lemma_req_jsonv_lookup(rv);
                    }
                }
            }
            return None;
        },
    };
    let r = Some(
        Request {
            protocol_version,
            message_id,
            in_response_to,
            conversation_id,
            timestamp,
            sender,
            intent,
            confidence,
            context,
            constraints,
            signature,
        },
    );
    proof {
        assert forall|rv: RequestV|
            (serializable_request(rv) && s@ == crate::jsonser::ser_json(
                req_jsonv(rv, true),
            )) implies (r matches Some(req) && req@ == rv) by {
            lemma_serialized_request_parses(rv, s@);
            lemma_req_jsonv_lookup(rv);
            assert(confidence == rv.confidence);
            assert(conversation_id == rv.conversation_id);
            assert(message_id == rv.message_id);
            assert(in_response_to == rv.in_response_to);
            assert(timestamp == rv.timestamp);
            assert(intent@ == rv.intent);
            assert(protocol_version@ == rv.protocol_version);
            assert(sender@ == rv.sender);
            assert(context@ == rv.context);
            match rv.constraints {
                Some(cv) => {
                    assert(constraints matches Some(c) && c@ == cv);
                },
                None => {
                    assert(constraints is None);
                },
            }
            match rv.signature {
                Some(sg) => {
                    assert(signature matches Some(t) && t@ == sg);
                },
                None => {
                    assert(signature is None);
                },
            }
        }
    }
    r
}

/// Parse a JSON array of strings.  The model of a string array parses
/// back to its string sequence.
#[verifier::loop_isolation(false)]
fn strings_from_json(v: &JsonValue) -> (r: Option<Vec<String>>)
    ensures
        forall|qs: Seq<Seq<char>>|
            v@ == JsonV::Arr(#[trigger] strs_jsonv(qs)) ==> (r matches Some(out)
                && out.deep_view() == qs),
{
    let items = match v {
        JsonValue::Arr(items) => items,
        _ => {
            proof {
                assert forall|qs: Seq<Seq<char>>| v@ != JsonV::Arr(#[trigger] strs_jsonv(qs))
                    by {}
            }
            return None;
        },
    };
    proof {
        crate::json::lemma_json_view_arr_len(items@, 0);
    }
    let mut out: Vec<String> = Vec::new();
    let mut i: usize = 0;
    while i < items.len()
        invariant
            0 <= i <= items@.len(),
            out@.len() == i,
            forall|j: int|
                0 <= j < i ==> JsonV::Str((#[trigger] out@[j])@) == crate::json::json_view_arr(
                    items@,
                    0,
                )[j],
        decreases items@.len() - i,
    {
        proof {
            crate::json::lemma_json_view_arr_index(items@, 0, i as int);
        }
        match &items[i] {
            JsonValue::Str(t) => {
                out.push(t.clone());
            },
            _ => {
                proof {
                    assert forall|qs: Seq<Seq<char>>| v@ != JsonV::Arr(
                        #[trigger] strs_jsonv(qs),
                    ) by {
                        if v@ == JsonV::Arr(strs_jsonv(qs)) {
                            assert(strs_jsonv(qs)[i as int] == JsonV::Str(qs[i as int]));
                        }
                    }
                }
                return None;
            },
        }
        i += 1;
    }
    let r = Some(out);
    proof {
        assert forall|qs: Seq<Seq<char>>|
            v@ == JsonV::Arr(#[trigger] strs_jsonv(qs)) implies (r matches Some(o)
            && o.deep_view() == qs) by {
            let o = r->Some_0;
            assert(strs_jsonv(qs).len() == qs.len());
            assert forall|j: int| 0 <= j < qs.len() implies o.deep_view()[j] == qs[j] by {
                assert(strs_jsonv(qs)[j] == JsonV::Str(qs[j]));
                assert(o.deep_view()[j] == o@[j]@);
            }
            assert(o.deep_view() =~= qs);
        }
    }
    r
}

/// Parse action metadata.  The document of a metadata record gives the
/// record back.
fn metadata_from_json(v: &JsonValue) -> (r: Option<ActionMetadata>)
    ensures
        forall|mv: crate::message::ActionMetadataV|
            v@ == #[trigger] metadata_jsonv(mv) ==> (r matches Some(m) && m@ == mv),
{
    let pairs = match v {
        JsonValue::Obj(pairs) => pairs,
        _ => {
            proof {
                assert forall|mv: crate::message::ActionMetadataV| v@ != #[trigger] metadata_jsonv(
                    mv,
                ) by {
                    lemma_metadata_jsonv_lookup(mv);
                }
            }
            return None;
        },
    };
    let result: Option<JsonValue> = match obj_get(pairs, "result") {
        Some(rv) => Some(rv.clone()),
        None => None,
    };
    let questions: Option<Vec<String>> = match obj_get(pairs, "questions") {
        Some(qv) => match strings_from_json(qv) {
            Some(qs) => Some(qs),
            None => {
                proof {
                    assert forall|mv: crate::message::ActionMetadataV| v@
                        != #[trigger] metadata_jsonv(mv) by {
                        lemma_metadata_jsonv_lookup(mv);
                    }
                }
                return None;
            },
        },
        None => None,
    };
    let reason_code: Option<crate::error::RefusalCode> = match obj_get(pairs, "reason_code") {
        Some(JsonValue::Str(t)) => match crate::error::RefusalCode::from_code_str(t.as_str()) {
            Some(c) => Some(c),
            None => {
                proof {
                    assert forall|mv: crate::message::ActionMetadataV| v@
                        != #[trigger] metadata_jsonv(mv) by {
                        lemma_metadata_jsonv_lookup(mv);
                    }
                }
                return None;
            },
        },
        Some(_) => {
            proof {
                assert forall|mv: crate::message::ActionMetadataV| v@ != #[trigger] metadata_jsonv(
                    mv,
                ) by {
                    lemma_metadata_jsonv_lookup(mv);
                }
            }
            return None;
        },
        None => None,
    };
    let reason: Option<String> = match obj_get(pairs, "reason") {
        Some(JsonValue::Str(t)) => Some(t.clone()),
        Some(_) => {
            proof {
                assert forall|mv: crate::message::ActionMetadataV| v@ != #[trigger] metadata_jsonv(
                    mv,
                ) by {
                    lemma_metadata_jsonv_lookup(mv);
                }
            }
            return None;
        },
        None => None,
    };
    let r = Some(ActionMetadata { result, questions, reason_code, reason });
    proof {
        assert forall|mv: crate::message::ActionMetadataV|
            v@ == #[trigger] metadata_jsonv(mv) implies (r matches Some(m) && m@ == mv) by {
            lemma_metadata_jsonv_lookup(mv);
        }
    }
    r
}

/// The bounds under which an alternative model fits the wire's fixed-point
/// range.
pub open spec fn alternative_in_range(av: AlternativeV) -> bool {
    &&& av.confidence <= crate::confidence::SCALE
    &&& (av.estimated_cost matches Some(c) ==> c <= 0x7fff_ffff_ffff_ffffu64)
}

/// Parse one alternative.  The document of an in-range alternative gives
/// the alternative back.
fn alternative_from_json(v: &JsonValue) -> (r: Option<Alternative>)
    ensures
        r matches Some(a) ==> a.confidence <= crate::confidence::SCALE,
        forall|av: AlternativeV|
            (alternative_in_range(av) && v@ == #[trigger] alternative_jsonv(av)) ==> (r matches
                Some(a) && a@ == av),
{
    let pairs = match v {
        JsonValue::Obj(pairs) => pairs,
        _ => {
            proof {
                assert forall|av: AlternativeV|
                    !(alternative_in_range(av) && v@ == #[trigger] alternative_jsonv(av)) by {
                    lemma_alternative_jsonv_lookup(av);
                }
            }
            return None;
        },
    };
    let capability_id = match obj_get(pairs, "capability_id") {
        Some(JsonValue::Str(t)) => t.clone(),
        _ => {
            proof {
                assert forall|av: AlternativeV|
                    !(alternative_in_range(av) && v@ == #[trigger] alternative_jsonv(av)) by {
                    lemma_alternative_jsonv_lookup(av);
                }
            }
            return None;
        },
    };
    let confidence = match obj_get(pairs, "confidence") {
        Some(JsonValue::Num(n)) => match confidence_from_num(*n) {
            Some(c) => c,
            None => {
                proof {
                    assert forall|av: AlternativeV|
                        !(alternative_in_range(av) && v@ == #[trigger] alternative_jsonv(av)) by {
                        lemma_alternative_jsonv_lookup(av);
                    }
                }
                return None;
            },
        },
        _ => {
            proof {
                assert forall|av: AlternativeV|
                    !(alternative_in_range(av) && v@ == #[trigger] alternative_jsonv(av)) by {
                    lemma_alternative_jsonv_lookup(av);
                }
            }
            return None;
        },
    };
    let estimated_cost: Option<u64> = match obj_get(pairs, "estimated_cost") {
        Some(JsonValue::Num(n)) => {
            if *n < 0 {
                proof {
                    assert forall|av: AlternativeV|
                        !(alternative_in_range(av) && v@ == #[trigger] alternative_jsonv(av)) by {
                        lemma_alternative_jsonv_lookup(av);
                    }
                }
                return None;
            }
            Some(*n as u64)
        },
        Some(_) => {
            proof {
                assert forall|av: AlternativeV|
                    !(alternative_in_range(av) && v@ == #[trigger] alternative_jsonv(av)) by {
                    lemma_alternative_jsonv_lookup(av);
                }
            }
            return None;
        },
        None => None,
    };
    let interpretation = match obj_get(pairs, "interpretation") {
        Some(JsonValue::Str(t)) => t.clone(),
        _ => {
            proof {
                assert forall|av: AlternativeV|
                    !(alternative_in_range(av) && v@ == #[trigger] alternative_jsonv(av)) by {
                    lemma_alternative_jsonv_lookup(av);
                }
            }
            return None;
        },
    };
    let r = Some(Alternative { interpretation, confidence, estimated_cost, capability_id });
    proof {
        assert forall|av: AlternativeV|
            (alternative_in_range(av) && v@ == #[trigger] alternative_jsonv(av)) implies (r
            matches Some(a) && a@ == av) by {
            lemma_alternative_jsonv_lookup(av);
            match av.estimated_cost {
                Some(c) => {
                    assert(estimated_cost == Some((c as i64) as u64));
                },
                None => {},
            }
        }
    }
    r
}

/// Whether a document is the array of the given in-range alternatives.
pub open spec fn alts_doc_match(v: JsonV, avs: Seq<AlternativeV>) -> bool {
    &&& forall|k: int| 0 <= k < avs.len() ==> alternative_in_range(#[trigger] avs[k])
    &&& v == JsonV::Arr(avs.map_values(|a: AlternativeV| alternative_jsonv(a)))
}

/// Parse a JSON array of alternatives.  The array document of in-range
/// alternatives gives them back.
#[verifier::loop_isolation(false)]
fn alternatives_from_json(v: &JsonValue) -> (r: Option<Vec<Alternative>>)
    ensures
        r matches Some(out) ==> forall|k: int|
            0 <= k < out@.len() ==> (#[trigger] out@[k]).confidence <= crate::confidence::SCALE,
        forall|avs: Seq<AlternativeV>|
            #[trigger] alts_doc_match(v@, avs) ==> (r matches Some(out)
                && crate::message::alternatives_view(out@) == avs),
{
    let items = match v {
        JsonValue::Arr(items) => items,
        _ => {
            proof {
                assert forall|avs: Seq<AlternativeV>| !alts_doc_match(v@, avs) by {}
            }
            return None;
        },
    };
    proof {
        crate::json::lemma_json_view_arr_len(items@, 0);
    }
    let mut out: Vec<Alternative> = Vec::new();
    let mut i: usize = 0;
    while i < items.len()
        invariant
            0 <= i <= items@.len(),
            out@.len() == i,
            forall|k: int|
                0 <= k < i ==> (#[trigger] out@[k]).confidence <= crate::confidence::SCALE,
            forall|avs: Seq<AlternativeV>|
                #[trigger] alts_doc_match(v@, avs) ==> (forall|j: int|
                    0 <= j < i ==> (#[trigger] out@[j])@ == avs[j]),
        decreases items@.len() - i,
    {
        proof {
            crate::json::lemma_json_view_arr_index(items@, 0, i as int);
        }
        match alternative_from_json(&items[i]) {
            Some(a) => {
                out.push(a);
                proof {
                    assert forall|avs: Seq<AlternativeV>|
                        #[trigger] alts_doc_match(v@, avs) implies (forall|j: int|
                        0 <= j < i + 1 ==> (#[trigger] out@[j])@ == avs[j]) by {
                        let docs = avs.map_values(|a2: AlternativeV| alternative_jsonv(a2));
                        assert(docs[i as int] == alternative_jsonv(avs[i as int]));
                        assert(items@[i as int]@ == alternative_jsonv(avs[i as int]));
                        assert(alternative_in_range(avs[i as int]));
                    }
                }
            },
            None => {
                proof {
                    assert forall|avs: Seq<AlternativeV>| !alts_doc_match(v@, avs) by {
                        if alts_doc_match(v@, avs) {
                            let docs = avs.map_values(|a2: AlternativeV| alternative_jsonv(a2));
                            assert(docs[i as int] == alternative_jsonv(avs[i as int]));
                            assert(items@[i as int]@ == alternative_jsonv(avs[i as int]));
                            assert(alternative_in_range(avs[i as int]));
                        }
                    }
                }
                return None;
            },
        }
        i += 1;
    }
    let r = Some(out);
    proof {
        assert forall|avs: Seq<AlternativeV>| #[trigger] alts_doc_match(v@, avs) implies (r
            matches Some(o) && crate::message::alternatives_view(o@) == avs) by {
            let o = r->Some_0;
            let docs = avs.map_values(|a2: AlternativeV| alternative_jsonv(a2));
            assert(docs.len() == avs.len());
            assert(o@.len() == avs.len());
            assert(crate::message::alternatives_view(o@) =~= avs);
        }
    }
    r
}

/// Parse an interpretation object.  The document of an in-range
/// interpretation gives it back.
fn interpretation_from_json(v: &JsonValue) -> (r: Option<Interpretation>)
    ensures
        r matches Some(it) ==> it.confidence <= crate::confidence::SCALE,
        forall|iv: crate::message::InterpretationV|
            (iv.confidence <= crate::confidence::SCALE && v@ == #[trigger] interp_jsonv(iv)) ==> (
            r matches Some(it) && it@ == iv),
{
    let pairs = match v {
        JsonValue::Obj(pairs) => pairs,
        _ => {
            proof {
                assert forall|iv: crate::message::InterpretationV|
                    !(iv.confidence <= crate::confidence::SCALE && v@ == #[trigger] interp_jsonv(
                        iv,
                    )) by {
                    lemma_interp_jsonv_lookup(iv);
                }
            }
            return None;
        },
    };
    let text = match obj_get(pairs, "text") {
        Some(JsonValue::Str(t)) => t.clone(),
        _ => {
            proof {
                assert forall|iv: crate::message::InterpretationV|
                    !(iv.confidence <= crate::confidence::SCALE && v@ == #[trigger] interp_jsonv(
                        iv,
                    )) by {
                    lemma_interp_jsonv_lookup(iv);
                }
            }
            return None;
        },
    };
    let confidence = match obj_get(pairs, "confidence") {
        Some(JsonValue::Num(n)) => match confidence_from_num(*n) {
            Some(c) => c,
            None => {
                proof {
                    assert forall|iv: crate::message::InterpretationV|
                        !(iv.confidence <= crate::confidence::SCALE && v@
                            == #[trigger] interp_jsonv(iv)) by {
                        lemma_interp_jsonv_lookup(iv);
                    }
                }
                return None;
            },
        },
        _ => {
            proof {
                assert forall|iv: crate::message::InterpretationV|
                    !(iv.confidence <= crate::confidence::SCALE && v@ == #[trigger] interp_jsonv(
                        iv,
                    )) by {
                    lemma_interp_jsonv_lookup(iv);
                }
            }
            return None;
        },
    };
    let r = Some(Interpretation { text, confidence });
    proof {
        assert forall|iv: crate::message::InterpretationV|
            (iv.confidence <= crate::confidence::SCALE && v@ == #[trigger] interp_jsonv(iv))
            implies (r matches Some(it) && it@ == iv) by {
            lemma_interp_jsonv_lookup(iv);
        }
    }
    r
}

/// Parse a responder object.  The document of a responder gives it back.
fn responder_from_json(v: &JsonValue) -> (r: Option<Responder>)
    ensures
        forall|rdv: crate::message::ResponderV|
            v@ == #[trigger] responder_jsonv(rdv) ==> (r matches Some(rd) && rd@ == rdv),
{
    let pairs = match v {
        JsonValue::Obj(pairs) => pairs,
        _ => {
            proof {
                assert forall|rdv: crate::message::ResponderV| v@ != #[trigger] responder_jsonv(
                    rdv,
                ) by {
                    lemma_responder_jsonv_lookup(rdv);
                }
            }
            return None;
        },
    };
    let id = match obj_get(pairs, "id") {
        Some(JsonValue::Str(t)) => t.clone(),
        _ => {
            proof {
                assert forall|rdv: crate::message::ResponderV| v@ != #[trigger] responder_jsonv(
                    rdv,
                ) by {
                    lemma_responder_jsonv_lookup(rdv);
                }
            }
            return None;
        },
    };
    let capabilities = match obj_get(pairs, "capabilities") {
        Some(cv) => match strings_from_json(cv) {
            Some(caps) => caps,
            None => {
                proof {
                    assert forall|rdv: crate::message::ResponderV| v@
                        != #[trigger] responder_jsonv(rdv) by {
                        lemma_responder_jsonv_lookup(rdv);
                    }
                }
                return None;
            },
        },
        None => {
            proof {
                assert forall|rdv: crate::message::ResponderV| v@ != #[trigger] responder_jsonv(
                    rdv,
                ) by {
                    lemma_responder_jsonv_lookup(rdv);
                }
            }
            return None;
        },
    };
    let r = Some(Responder { id, capabilities });
    proof {
        assert forall|rdv: crate::message::ResponderV|
            v@ == #[trigger] responder_jsonv(rdv) implies (r matches Some(rd) && rd@ == rdv) by {
            lemma_responder_jsonv_lookup(rdv);
        }
    }
    r
}

/// The four wire names of actions are pairwise distinct.
proof fn lemma_action_strs_distinct()
    ensures
        "EXECUTE"@.len() == 7,
        "CLARIFY"@.len() == 7,
        "PROPOSE"@.len() == 7,
        "REFUSE"@.len() == 6,
        "EXECUTE"@ != "CLARIFY"@,
        "EXECUTE"@ != "PROPOSE"@,
        "CLARIFY"@ != "PROPOSE"@,
{
    reveal_strlit("EXECUTE");
    reveal_strlit("CLARIFY");
    reveal_strlit("PROPOSE");
    reveal_strlit("REFUSE");
    assert("EXECUTE"@[0] == 'E' && "CLARIFY"@[0] == 'C' && "PROPOSE"@[0] == 'P');
}

/// Parse a response from its wire text.  Unknown fields are ignored, per
/// the client's permissive stance; required fields must be present and
/// well typed.  A parsed response is well formed, and parsing the
/// canonical text of a wire-ready response gives the response back.
#[verifier::rlimit(100)]
pub fn parse_response(s: &str) -> (r: Option<Response>)
    ensures
        r matches Some(resp) ==> crate::message::valid_response(resp),
        forall|rv: ResponseV|
            (response_wire_wf(rv) && s@ == crate::jsonser::ser_json(#[trigger] resp_jsonv(rv)))
                ==> (r matches Some(resp) && resp@ == rv),
{
    let doc = match crate::jsonparse::parse_json(s) {
        Some(d) => d,
        None => {
            proof {
                assert forall|rv: ResponseV|
                    !(response_wire_wf(rv) && s@ == crate::jsonser::ser_json(
                        #[trigger] resp_jsonv(rv),
                    )) by {
                    if response_wire_wf(rv) && s@ == crate::jsonser::ser_json(resp_jsonv(rv)) {
                        lemma_serialized_response_parses(rv, s@);
                    }
                }
            }
            return None;
        },
    };
    let pairs = match &doc {
        JsonValue::Obj(pairs) => pairs,
        _ => {
            proof {
                assert forall|rv: ResponseV|
                    !(response_wire_wf(rv) && s@ == crate::jsonser::ser_json(
                        #[trigger] resp_jsonv(rv),
                    )) by {
                    if response_wire_wf(rv) && s@ == crate::jsonser::ser_json(resp_jsonv(rv)) {
                        lemma_serialized_response_parses(rv, s@);
                        lemma_resp_jsonv_lookup(rv);
                    }
                }
            }
            return None;
        },
    };
    let action = match obj_get(pairs, "action") {
        Some(JsonValue::Str(t)) => {
            if crate::strutil::str_eq(t.as_str(), "EXECUTE") {
                Action::Execute
            } else if crate::strutil::str_eq(t.as_str(), "CLARIFY") {
                Action::Clarify
            } else if crate::strutil::str_eq(t.as_str(), "PROPOSE") {
                Action::Propose
            } else if crate::strutil::str_eq(t.as_str(), "REFUSE") {
                Action::Refuse
            } else {
                proof {
                    assert forall|rv: ResponseV|
                        !(response_wire_wf(rv) && s@ == crate::jsonser::ser_json(
                            #[trigger] resp_jsonv(rv),
                        )) by {
                        if response_wire_wf(rv) && s@ == crate::jsonser::ser_json(resp_jsonv(rv)) {
                            lemma_serialized_response_parses(rv, s@);
                            lemma_resp_jsonv_lookup(rv);
                            lemma_action_strs_distinct();
                        }
                    }
                }
                return None;
            }
        },
        _ => {
            proof {
                assert forall|rv: ResponseV|
                    !(response_wire_wf(rv) && s@ == crate::jsonser::ser_json(
                        #[trigger] resp_jsonv(rv),
                    )) by {
                    if response_wire_wf(rv) && s@ == crate::jsonser::ser_json(resp_jsonv(rv)) {
                        lemma_serialized_response_parses(rv, s@);
                        lemma_resp_jsonv_lookup(rv);
                    }
                }
            }
            return None;
        },
    };
    let action_metadata: Option<ActionMetadata> = match obj_get(pairs, "action_metadata") {
        Some(v) => match metadata_from_json(v) {
            Some(m) => Some(m),
            None => {
                proof {
                    assert forall|rv: ResponseV|
                        !(response_wire_wf(rv) && s@ == crate::jsonser::ser_json(
                            #[trigger] resp_jsonv(rv),
                        )) by {
                        if response_wire_wf(rv) && s@ == crate::jsonser::ser_json(resp_jsonv(rv)) {
                            lemma_serialized_response_parses(rv, s@);
                            lemma_resp_jsonv_lookup(rv);
                        }
                    }
                }
                return None;
            },
        },
        None => None,
    };
    let alternatives: Option<Vec<Alternative>> = match obj_get(pairs, "alternatives") {
        Some(av) => match alternatives_from_json(av) {
            Some(alts) => Some(alts),
            None => {
                proof {
                    assert forall|rv: ResponseV|
                        !(response_wire_wf(rv) && s@ == crate::jsonser::ser_json(
                            #[trigger] resp_jsonv(rv),
                        )) by {
                        if response_wire_wf(rv) && s@ == crate::jsonser::ser_json(resp_jsonv(rv)) {
                            lemma_serialized_response_parses(rv, s@);
                            lemma_resp_jsonv_lookup(rv);
                            match rv.alternatives {
                                Some(avs) => {
                                    assert(alts_doc_match(
                                        JsonV::Arr(
                                            avs.map_values(
                                                |a: AlternativeV| alternative_jsonv(a),
                                            ),
                                        ),
                                        avs,
                                    ));
                                },
                                None => {},
                            }
                        }
                    }
                }
                return None;
            },
        },
        None => None,
    };
    let confidence = match obj_get(pairs, "confidence") {
        Some(JsonValue::Num(n)) => match confidence_from_num(*n) {
            Some(c) => c,
            None => {
                proof {
                    assert forall|rv: ResponseV|
                        !(response_wire_wf(rv) && s@ == crate::jsonser::ser_json(
                            #[trigger] resp_jsonv(rv),
                        )) by {
                        if response_wire_wf(rv) && s@ == crate::jsonser::ser_json(resp_jsonv(rv)) {
                            lemma_serialized_response_parses(rv, s@);
                            lemma_resp_jsonv_lookup(rv);
                        }
                    }
                }
                return None;
            },
        },
        _ => {
            proof {
                assert forall|rv: ResponseV|
                    !(response_wire_wf(rv) && s@ == crate::jsonser::ser_json(
                        #[trigger] resp_jsonv(rv),
                    )) by {
                    if response_wire_wf(rv) && s@ == crate::jsonser::ser_json(resp_jsonv(rv)) {
                        lemma_serialized_response_parses(rv, s@);
                        lemma_resp_jsonv_lookup(rv);
                    }
                }
            }
            return None;
        },
    };
    let conversation_id = match obj_get(pairs, "conversation_id") {
        Some(JsonValue::Str(t)) => match parse_uuid(t.as_str()) {
            Some(u) => u,
            None => {
                proof {
                    assert forall|rv: ResponseV|
                        !(response_wire_wf(rv) && s@ == crate::jsonser::ser_json(
                            #[trigger] resp_jsonv(rv),
                        )) by {
                        if response_wire_wf(rv) && s@ == crate::jsonser::ser_json(resp_jsonv(rv)) {
                            lemma_serialized_response_parses(rv, s@);
                            lemma_resp_jsonv_lookup(rv);
                        }
                    }
                }
                return None;
            },
        },
        _ => {
            proof {
                assert forall|rv: ResponseV|
                    !(response_wire_wf(rv) && s@ == crate::jsonser::ser_json(
                        #[trigger] resp_jsonv(rv),
                    )) by {
                    if response_wire_wf(rv) && s@ == crate::jsonser::ser_json(resp_jsonv(rv)) {
                        lemma_serialized_response_parses(rv, s@);
                        lemma_resp_jsonv_lookup(rv);
                    }
                }
            }
            return None;
        },
    };
    let in_response_to = match obj_get(pairs, "in_response_to") {
        Some(JsonValue::Str(t)) => match parse_uuid(t.as_str()) {
            Some(u) => u,
            None => {
                proof {
                    assert forall|rv: ResponseV|
                        !(response_wire_wf(rv) && s@ == crate::jsonser::ser_json(
                            #[trigger] resp_jsonv(rv),
                        )) by {
                        if response_wire_wf(rv) && s@ == crate::jsonser::ser_json(resp_jsonv(rv)) {
                            lemma_serialized_response_parses(rv, s@);
                            lemma_resp_jsonv_lookup(rv);
                        }
                    }
                }
                return None;
            },
        },
        _ => {
            proof {
                assert forall|rv: ResponseV|
                    !(response_wire_wf(rv) && s@ == crate::jsonser::ser_json(
                        #[trigger] resp_jsonv(rv),
                    )) by {
                    if response_wire_wf(rv) && s@ == crate::jsonser::ser_json(resp_jsonv(rv)) {
                        lemma_serialized_response_parses(rv, s@);
                        lemma_resp_jsonv_lookup(rv);
                    }
                }
            }
            return None;
        },
    };
    let interpretation = match obj_get(pairs, "interpretation") {
        Some(v) => match interpretation_from_json(v) {
            Some(it) => it,
            None => {
                proof {
                    assert forall|rv: ResponseV|
                        !(response_wire_wf(rv) && s@ == crate::jsonser::ser_json(
                            #[trigger] resp_jsonv(rv),
                        )) by {
                        if response_wire_wf(rv) && s@ == crate::jsonser::ser_json(resp_jsonv(rv)) {
                            lemma_serialized_response_parses(rv, s@);
                            lemma_resp_jsonv_lookup(rv);
                        }
                    }
                }
                return None;
            },
        },
        None => {
            proof {
                assert forall|rv: ResponseV|
                    !(response_wire_wf(rv) && s@ == crate::jsonser::ser_json(
                        #[trigger] resp_jsonv(rv),
                    )) by {
                    if response_wire_wf(rv) && s@ == crate::jsonser::ser_json(resp_jsonv(rv)) {
                        lemma_serialized_response_parses(rv, s@);
                        lemma_resp_jsonv_lookup(rv);
                    }
                }
            }
            return None;
        },
    };
    let message_id = match obj_get(pairs, "message_id") {
        Some(JsonValue::Str(t)) => match parse_uuid(t.as_str()) {
            Some(u) => u,
            None => {
                proof {
                    assert forall|rv: ResponseV|
                        !(response_wire_wf(rv) && s@ == crate::jsonser::ser_json(
                            #[trigger] resp_jsonv(rv),
                        )) by {
                        if response_wire_wf(rv) && s@ == crate::jsonser::ser_json(resp_jsonv(rv)) {
                            lemma_serialized_response_parses(rv, s@);
                            lemma_resp_jsonv_lookup(rv);
                        }
                    }
                }
                return None;
            },
        },
        _ => {
            proof {
                assert forall|rv: ResponseV|
                    !(response_wire_wf(rv) && s@ == crate::jsonser::ser_json(
                        #[trigger] resp_jsonv(rv),
                    )) by {
                    if response_wire_wf(rv) && s@ == crate::jsonser::ser_json(resp_jsonv(rv)) {
                        lemma_serialized_response_parses(rv, s@);
                        lemma_resp_jsonv_lookup(rv);
                    }
                }
            }
            return None;
        },
    };
    let responder = match obj_get(pairs, "responder") {
        Some(v) => match responder_from_json(v) {
            Some(rd) => rd,
            None => {
                proof {
                    assert forall|rv: ResponseV|
                        !(response_wire_wf(rv) && s@ == crate::jsonser::ser_json(
                            #[trigger] resp_jsonv(rv),
                        )) by {
                        if response_wire_wf(rv) && s@ == crate::jsonser::ser_json(resp_jsonv(rv)) {
                            lemma_serialized_response_parses(rv, s@);
                            lemma_resp_jsonv_lookup(rv);
                        }
                    }
                }
                return None;
            },
        },
        None => {
            proof {
                assert forall|rv: ResponseV|
                    !(response_wire_wf(rv) && s@ == crate::jsonser::ser_json(
                        #[trigger] resp_jsonv(rv),
                    )) by {
                    if response_wire_wf(rv) && s@ == crate::jsonser::ser_json(resp_jsonv(rv)) {
                        lemma_serialized_response_parses(rv, s@);
                        lemma_resp_jsonv_lookup(rv);
                    }
                }
            }
            return None;
        },
    };
    let timestamp = match obj_get(pairs, "timestamp") {
        Some(JsonValue::Str(t)) => match timestamp_from_str(t.as_str()) {
            Some(ms) => ms,
            None => {
                proof {
                    assert forall|rv: ResponseV|
                        !(response_wire_wf(rv) && s@ == crate::jsonser::ser_json(
                            #[trigger] resp_jsonv(rv),
                        )) by {
                        if response_wire_wf(rv) && s@ == crate::jsonser::ser_json(resp_jsonv(rv)) {
                            lemma_serialized_response_parses(rv, s@);
                            lemma_resp_jsonv_lookup(rv);
                        }
                    }
                }
                return None;
            },
        },
        _ => {
            proof {
                assert forall|rv: ResponseV|
                    !(response_wire_wf(rv) && s@ == crate::jsonser::ser_json(
                        #[trigger] resp_jsonv(rv),
                    )) by {
                    if response_wire_wf(rv) && s@ == crate::jsonser::ser_json(resp_jsonv(rv)) {
                        lemma_serialized_response_parses(rv, s@);
                        lemma_resp_jsonv_lookup(rv);
                    }
                }
            }
            return None;
        },
    };
    let r = Some(
        Response {
            message_id,
            in_response_to,
            conversation_id,
            timestamp,
            responder,
            interpretation,
            action,
            action_metadata,
            alternatives,
            confidence,
        },
    );
    proof {
        assert forall|rv: ResponseV|
            (response_wire_wf(rv) && s@ == crate::jsonser::ser_json(#[trigger] resp_jsonv(rv)))
            implies (r matches Some(resp) && resp@ == rv) by {
            lemma_serialized_response_parses(rv, s@);
            lemma_resp_jsonv_lookup(rv);
            lemma_action_strs_distinct();
            match rv.action {
                Action::Execute => {
                    assert(spec_action_str(rv.action) == "EXECUTE"@);
                },
                Action::Clarify => {
                    assert(spec_action_str(rv.action) == "CLARIFY"@);
                },
                Action::Propose => {
                    assert(spec_action_str(rv.action) == "PROPOSE"@);
                },
                Action::Refuse => {
                    assert(spec_action_str(rv.action) == "REFUSE"@);
                },
            }
            assert(action == rv.action);
            assert(confidence == rv.confidence);
            assert(conversation_id == rv.conversation_id);
            assert(in_response_to == rv.in_response_to);
            assert(message_id == rv.message_id);
            assert(timestamp == rv.timestamp);
            assert(interpretation@ == rv.interpretation);
            assert(responder@ == rv.responder);
            match rv.action_metadata {
                Some(mv) => {
                    assert(action_metadata matches Some(m) && m@ == mv);
                },
                None => {
                    assert(action_metadata is None);
                },
            }
            match rv.alternatives {
                Some(avs) => {
                    assert(alts_doc_match(
                        JsonV::Arr(avs.map_values(|a: AlternativeV| alternative_jsonv(a))),
                        avs,
                    ));
                    assert(alternatives matches Some(alts)
                        && crate::message::alternatives_view(alts@) == avs);
                },
                None => {
                    assert(alternatives is None);
                },
            }
        }
    }
    r
}



/// Powers of sixteen.
pub open spec fn pow16(n: int) -> int
    decreases n,
{
    if n <= 0 {
        1
    } else {
        16 * pow16(n - 1)
    }
}

/// Powers of sixteen are positive.
pub proof fn lemma_pow16_pos(n: int)
    ensures
        pow16(n) >= 1,
    decreases n,
{
    if n > 0 {
        lemma_pow16_pos(n - 1);
    }
}

/// Every value fits below the 32-digit bound.
pub proof fn lemma_pow16_32()
    ensures
        pow16(32) == 0x1_0000_0000_0000_0000_0000_0000_0000_0000,
    decreases 32int,
{
    assert(pow16(0) == 1);
    assert(pow16(1) == 16);
    assert(pow16(2) == 0x100);
    assert(pow16(3) == 0x1000);
    assert(pow16(4) == 0x1_0000);
    assert(pow16(5) == 0x10_0000);
    assert(pow16(6) == 0x100_0000);
    assert(pow16(7) == 0x1000_0000);
    assert(pow16(8) == 0x1_0000_0000);
    assert(pow16(9) == 0x10_0000_0000);
    assert(pow16(10) == 0x100_0000_0000);
    assert(pow16(11) == 0x1000_0000_0000);
    assert(pow16(12) == 0x1_0000_0000_0000);
    assert(pow16(13) == 0x10_0000_0000_0000);
    assert(pow16(14) == 0x100_0000_0000_0000);
    assert(pow16(15) == 0x1000_0000_0000_0000);
    assert(pow16(16) == 0x1_0000_0000_0000_0000);
    assert(pow16(17) == 0x10_0000_0000_0000_0000);
    assert(pow16(18) == 0x100_0000_0000_0000_0000);
    assert(pow16(19) == 0x1000_0000_0000_0000_0000);
    assert(pow16(20) == 0x1_0000_0000_0000_0000_0000);
    assert(pow16(21) == 0x10_0000_0000_0000_0000_0000);
    assert(pow16(22) == 0x100_0000_0000_0000_0000_0000);
    assert(pow16(23) == 0x1000_0000_0000_0000_0000_0000);
    assert(pow16(24) == 0x1_0000_0000_0000_0000_0000_0000);
    assert(pow16(25) == 0x10_0000_0000_0000_0000_0000_0000);
    assert(pow16(26) == 0x100_0000_0000_0000_0000_0000_0000);
    assert(pow16(27) == 0x1000_0000_0000_0000_0000_0000_0000);
    assert(pow16(28) == 0x1_0000_0000_0000_0000_0000_0000_0000);
    assert(pow16(29) == 0x10_0000_0000_0000_0000_0000_0000_0000);
    assert(pow16(30) == 0x100_0000_0000_0000_0000_0000_0000_0000);
    assert(pow16(31) == 0x1000_0000_0000_0000_0000_0000_0000_0000);
}

/// The digit of `hex_pad(n, width)` at position `j` is the base-16 digit
/// of `n` at place `width - 1 - j`.
pub proof fn lemma_hex_pad_index(n: int, width: int, j: int)
    requires
        n >= 0,
        width >= 1,
        0 <= j < width,
    ensures
        hex_pad(n, width).len() == width,
        hex_pad(n, width)[j] == hex_digit_char((n / pow16(width - 1 - j)) % 16),
    decreases width,
{
    lemma_hex_pad_len(n, width);
    if width == 1 {
        assert(pow16(0) == 1);
        assert(n / 1 == n);
    } else {
        lemma_hex_pad_len(n / 16, width - 1);
        assert(hex_pad(n, width) == hex_pad(n / 16, width - 1) + seq![hex_digit_char(n % 16)]);
        if j < width - 1 {
            lemma_hex_pad_index(n / 16, width - 1, j);
            assert(hex_pad(n, width)[j] == hex_pad(n / 16, width - 1)[j]);
            assert(pow16(width - 1 - j) == pow16(width - 2 - j) * 16);
            lemma_pow16_pos(width - 2 - j);
            vstd::arithmetic::div_mod::lemma_div_denominator(n, 16, pow16(width - 2 - j));
            assert((n / 16) / pow16(width - 2 - j) == n / (16 * pow16(width - 2 - j)));
        } else {
            assert(hex_pad(n, width)[j] == hex_digit_char(n % 16));
            assert(pow16(0) == 1);
        }
    }
}

/// The numeric value of a lowercase hex digit character.
pub open spec fn uuid_hex_val(c: char) -> int {
    crate::jsonparse::hex_val(c)
}

/// The value accumulated over the first `k` digits of a 32-digit
/// rendering, read most significant first.
pub proof fn lemma_hex_prefix_value(n: int, width: int, k: int, acc: int)
    requires
        0 <= n < pow16(width),
        0 <= k <= width,
        acc == n / pow16(width - k),
    ensures
        k < width ==> acc * 16 + uuid_hex_val(hex_pad(n, width)[k]) == n / pow16(width - k - 1),
{
    if k < width {
        lemma_hex_pad_index(n, width, k);
        let d = (n / pow16(width - 1 - k)) % 16;
        assert(0 <= d < 16);
        assert(uuid_hex_val(hex_digit_char(d)) == d);
        lemma_pow16_pos(width - k - 1);
        assert(pow16(width - k) == 16 * pow16(width - k - 1));
        vstd::arithmetic::div_mod::lemma_div_denominator(n, pow16(width - k - 1), 16);
        assert((n / pow16(width - k - 1)) / 16 == n / (pow16(width - k - 1) * 16));
        let x = n / pow16(width - k - 1);
        vstd::arithmetic::div_mod::lemma_fundamental_div_mod(x, 16);
        assert(x == 16 * (x / 16) + x % 16);
        assert(acc == x / 16);
    }
}

/// Where the hyphens sit in a hyphenated UUID, and which rendering digit
/// each other position carries.
pub open spec fn uuid_digit_index(i: int) -> int {
    if i < 8 {
        i
    } else if i < 13 {
        i - 1
    } else if i < 18 {
        i - 2
    } else if i < 23 {
        i - 3
    } else {
        i - 4
    }
}

/// The characters of a hyphenated UUID rendering: hyphens at the four
/// fixed positions, rendering digits elsewhere.
pub proof fn lemma_uuid_str_chars(u: u128)
    ensures
        uuid_str(u).len() == 36,
        forall|i: int|
            0 <= i < 36 && (i == 8 || i == 13 || i == 18 || i == 23) ==> #[trigger] uuid_str(u)[i]
                == '-',
        forall|i: int|
            0 <= i < 36 && !(i == 8 || i == 13 || i == 18 || i == 23) ==> #[trigger] uuid_str(u)[i]
                == hex_pad(u as int, 32)[uuid_digit_index(i)],
{
    lemma_hex_pad_len(u as int, 32);
    let h = hex_pad(u as int, 32);
    assert forall|i: int| 0 <= i < 36 && (i == 8 || i == 13 || i == 18 || i == 23) implies
        #[trigger] uuid_str(u)[i] == '-' by {}
    assert forall|i: int| 0 <= i < 36 && !(i == 8 || i == 13 || i == 18 || i == 23) implies
        #[trigger] uuid_str(u)[i] == h[uuid_digit_index(i)] by {}
}


/// The eleven wire keys of a request: their lengths, and the inequalities
/// among the equal-length pairs.
proof fn lemma_request_keys_distinct()
    ensures
        "confidence"@.len() == 10,
        "constraints"@.len() == 11,
        "context"@.len() == 7,
        "conversation_id"@.len() == 15,
        "in_response_to"@.len() == 14,
        "intent"@.len() == 6,
        "message_id"@.len() == 10,
        "protocol_version"@.len() == 16,
        "sender"@.len() == 6,
        "signature"@.len() == 9,
        "timestamp"@.len() == 9,
        "confidence"@ != "message_id"@,
        "intent"@ != "sender"@,
        "signature"@ != "timestamp"@,
{
    reveal_strlit("confidence");
    reveal_strlit("constraints");
    reveal_strlit("context");
    reveal_strlit("conversation_id");
    reveal_strlit("in_response_to");
    reveal_strlit("intent");
    reveal_strlit("message_id");
    reveal_strlit("protocol_version");
    reveal_strlit("sender");
    reveal_strlit("signature");
    reveal_strlit("timestamp");
    assert("confidence"@[0] == 'c' && "message_id"@[0] == 'm');
    assert("intent"@[0] == 'i' && "sender"@[0] == 's');
    assert("signature"@[0] == 's' && "timestamp"@[0] == 't');
}

/// What a request model looks up to under each of its wire keys, with the
/// optional members present exactly when their fields are.
#[verifier::rlimit(100)]
proof fn lemma_req_jsonv_lookup(rv: RequestV)
    ensures
        req_jsonv(rv, true) matches JsonV::Obj(ms) && {
            &&& obj_lookup(ms, "confidence"@) == Some(JsonV::Num(rv.confidence as i64))
            &&& obj_lookup(ms, "constraints"@) == match rv.constraints {
                Some(c) => Some(constraints_jsonv(c)),
                None => None,
            }
            &&& obj_lookup(ms, "context"@) == Some(context_jsonv(rv.context))
            &&& obj_lookup(ms, "conversation_id"@) == Some(
                JsonV::Str(uuid_str(rv.conversation_id)),
            )
            &&& obj_lookup(ms, "in_response_to"@) == match rv.in_response_to {
                Some(u) => Some(JsonV::Str(uuid_str(u))),
                None => None,
            }
            &&& obj_lookup(ms, "intent"@) == Some(JsonV::Str(rv.intent))
            &&& obj_lookup(ms, "message_id"@) == Some(JsonV::Str(uuid_str(rv.message_id)))
            &&& obj_lookup(ms, "protocol_version"@) == Some(JsonV::Str(rv.protocol_version))
            &&& obj_lookup(ms, "sender"@) == Some(sender_jsonv(rv.sender))
            &&& obj_lookup(ms, "signature"@) == match rv.signature {
                Some(t) => Some(JsonV::Str(t)),
                None => None,
            }
            &&& obj_lookup(ms, "timestamp"@) == Some(JsonV::Str(rfc3339_of(rv.timestamp)))
            &&& forall|i: int|
                0 <= i < ms.len() ==> ((#[trigger] ms[i]).0 == "confidence"@ || ms[i].0
                    == "constraints"@ || ms[i].0 == "context"@ || ms[i].0 == "conversation_id"@
                    || ms[i].0 == "in_response_to"@ || ms[i].0 == "intent"@ || ms[i].0
                    == "message_id"@ || ms[i].0 == "protocol_version"@ || ms[i].0 == "sender"@
                    || ms[i].0 == "signature"@ || ms[i].0 == "timestamp"@)
        },
{
    lemma_request_keys_distinct();
    let ms = (req_jsonv(rv, true))->Obj_0;
    let c1: int = if rv.constraints is Some { 1 } else { 0 };
    let c2: int = if rv.in_response_to is Some { 1 } else { 0 };
    let c3: int = if rv.signature is Some { 1 } else { 0 };
    assert(ms.len() == 8 + c1 + c2 + c3);
    assert(ms[0] == ("confidence"@, JsonV::Num(rv.confidence as i64)));
    if rv.constraints is Some {
        assert(ms[1] == ("constraints"@, constraints_jsonv(rv.constraints->Some_0)));
    }
    assert(ms[1 + c1] == ("context"@, context_jsonv(rv.context)));
    assert(ms[2 + c1] == ("conversation_id"@, JsonV::Str(uuid_str(rv.conversation_id))));
    if rv.in_response_to is Some {
        assert(ms[3 + c1] == ("in_response_to"@, JsonV::Str(uuid_str(rv.in_response_to->Some_0))));
    }
    assert(ms[3 + c1 + c2] == ("intent"@, JsonV::Str(rv.intent)));
    assert(ms[4 + c1 + c2] == ("message_id"@, JsonV::Str(uuid_str(rv.message_id))));
    assert(ms[5 + c1 + c2] == ("protocol_version"@, JsonV::Str(rv.protocol_version)));
    assert(ms[6 + c1 + c2] == ("sender"@, sender_jsonv(rv.sender)));
    if rv.signature is Some {
        assert(ms[7 + c1 + c2] == ("signature"@, JsonV::Str(rv.signature->Some_0)));
    }
    assert(ms[7 + c1 + c2 + c3] == ("timestamp"@, JsonV::Str(rfc3339_of(rv.timestamp))));
    assert forall|i: int| 0 <= i < ms.len() implies ((#[trigger] ms[i]).0 == "confidence"@
        || ms[i].0 == "constraints"@ || ms[i].0 == "context"@ || ms[i].0 == "conversation_id"@
        || ms[i].0 == "in_response_to"@ || ms[i].0 == "intent"@ || ms[i].0 == "message_id"@
        || ms[i].0 == "protocol_version"@ || ms[i].0 == "sender"@ || ms[i].0 == "signature"@
        || ms[i].0 == "timestamp"@) by {}
    lemma_obj_lookup_at(ms, "confidence"@, 0);
    match rv.constraints {
        Some(_) => {
            lemma_obj_lookup_at(ms, "constraints"@, 1);
        },
        None => {
            lemma_obj_lookup_none(ms, "constraints"@);
        },
    }
    lemma_obj_lookup_at(ms, "context"@, 1 + c1);
    lemma_obj_lookup_at(ms, "conversation_id"@, 2 + c1);
    match rv.in_response_to {
        Some(_) => {
            lemma_obj_lookup_at(ms, "in_response_to"@, 3 + c1);
        },
        None => {
            lemma_obj_lookup_none(ms, "in_response_to"@);
        },
    }
    lemma_obj_lookup_at(ms, "intent"@, 3 + c1 + c2);
    lemma_obj_lookup_at(ms, "message_id"@, 4 + c1 + c2);
    lemma_obj_lookup_at(ms, "protocol_version"@, 5 + c1 + c2);
    lemma_obj_lookup_at(ms, "sender"@, 6 + c1 + c2);
    match rv.signature {
        Some(_) => {
            lemma_obj_lookup_at(ms, "signature"@, 7 + c1 + c2);
        },
        None => {
            lemma_obj_lookup_none(ms, "signature"@);
        },
    }
    lemma_obj_lookup_at(ms, "timestamp"@, 7 + c1 + c2 + c3);
}


/// A sender document is well formed.
proof fn lemma_sender_jsonv_wf(sv: crate::message::SenderV)
    ensures
        crate::jsonproof::json_wf(sender_jsonv(sv)),
{
    let ms = (sender_jsonv(sv))->Obj_0;
    assert(ms.len() == 2);
    assert(ms[0].1 == JsonV::Str(spec_auth_method_str(sv.auth_method)));
    assert(ms[1].1 == JsonV::Str(sv.id));
    assert forall|i: int| 0 <= i < 2 implies crate::jsonproof::json_wf((#[trigger] ms[i]).1) by {}
    crate::jsonproof::lemma_wf_obj_all(ms, 2);
}

/// A context document is well formed.
proof fn lemma_context_jsonv_wf(cv: crate::message::ContextV)
    ensures
        crate::jsonproof::json_wf(context_jsonv(cv)),
{
    let ms = (context_jsonv(cv))->Obj_0;
    assert(ms.len() == 3);
    assert(ms[0].1 == JsonV::Str(cv.content));
    assert(ms[1].1 == JsonV::Str(cv.semantic_hash));
    assert(ms[2].1 == JsonV::Str(spec_context_type_str(cv.context_type)));
    assert forall|i: int| 0 <= i < 3 implies crate::jsonproof::json_wf((#[trigger] ms[i]).1) by {}
    crate::jsonproof::lemma_wf_obj_all(ms, 3);
}

/// A constraints document with in-range values is well formed.
proof fn lemma_constraints_jsonv_wf(cv: crate::message::ConstraintsV)
    requires
        cv.max_cost matches Some(mc) ==> mc <= 0x7fff_ffff_ffff_ffffu64,
        cv.timeout_ms matches Some(t) ==> t <= 9_223_372_036_854u64,
    ensures
        crate::jsonproof::json_wf(constraints_jsonv(cv)),
{
    let ms = (constraints_jsonv(cv))->Obj_0;
    let d1: int = if cv.max_cost is Some { 1 } else { 0 };
    let d2: int = if cv.privacy is Some { 1 } else { 0 };
    let d3: int = if cv.timeout_ms is Some { 1 } else { 0 };
    assert(ms.len() == d1 + d2 + d3);
    if cv.max_cost is Some {
        assert(ms[0].1 == JsonV::Num(cv.max_cost->Some_0 as i64));
    }
    if cv.privacy is Some {
        assert(ms[d1].1 == JsonV::Str(cv.privacy->Some_0));
    }
    if cv.timeout_ms is Some {
        let t = cv.timeout_ms->Some_0;
        assert(t * 1_000_000 <= 9_223_372_036_854_000_000) by (nonlinear_arith)
            requires
                t <= 9_223_372_036_854u64,
        ;
        assert(ms[d1 + d2].1 == JsonV::Num((t * 1_000_000) as i64));
    }
    assert forall|i: int| 0 <= i < ms.len() implies crate::jsonproof::json_wf((
    #[trigger] ms[i]).1) by {
        if cv.timeout_ms is Some && i == d1 + d2 {
            let t = cv.timeout_ms->Some_0;
            assert(t * 1_000_000 <= 9_223_372_036_854_000_000) by (nonlinear_arith)
                requires
                    t <= 9_223_372_036_854u64,
            ;
        }
    }
    crate::jsonproof::lemma_wf_obj_all(ms, ms.len() as int);
}

/// A serializable request's document is well formed.
proof fn lemma_req_jsonv_wf(rv: RequestV)
    requires
        serializable_request(rv),
    ensures
        crate::jsonproof::json_wf(req_jsonv(rv, true)),
{
    let ms = (req_jsonv(rv, true))->Obj_0;
    let c1: int = if rv.constraints is Some { 1 } else { 0 };
    let c2: int = if rv.in_response_to is Some { 1 } else { 0 };
    let c3: int = if rv.signature is Some { 1 } else { 0 };
    assert(ms.len() == 8 + c1 + c2 + c3);
    assert(ms[0].1 == JsonV::Num(rv.confidence as i64));
    if rv.constraints is Some {
        assert(ms[1].1 == constraints_jsonv(rv.constraints->Some_0));
        lemma_constraints_jsonv_wf(rv.constraints->Some_0);
    }
    assert(ms[1 + c1].1 == context_jsonv(rv.context));
    lemma_context_jsonv_wf(rv.context);
    assert(ms[2 + c1].1 == JsonV::Str(uuid_str(rv.conversation_id)));
    if rv.in_response_to is Some {
        assert(ms[3 + c1].1 == JsonV::Str(uuid_str(rv.in_response_to->Some_0)));
    }
    assert(ms[3 + c1 + c2].1 == JsonV::Str(rv.intent));
    assert(ms[4 + c1 + c2].1 == JsonV::Str(uuid_str(rv.message_id)));
    assert(ms[5 + c1 + c2].1 == JsonV::Str(rv.protocol_version));
    assert(ms[6 + c1 + c2].1 == sender_jsonv(rv.sender));
    lemma_sender_jsonv_wf(rv.sender);
    if rv.signature is Some {
        assert(ms[7 + c1 + c2].1 == JsonV::Str(rv.signature->Some_0));
    }
    assert(ms[7 + c1 + c2 + c3].1 == JsonV::Str(rfc3339_of(rv.timestamp)));
    assert forall|i: int| 0 <= i < ms.len() implies crate::jsonproof::json_wf((
    #[trigger] ms[i]).1) by {}
    crate::jsonproof::lemma_wf_obj_all(ms, ms.len() as int);
}

/// The canonical text of a serializable request parses back to its
/// document.
proof fn lemma_serialized_request_parses(rv: RequestV, s: Seq<char>)
    requires
        serializable_request(rv),
        s == crate::jsonser::ser_json(req_jsonv(rv, true)),
    ensures
        crate::jsonparse::spec_parse_json(s) == Some(req_jsonv(rv, true)),
{
    lemma_req_jsonv_wf(rv);
    crate::jsonproof::lemma_json_round_trip(req_jsonv(rv, true));
}


/// What an interpretation model looks up to under its two keys.
proof fn lemma_interp_jsonv_lookup(iv: crate::message::InterpretationV)
    ensures
        interp_jsonv(iv) matches JsonV::Obj(ms) && obj_lookup(ms, "confidence"@) == Some(
            JsonV::Num(iv.confidence as i64),
        ) && obj_lookup(ms, "text"@) == Some(JsonV::Str(iv.text)),
{
    reveal_strlit("confidence");
    reveal_strlit("text");
    assert("confidence"@.len() == 10);
    assert("text"@.len() == 4);
    let ms = (interp_jsonv(iv))->Obj_0;
    assert(ms.len() == 2);
    assert(ms[0] == ("confidence"@, JsonV::Num(iv.confidence as i64)));
    assert(ms[1] == ("text"@, JsonV::Str(iv.text)));
    lemma_obj_lookup_at(ms, "confidence"@, 0);
    lemma_obj_lookup_at(ms, "text"@, 1);
}

/// What a responder model looks up to under its two keys.
proof fn lemma_responder_jsonv_lookup(rv: crate::message::ResponderV)
    ensures
        responder_jsonv(rv) matches JsonV::Obj(ms) && obj_lookup(ms, "capabilities"@) == Some(
            JsonV::Arr(strs_jsonv(rv.capabilities)),
        ) && obj_lookup(ms, "id"@) == Some(JsonV::Str(rv.id)),
{
    reveal_strlit("capabilities");
    reveal_strlit("id");
    assert("capabilities"@.len() == 12);
    assert("id"@.len() == 2);
    let ms = (responder_jsonv(rv))->Obj_0;
    assert(ms.len() == 2);
    assert(ms[0] == ("capabilities"@, JsonV::Arr(strs_jsonv(rv.capabilities))));
    assert(ms[1] == ("id"@, JsonV::Str(rv.id)));
    lemma_obj_lookup_at(ms, "capabilities"@, 0);
    lemma_obj_lookup_at(ms, "id"@, 1);
}

/// What an alternative model looks up to under its four keys, the cost
/// present exactly when its field is.
proof fn lemma_alternative_jsonv_lookup(av: AlternativeV)
    ensures
        alternative_jsonv(av) matches JsonV::Obj(ms) && {
            &&& obj_lookup(ms, "capability_id"@) == Some(JsonV::Str(av.capability_id))
            &&& obj_lookup(ms, "confidence"@) == Some(JsonV::Num(av.confidence as i64))
            &&& obj_lookup(ms, "estimated_cost"@) == match av.estimated_cost {
                Some(c) => Some(JsonV::Num(c as i64)),
                None => None,
            }
            &&& obj_lookup(ms, "interpretation"@) == Some(JsonV::Str(av.interpretation))
        },
{
    reveal_strlit("capability_id");
    reveal_strlit("confidence");
    reveal_strlit("estimated_cost");
    reveal_strlit("interpretation");
    assert("capability_id"@.len() == 13);
    assert("confidence"@.len() == 10);
    assert("estimated_cost"@.len() == 14);
    assert("interpretation"@.len() == 14);
    assert("estimated_cost"@[0] == 'e' && "interpretation"@[0] == 'i');
    let ms = (alternative_jsonv(av))->Obj_0;
    let d: int = if av.estimated_cost is Some { 1 } else { 0 };
    assert(ms.len() == 3 + d);
    assert(ms[0] == ("capability_id"@, JsonV::Str(av.capability_id)));
    assert(ms[1] == ("confidence"@, JsonV::Num(av.confidence as i64)));
    if av.estimated_cost is Some {
        assert(ms[2] == ("estimated_cost"@, JsonV::Num(av.estimated_cost->Some_0 as i64)));
    }
    assert(ms[2 + d] == ("interpretation"@, JsonV::Str(av.interpretation)));
    lemma_obj_lookup_at(ms, "capability_id"@, 0);
    lemma_obj_lookup_at(ms, "confidence"@, 1);
    match av.estimated_cost {
        Some(_) => {
            lemma_obj_lookup_at(ms, "estimated_cost"@, 2);
        },
        None => {
            lemma_obj_lookup_none(ms, "estimated_cost"@);
        },
    }
    lemma_obj_lookup_at(ms, "interpretation"@, 2 + d);
}

/// What a metadata model looks up to under its four keys, each present
/// exactly when its field is.
proof fn lemma_metadata_jsonv_lookup(mv: crate::message::ActionMetadataV)
    ensures
        metadata_jsonv(mv) matches JsonV::Obj(ms) && {
            &&& obj_lookup(ms, "questions"@) == match mv.questions {
                Some(qs) => Some(JsonV::Arr(strs_jsonv(qs))),
                None => None,
            }
            &&& obj_lookup(ms, "reason"@) == match mv.reason {
                Some(t) => Some(JsonV::Str(t)),
                None => None,
            }
            &&& obj_lookup(ms, "reason_code"@) == match mv.reason_code {
                Some(c) => Some(JsonV::Str(crate::error::spec_refusal_code_str(c))),
                None => None,
            }
            &&& obj_lookup(ms, "result"@) == mv.result
        },
{
    reveal_strlit("questions");
    reveal_strlit("reason");
    reveal_strlit("reason_code");
    reveal_strlit("result");
    assert("questions"@.len() == 9);
    assert("reason"@.len() == 6);
    assert("reason_code"@.len() == 11);
    assert("result"@.len() == 6);
    assert("reason"@[2] == 'a' && "result"@[2] == 's');
    let ms = (metadata_jsonv(mv))->Obj_0;
    let d1: int = if mv.questions is Some { 1 } else { 0 };
    let d2: int = if mv.reason is Some { 1 } else { 0 };
    let d3: int = if mv.reason_code is Some { 1 } else { 0 };
    let d4: int = if mv.result is Some { 1 } else { 0 };
    assert(ms.len() == d1 + d2 + d3 + d4);
    if mv.questions is Some {
        assert(ms[0] == ("questions"@, JsonV::Arr(strs_jsonv(mv.questions->Some_0))));
    }
    if mv.reason is Some {
        assert(ms[d1] == ("reason"@, JsonV::Str(mv.reason->Some_0)));
    }
    if mv.reason_code is Some {
        assert(ms[d1 + d2] == ("reason_code"@, JsonV::Str(
            crate::error::spec_refusal_code_str(mv.reason_code->Some_0),
        )));
    }
    if mv.result is Some {
        assert(ms[d1 + d2 + d3] == ("result"@, mv.result->Some_0));
    }
    match mv.questions {
        Some(_) => {
            lemma_obj_lookup_at(ms, "questions"@, 0);
        },
        None => {
            lemma_obj_lookup_none(ms, "questions"@);
        },
    }
    match mv.reason {
        Some(_) => {
            lemma_obj_lookup_at(ms, "reason"@, d1);
        },
        None => {
            lemma_obj_lookup_none(ms, "reason"@);
        },
    }
    match mv.reason_code {
        Some(_) => {
            lemma_obj_lookup_at(ms, "reason_code"@, d1 + d2);
        },
        None => {
            lemma_obj_lookup_none(ms, "reason_code"@);
        },
    }
    match mv.result {
        Some(_) => {
            lemma_obj_lookup_at(ms, "result"@, d1 + d2 + d3);
        },
        None => {
            lemma_obj_lookup_none(ms, "result"@);
        },
    }
}



/// The ten wire keys of a response: their lengths, and the inequalities
/// among the equal-length pairs.
proof fn lemma_response_keys_distinct()
    ensures
        "action"@.len() == 6,
        "action_metadata"@.len() == 15,
        "alternatives"@.len() == 12,
        "confidence"@.len() == 10,
        "conversation_id"@.len() == 15,
        "in_response_to"@.len() == 14,
        "interpretation"@.len() == 14,
        "message_id"@.len() == 10,
        "responder"@.len() == 9,
        "timestamp"@.len() == 9,
        "action_metadata"@ != "conversation_id"@,
        "in_response_to"@ != "interpretation"@,
        "confidence"@ != "message_id"@,
        "responder"@ != "timestamp"@,
{
    reveal_strlit("action");
    reveal_strlit("action_metadata");
    reveal_strlit("alternatives");
    reveal_strlit("confidence");
    reveal_strlit("conversation_id");
    reveal_strlit("in_response_to");
    reveal_strlit("interpretation");
    reveal_strlit("message_id");
    reveal_strlit("responder");
    reveal_strlit("timestamp");
    assert("action_metadata"@[0] == 'a' && "conversation_id"@[0] == 'c');
    assert("in_response_to"@[2] == '_' && "interpretation"@[2] == 't');
    assert("confidence"@[0] == 'c' && "message_id"@[0] == 'm');
    assert("responder"@[0] == 'r' && "timestamp"@[0] == 't');
}

/// What a response model looks up to under each of its wire keys, with the
/// optional members present exactly when their fields are.
#[verifier::rlimit(100)]
proof fn lemma_resp_jsonv_lookup(rv: ResponseV)
    ensures
        resp_jsonv(rv) matches JsonV::Obj(ms) && {
            &&& obj_lookup(ms, "action"@) == Some(JsonV::Str(spec_action_str(rv.action)))
            &&& obj_lookup(ms, "action_metadata"@) == match rv.action_metadata {
                Some(m) => Some(metadata_jsonv(m)),
                None => None,
            }
            &&& obj_lookup(ms, "alternatives"@) == match rv.alternatives {
                Some(alts) => Some(
                    JsonV::Arr(alts.map_values(|a: AlternativeV| alternative_jsonv(a))),
                ),
                None => None,
            }
            &&& obj_lookup(ms, "confidence"@) == Some(JsonV::Num(rv.confidence as i64))
            &&& obj_lookup(ms, "conversation_id"@) == Some(
                JsonV::Str(uuid_str(rv.conversation_id)),
            )
            &&& obj_lookup(ms, "in_response_to"@) == Some(JsonV::Str(uuid_str(rv.in_response_to)))
            &&& obj_lookup(ms, "interpretation"@) == Some(interp_jsonv(rv.interpretation))
            &&& obj_lookup(ms, "message_id"@) == Some(JsonV::Str(uuid_str(rv.message_id)))
            &&& obj_lookup(ms, "responder"@) == Some(responder_jsonv(rv.responder))
            &&& obj_lookup(ms, "timestamp"@) == Some(JsonV::Str(rfc3339_of(rv.timestamp)))
        },
{
    lemma_response_keys_distinct();
    let ms = (resp_jsonv(rv))->Obj_0;
    let e1: int = if rv.action_metadata is Some { 1 } else { 0 };
    let e2: int = if rv.alternatives is Some { 1 } else { 0 };
    assert(ms.len() == 8 + e1 + e2);
    assert(ms[0] == ("action"@, JsonV::Str(spec_action_str(rv.action))));
    if rv.action_metadata is Some {
        assert(ms[1] == ("action_metadata"@, metadata_jsonv(rv.action_metadata->Some_0)));
    }
    if rv.alternatives is Some {
        assert(ms[1 + e1] == ("alternatives"@, JsonV::Arr(
            rv.alternatives->Some_0.map_values(|a: AlternativeV| alternative_jsonv(a)),
        )));
    }
    assert(ms[1 + e1 + e2] == ("confidence"@, JsonV::Num(rv.confidence as i64)));
    assert(ms[2 + e1 + e2] == ("conversation_id"@, JsonV::Str(uuid_str(rv.conversation_id))));
    assert(ms[3 + e1 + e2] == ("in_response_to"@, JsonV::Str(uuid_str(rv.in_response_to))));
    assert(ms[4 + e1 + e2] == ("interpretation"@, interp_jsonv(rv.interpretation)));
    assert(ms[5 + e1 + e2] == ("message_id"@, JsonV::Str(uuid_str(rv.message_id))));
    assert(ms[6 + e1 + e2] == ("responder"@, responder_jsonv(rv.responder)));
    assert(ms[7 + e1 + e2] == ("timestamp"@, JsonV::Str(rfc3339_of(rv.timestamp))));
    lemma_obj_lookup_at(ms, "action"@, 0);
    match rv.action_metadata {
        Some(_) => {
            lemma_obj_lookup_at(ms, "action_metadata"@, 1);
        },
        None => {
            lemma_obj_lookup_none(ms, "action_metadata"@);
        },
    }
    match rv.alternatives {
        Some(_) => {
            lemma_obj_lookup_at(ms, "alternatives"@, 1 + e1);
        },
        None => {
            lemma_obj_lookup_none(ms, "alternatives"@);
        },
    }
    lemma_obj_lookup_at(ms, "confidence"@, 1 + e1 + e2);
    lemma_obj_lookup_at(ms, "conversation_id"@, 2 + e1 + e2);
    lemma_obj_lookup_at(ms, "in_response_to"@, 3 + e1 + e2);
    lemma_obj_lookup_at(ms, "interpretation"@, 4 + e1 + e2);
    lemma_obj_lookup_at(ms, "message_id"@, 5 + e1 + e2);
    lemma_obj_lookup_at(ms, "responder"@, 6 + e1 + e2);
    lemma_obj_lookup_at(ms, "timestamp"@, 7 + e1 + e2);
}

/// A response the wire can carry in full: serializable, and any embedded
/// execution result is itself a well-formed document.
pub open spec fn response_wire_wf(rv: ResponseV) -> bool {
    &&& serializable_response(rv)
    &&& (rv.action_metadata matches Some(m) ==> (m.result matches Some(j)
        ==> crate::jsonproof::json_wf(j)))
}

/// A string-array document is well formed.
proof fn lemma_strs_arr_wf(qs: Seq<Seq<char>>)
    ensures
        crate::jsonproof::json_wf(JsonV::Arr(strs_jsonv(qs))),
{
    assert(strs_jsonv(qs).len() == qs.len());
    assert forall|i: int| 0 <= i < qs.len() implies crate::jsonproof::json_wf(
        #[trigger] strs_jsonv(qs)[i],
    ) by {
        assert(strs_jsonv(qs)[i] == JsonV::Str(qs[i]));
    }
    crate::jsonproof::lemma_wf_arr_all(strs_jsonv(qs), qs.len() as int);
}

/// An interpretation document with an in-range confidence is well formed.
proof fn lemma_interp_jsonv_wf(iv: crate::message::InterpretationV)
    requires
        iv.confidence <= 0x7fff_ffff_ffff_ffffu64,
    ensures
        crate::jsonproof::json_wf(interp_jsonv(iv)),
{
    let ms = (interp_jsonv(iv))->Obj_0;
    assert(ms.len() == 2);
    assert(ms[0].1 == JsonV::Num(iv.confidence as i64));
    assert(ms[1].1 == JsonV::Str(iv.text));
    assert forall|i: int| 0 <= i < 2 implies crate::jsonproof::json_wf((#[trigger] ms[i]).1) by {}
    crate::jsonproof::lemma_wf_obj_all(ms, 2);
}

/// A responder document is well formed.
proof fn lemma_responder_jsonv_wf(rv: crate::message::ResponderV)
    ensures
        crate::jsonproof::json_wf(responder_jsonv(rv)),
{
    let ms = (responder_jsonv(rv))->Obj_0;
    assert(ms.len() == 2);
    assert(ms[0].1 == JsonV::Arr(strs_jsonv(rv.capabilities)));
    lemma_strs_arr_wf(rv.capabilities);
    assert(ms[1].1 == JsonV::Str(rv.id));
    assert forall|i: int| 0 <= i < 2 implies crate::jsonproof::json_wf((#[trigger] ms[i]).1) by {}
    crate::jsonproof::lemma_wf_obj_all(ms, 2);
}

/// An in-range alternative's document is well formed.
proof fn lemma_alternative_jsonv_wf(av: AlternativeV)
    requires
        alternative_in_range(av),
    ensures
        crate::jsonproof::json_wf(alternative_jsonv(av)),
{
    let ms = (alternative_jsonv(av))->Obj_0;
    let d: int = if av.estimated_cost is Some { 1 } else { 0 };
    assert(ms.len() == 3 + d);
    assert(ms[0].1 == JsonV::Str(av.capability_id));
    assert(ms[1].1 == JsonV::Num(av.confidence as i64));
    if av.estimated_cost is Some {
        assert(ms[2].1 == JsonV::Num(av.estimated_cost->Some_0 as i64));
    }
    assert(ms[2 + d].1 == JsonV::Str(av.interpretation));
    assert forall|i: int| 0 <= i < ms.len() implies crate::jsonproof::json_wf((
    #[trigger] ms[i]).1) by {}
    crate::jsonproof::lemma_wf_obj_all(ms, ms.len() as int);
}

/// A metadata document whose result is well formed is well formed.
proof fn lemma_metadata_jsonv_wf(mv: crate::message::ActionMetadataV)
    requires
        mv.result matches Some(j) ==> crate::jsonproof::json_wf(j),
    ensures
        crate::jsonproof::json_wf(metadata_jsonv(mv)),
{
    let ms = (metadata_jsonv(mv))->Obj_0;
    let d1: int = if mv.questions is Some { 1 } else { 0 };
    let d2: int = if mv.reason is Some { 1 } else { 0 };
    let d3: int = if mv.reason_code is Some { 1 } else { 0 };
    let d4: int = if mv.result is Some { 1 } else { 0 };
    assert(ms.len() == d1 + d2 + d3 + d4);
    if mv.questions is Some {
        assert(ms[0].1 == JsonV::Arr(strs_jsonv(mv.questions->Some_0)));
        lemma_strs_arr_wf(mv.questions->Some_0);
    }
    if mv.reason is Some {
        assert(ms[d1].1 == JsonV::Str(mv.reason->Some_0));
    }
    if mv.reason_code is Some {
        assert(ms[d1 + d2].1 == JsonV::Str(
            crate::error::spec_refusal_code_str(mv.reason_code->Some_0),
        ));
    }
    if mv.result is Some {
        assert(ms[d1 + d2 + d3].1 == mv.result->Some_0);
    }
    assert forall|i: int| 0 <= i < ms.len() implies crate::jsonproof::json_wf((
    #[trigger] ms[i]).1) by {}
    crate::jsonproof::lemma_wf_obj_all(ms, ms.len() as int);
}

/// A wire-ready response's document is well formed.
proof fn lemma_resp_jsonv_wf(rv: ResponseV)
    requires
        response_wire_wf(rv),
    ensures
        crate::jsonproof::json_wf(resp_jsonv(rv)),
{
    let ms = (resp_jsonv(rv))->Obj_0;
    let e1: int = if rv.action_metadata is Some { 1 } else { 0 };
    let e2: int = if rv.alternatives is Some { 1 } else { 0 };
    assert(ms.len() == 8 + e1 + e2);
    assert(ms[0].1 == JsonV::Str(spec_action_str(rv.action)));
    if rv.action_metadata is Some {
        assert(ms[1].1 == metadata_jsonv(rv.action_metadata->Some_0));
        lemma_metadata_jsonv_wf(rv.action_metadata->Some_0);
    }
    if rv.alternatives is Some {
        let alts = rv.alternatives->Some_0;
        let docs = alts.map_values(|a: AlternativeV| alternative_jsonv(a));
        assert(ms[1 + e1].1 == JsonV::Arr(docs));
        assert(docs.len() == alts.len());
        assert forall|k: int| 0 <= k < docs.len() implies crate::jsonproof::json_wf(
            #[trigger] docs[k],
        ) by {
            assert(docs[k] == alternative_jsonv(alts[k]));
            assert(alts[k].confidence <= crate::confidence::SCALE && (alts[k].estimated_cost
                matches Some(c) ==> c <= 0x7fff_ffff_ffff_ffffu64));
            lemma_alternative_jsonv_wf(alts[k]);
        }
        crate::jsonproof::lemma_wf_arr_all(docs, docs.len() as int);
    }
    assert(ms[1 + e1 + e2].1 == JsonV::Num(rv.confidence as i64));
    assert(ms[2 + e1 + e2].1 == JsonV::Str(uuid_str(rv.conversation_id)));
    assert(ms[3 + e1 + e2].1 == JsonV::Str(uuid_str(rv.in_response_to)));
    assert(ms[4 + e1 + e2].1 == interp_jsonv(rv.interpretation));
    lemma_interp_jsonv_wf(rv.interpretation);
    assert(ms[5 + e1 + e2].1 == JsonV::Str(uuid_str(rv.message_id)));
    assert(ms[6 + e1 + e2].1 == responder_jsonv(rv.responder));
    lemma_responder_jsonv_wf(rv.responder);
    assert(ms[7 + e1 + e2].1 == JsonV::Str(rfc3339_of(rv.timestamp)));
    assert forall|i: int| 0 <= i < ms.len() implies crate::jsonproof::json_wf((
    #[trigger] ms[i]).1) by {}
    crate::jsonproof::lemma_wf_obj_all(ms, ms.len() as int);
}

/// The canonical text of a wire-ready response parses back to its
/// document.
proof fn lemma_serialized_response_parses(rv: ResponseV, s: Seq<char>)
    requires
        response_wire_wf(rv),
        s == crate::jsonser::ser_json(resp_jsonv(rv)),
    ensures
        crate::jsonparse::spec_parse_json(s) == Some(resp_jsonv(rv)),
{
    lemma_resp_jsonv_wf(rv);
    crate::jsonproof::lemma_json_round_trip(resp_jsonv(rv));
}

} // verus!
