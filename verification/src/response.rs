//! The response adapter: turns an execution outcome, or a pipeline-level
//! failure, into an HTTP status and a serialized JSON body. Outcomes
//! produced by the execution engine - partial success included - map to
//! status 200; extraction, parse and validation failures map to 400.

use vstd::prelude::*;
use crate::ast::Pos;
use crate::context::ValidationError;
use crate::extract::ExtractionError;
use crate::json::JsonV;
use crate::json::JsonValue;
use crate::json::elem_views;
use crate::json::json_text;
use crate::json::lemma_elem_views;
use crate::json::lemma_member_views;
use crate::json::member_views;
use crate::json::to_json_text;
use crate::visitor::FragmentCycle;

verus! {

/// One error reported by the execution engine or a resolver: a message
/// and source locations.
pub struct ServerError {
    pub message: String,
    pub locations: Vec<Pos>,
}

/// What the execution engine hands back: a data value and a list of
/// errors. Both may be meaningful at once - partial success is legal.
pub struct ExecutionOutcome {
    pub data: JsonValue,
    pub errors: Vec<ServerError>,
}

/// An HTTP response as plain values: status code and serialized body.
pub struct HttpResponseModel {
    pub status: u16,
    pub body: String,
}

/// The JSON object for one source location.
pub open spec fn location_json(p: Pos) -> JsonV {
    JsonV::Obj(
        seq![("line"@, JsonV::Int(p.line as int)), ("column"@, JsonV::Int(p.column as int))],
    )
}

/// The JSON list for a sequence of source locations.
pub open spec fn locations_json(ps: Seq<Pos>) -> Seq<JsonV> {
    Seq::new(ps.len(), |i: int| location_json(ps[i]))
}

/// The JSON object for one error: its message, and its locations unless
/// there are none.
pub open spec fn error_json(message: Seq<char>, locations: Seq<Pos>) -> JsonV {
    if locations.len() == 0 {
        JsonV::Obj(seq![("message"@, JsonV::Str(message))])
    } else {
        JsonV::Obj(
            seq![
                ("message"@, JsonV::Str(message)),
                ("locations"@, JsonV::Arr(locations_json(locations))),
            ],
        )
    }
}

/// The body of a success response: the data, and the error list unless
/// it is empty.
pub open spec fn success_body(outcome: ExecutionOutcome) -> JsonV {
    if outcome.errors@.len() == 0 {
        JsonV::Obj(seq![("data"@, outcome.data@)])
    } else {
        JsonV::Obj(
            seq![
                ("data"@, outcome.data@),
                (
                    "errors"@,
                    JsonV::Arr(
                        Seq::new(
                            outcome.errors@.len(),
                            |i: int| error_json(
                                outcome.errors@[i].message@,
                                outcome.errors@[i].locations@,
                            ),
                        ),
                    ),
                ),
            ],
        )
    }
}

/// Builds the JSON object for one message with locations.
fn build_error_json(message: &str, locations: &Vec<Pos>) -> (r: JsonValue)
    ensures
        r@ == error_json(message@, locations@),
{
    proof {
        reveal_strlit("message");
        reveal_strlit("line");
        reveal_strlit("column");
        reveal_strlit("locations");
    }
    let mut members: Vec<(String, JsonValue)> = Vec::new();
    members.push((String::from_str("message"), JsonValue::Str(String::from_str(message))));
    if locations.len() == 0 {
        proof {
            lemma_member_views(members@);
            assert(member_views(members@) =~= seq![("message"@, JsonV::Str(message@))]);
        }
        JsonValue::Obj(members)
    } else {
        let mut locs: Vec<JsonValue> = Vec::new();
        let mut k: usize = 0;
        while k < locations.len()
            invariant
                0 <= k <= locations@.len(),
                locs@.len() == k,
                forall|j: int| 0 <= j < k ==> #[trigger] locs@[j]@ == location_json(
                    locations@[j],
                ),
            decreases locations@.len() - k,
        {
            proof {
                reveal_strlit("line");
                reveal_strlit("column");
            }
            let p = locations[k];
            let mut lm: Vec<(String, JsonValue)> = Vec::new();
            lm.push((String::from_str("line"), JsonValue::Int(p.line as i64)));
            lm.push((String::from_str("column"), JsonValue::Int(p.column as i64)));
            let lj = JsonValue::Obj(lm);
            proof {
                lemma_member_views(lm@);
                assert(member_views(lm@) =~= seq![
                    ("line"@, JsonV::Int(p.line as int)),
                    ("column"@, JsonV::Int(p.column as int)),
                ]);
                assert(lj@ == location_json(locations@[k as int]));
            }
            locs.push(lj);
            k = k + 1;
        }
        let arr = JsonValue::Arr(locs);
        proof {
            lemma_elem_views(locs@);
            assert(elem_views(locs@) =~= locations_json(locations@));
            assert(arr@ == JsonV::Arr(locations_json(locations@)));
        }
        members.push((String::from_str("locations"), arr));
        proof {
            lemma_member_views(members@);
            assert(member_views(members@) =~= seq![
                ("message"@, JsonV::Str(message@)),
                ("locations"@, JsonV::Arr(locations_json(locations@))),
            ]);
        }
        JsonValue::Obj(members)
    }
}

/// Maps an outcome of the execution engine to HTTP 200 with the body
/// `success_body` describes: `{"data": ...}`, with `"errors"` beside it
/// whenever resolvers reported any.
pub fn to_response(outcome: &ExecutionOutcome) -> (r: HttpResponseModel)
    ensures
        r.status == 200,
        r.body@ == json_text(success_body(*outcome)),
{
    proof {
        reveal_strlit("data");
        reveal_strlit("errors");
    }
    let mut members: Vec<(String, JsonValue)> = Vec::new();
    members.push((String::from_str("data"), crate::extract::clone_json(&outcome.data)));
    if outcome.errors.len() == 0 {
        let body_v = JsonValue::Obj(members);
        proof {
            lemma_member_views(members@);
            assert(member_views(members@) =~= seq![("data"@, outcome.data@)]);
            assert(body_v@ == success_body(*outcome));
        }
        let body = to_json_text(&body_v);
        HttpResponseModel { status: 200, body }
    } else {
        let mut errs: Vec<JsonValue> = Vec::new();
        let mut k: usize = 0;
        while k < outcome.errors.len()
            invariant
                0 <= k <= outcome.errors@.len(),
                errs@.len() == k,
                forall|j: int| 0 <= j < k ==> #[trigger] errs@[j]@ == error_json(
                    outcome.errors@[j].message@,
                    outcome.errors@[j].locations@,
                ),
            decreases outcome.errors@.len() - k,
        {
            let e = &outcome.errors[k];
            let ej = build_error_json(e.message.as_str(), &e.locations);
            errs.push(ej);
            k = k + 1;
        }
        let arr = JsonValue::Arr(errs);
        proof {
            lemma_elem_views(errs@);
        }
        members.push((String::from_str("errors"), arr));
        let body_v = JsonValue::Obj(members);
        proof {
            lemma_member_views(members@);
            assert(elem_views(errs@) =~= Seq::new(
                outcome.errors@.len(),
                |i: int| error_json(outcome.errors@[i].message@, outcome.errors@[i].locations@),
            ));
            assert(member_views(members@) =~= seq![
                ("data"@, outcome.data@),
                (
                    "errors"@,
                    JsonV::Arr(
                        Seq::new(
                            outcome.errors@.len(),
                            |i: int| error_json(
                                outcome.errors@[i].message@,
                                outcome.errors@[i].locations@,
                            ),
                        ),
                    ),
                ),
            ]);
            assert(body_v@ == success_body(*outcome));
        }
        let body = to_json_text(&body_v);
        HttpResponseModel { status: 200, body }
    }
}

/// The fixed message reported for each extraction failure.
pub open spec fn extraction_error_message(e: ExtractionError) -> Seq<char> {
    match e {
        ExtractionError::MissingQuery => "MissingQuery"@,
        ExtractionError::MalformedBody => "MalformedBody"@,
        ExtractionError::UnsupportedContentType => "UnsupportedContentType"@,
        ExtractionError::LimitExceeded => "LimitExceeded"@,
    }
}

/// The body of an error response carrying exactly one message with
/// locations: `{"errors":[{"message": ..., "locations": [...]}]}`, the
/// locations omitted when there are none.
pub open spec fn single_error_body(message: Seq<char>, locations: Seq<Pos>) -> JsonV {
    JsonV::Obj(seq![("errors"@, JsonV::Arr(seq![error_json(message, locations)]))])
}

/// Maps one pipeline-level message with locations to HTTP 400 with the
/// body `single_error_body` describes.
pub fn error_response(message: &str, locations: &Vec<Pos>) -> (r: HttpResponseModel)
    ensures
        r.status == 400,
        r.body@ == json_text(single_error_body(message@, locations@)),
{
    proof {
        reveal_strlit("errors");
    }
    let ej = build_error_json(message, locations);
    let mut errs: Vec<JsonValue> = Vec::new();
    errs.push(ej);
    let arr = JsonValue::Arr(errs);
    proof {
        lemma_elem_views(errs@);
        assert(elem_views(errs@) =~= seq![error_json(message@, locations@)]);
    }
    let mut members: Vec<(String, JsonValue)> = Vec::new();
    members.push((String::from_str("errors"), arr));
    let body_v = JsonValue::Obj(members);
    proof {
        lemma_member_views(members@);
        assert(member_views(members@) =~= seq![
            ("errors"@, JsonV::Arr(seq![error_json(message@, locations@)])),
        ]);
        assert(body_v@ == single_error_body(message@, locations@));
    }
    let body = to_json_text(&body_v);
    HttpResponseModel { status: 400, body }
}

/// Maps an extraction failure to HTTP 400 with its fixed message and no
/// locations.
pub fn extraction_error_response(e: &ExtractionError) -> (r: HttpResponseModel)
    ensures
        r.status == 400,
        r.body@ == json_text(single_error_body(extraction_error_message(*e), Seq::empty())),
{
    let none: Vec<Pos> = Vec::new();
    match e {
        ExtractionError::MissingQuery => error_response("MissingQuery", &none),
        ExtractionError::MalformedBody => error_response("MalformedBody", &none),
        ExtractionError::UnsupportedContentType => error_response("UnsupportedContentType", &none),
        ExtractionError::LimitExceeded => error_response("LimitExceeded", &none),
    }
}

/// Maps the validation errors of one failed pass to HTTP 400 with every
/// accumulated error in the body, in report order.
pub fn validation_error_response(errors: &Vec<ValidationError>) -> (r: HttpResponseModel)
    ensures
        r.status == 400,
        r.body@ == json_text(
            JsonV::Obj(
                seq![
                    (
                        "errors"@,
                        JsonV::Arr(
                            Seq::new(
                                errors@.len(),
                                |i: int| error_json(
                                    errors@[i].message@,
                                    errors@[i].positions@,
                                ),
                            ),
                        ),
                    ),
                ],
            ),
        ),
{
    proof {
        reveal_strlit("errors");
    }
    let mut errs: Vec<JsonValue> = Vec::new();
    let mut k: usize = 0;
    while k < errors.len()
        invariant
            0 <= k <= errors@.len(),
            errs@.len() == k,
            forall|j: int| 0 <= j < k ==> #[trigger] errs@[j]@ == error_json(
                errors@[j].message@,
                errors@[j].positions@,
            ),
        decreases errors@.len() - k,
    {
        let e = &errors[k];
        let ej = build_error_json(e.message.as_str(), &e.positions);
        errs.push(ej);
        k = k + 1;
    }
    let arr = JsonValue::Arr(errs);
    proof {
        lemma_elem_views(errs@);
    }
    let mut members: Vec<(String, JsonValue)> = Vec::new();
    members.push((String::from_str("errors"), arr));
    let body_v = JsonValue::Obj(members);
    proof {
        lemma_member_views(members@);
        assert(elem_views(errs@) =~= Seq::new(
            errors@.len(),
            |i: int| error_json(errors@[i].message@, errors@[i].positions@),
        ));
        assert(member_views(members@) =~= seq![
            (
                "errors"@,
                JsonV::Arr(
                    Seq::new(
                        errors@.len(),
                        |i: int| error_json(errors@[i].message@, errors@[i].positions@),
                    ),
                ),
            ),
        ]);
    }
    let body = to_json_text(&body_v);
    HttpResponseModel { status: 400, body }
}

/// Maps a fragment cycle to HTTP 400, positioned at the offending
/// spread.
pub fn cycle_error_response(c: &FragmentCycle) -> (r: HttpResponseModel)
    ensures
        r.status == 400,
        r.body@ == json_text(single_error_body("CyclicFragment"@, seq![c.position])),
{
    let mut locs: Vec<Pos> = Vec::new();
    locs.push(c.position);
    proof {
        assert(locs@ =~= seq![c.position]);
    }
    error_response("CyclicFragment", &locs)
}

} // verus!