//! Option conversions at the HTTP boundary: colors travel as `#rrggbb`
//! strings in responses, and request values given as strings are read back
//! into their option types.

use vstd::prelude::*;
use crate::error::ErrorResponse;
use crate::json::{JsonSpec, JsonValue, number_from_i64};
use crate::opts::{
    OptMap, OptSpec, OptValue, color_json, color_opt_spec, lemma_entries_mapped, parse_color,
    parse_color_spec,
};
use crate::text::{
    decimal, hex_color_spec, hex_color_string, hex_color_text, i64_text_value, parse_hex_color,
    parse_i64, push_decimal, str_eq,
};

verus! {

/// An option as a response shows it: a color option whose value names a
/// color becomes its `#rrggbb` string.
pub open spec fn opt_for_response(o: OptSpec) -> OptSpec {
    if o.opt_type == "color"@ && parse_color_spec(o.value) is Some {
        OptSpec {
            value: JsonSpec::Str(hex_color_text(parse_color_spec(o.value)->0)),
            opt_type: o.opt_type,
        }
    } else {
        o
    }
}

/// An option as a request gives it, read into its type: a string value of
/// a "bool" option becomes whether it is `true`; of an "int" option, the
/// integer it spells; of a "color" option, the color it names. Values that
/// do not convert stay as they are.
pub open spec fn opt_from_request(o: OptSpec) -> OptSpec {
    match o.value {
        JsonSpec::Str(s) => if o.opt_type == "bool"@ {
            OptSpec { value: JsonSpec::Bool(s == "true"@), opt_type: o.opt_type }
        } else if o.opt_type == "int"@ {
            match i64_text_value(s) {
                Some(n) => OptSpec { value: JsonSpec::Number(number_from_i64(n)), opt_type: o.opt_type },
                None => o,
            }
        } else if o.opt_type == "color"@ {
            match hex_color_spec(s) {
                Some(c) => OptSpec { value: color_json(c), opt_type: o.opt_type },
                None => o,
            }
        } else {
            o
        },
        _ => o,
    }
}

/// One option as a response shows it.
pub fn opt_for_response_one(opt: &OptValue) -> (res: OptValue)
    ensures
        res@ == opt_for_response(opt@),
{
    if str_eq(opt.opt_type.as_str(), "color") {
        if let Some(rgb) = parse_color(&opt.value) {
            let hex = hex_color_string(rgb);
            return OptValue { value: JsonValue::String(hex), opt_type: opt.opt_type.clone() };
        }
    }
    opt.deep_clone()
}

/// One option read from a request.
pub fn opt_from_request_one(opt: &OptValue) -> (res: OptValue)
    ensures
        res@ == opt_from_request(opt@),
{
    if let Some(s) = opt.value.as_str() {
        if str_eq(opt.opt_type.as_str(), "bool") {
            let b = str_eq(s, "true");
            return OptValue { value: JsonValue::Bool(b), opt_type: opt.opt_type.clone() };
        } else if str_eq(opt.opt_type.as_str(), "int") {
            if let Some(n) = parse_i64(s) {
                return OptValue { value: JsonValue::from_i64(n), opt_type: opt.opt_type.clone() };
            }
        } else if str_eq(opt.opt_type.as_str(), "color") {
            if let Some(c) = parse_hex_color(s) {
                let mut arr: Vec<JsonValue> = Vec::new();
                arr.push(JsonValue::from_u8(c[0]));
                arr.push(JsonValue::from_u8(c[1]));
                arr.push(JsonValue::from_u8(c[2]));
                let res = OptValue { value: JsonValue::Array(arr), opt_type: opt.opt_type.clone() };
                assert(res@.value->Array_0 =~= color_json((c[0], c[1], c[2]))->Array_0);
                return res;
            }
        }
    }
    opt.deep_clone()
}

/// Options as a response shows them (see `opt_for_response`).
pub fn process_opts_for_response(opts: OptMap) -> (res: OptMap)
    requires
        opts.wf(),
    ensures
        res.wf(),
        res@ == opts@.map_values(|o: OptSpec| opt_for_response(o)),
{
    let mut out: Vec<(String, OptValue)> = Vec::new();
    let mut i: usize = 0;
    while i < opts.entries.len()
        invariant
            i <= opts.entries@.len(),
            out@.len() == i,
            forall|j: int|
                0 <= j < i ==> (#[trigger] out@[j]).0@ == opts.entries@[j].0@ && out@[j].1@
                    == opt_for_response(opts.entries@[j].1@),
        decreases opts.entries@.len() - i,
    {
        let v = opt_for_response_one(&opts.entries[i].1);
        out.push((opts.entries[i].0.clone(), v));
        i = i + 1;
    }
    proof {
        lemma_entries_mapped(opts.entries@, out@, |o: OptSpec| opt_for_response(o));
    }
    OptMap { entries: out }
}

/// Options read from a request (see `opt_from_request`).
pub fn process_opts_from_request(opts: OptMap) -> (res: OptMap)
    requires
        opts.wf(),
    ensures
        res.wf(),
        res@ == opts@.map_values(|o: OptSpec| opt_from_request(o)),
{
    let mut out: Vec<(String, OptValue)> = Vec::new();
    let mut i: usize = 0;
    while i < opts.entries.len()
        invariant
            i <= opts.entries@.len(),
            out@.len() == i,
            forall|j: int|
                0 <= j < i ==> (#[trigger] out@[j]).0@ == opts.entries@[j].0@ && out@[j].1@
                    == opt_from_request(opts.entries@[j].1@),
        decreases opts.entries@.len() - i,
    {
        let v = opt_from_request_one(&opts.entries[i].1);
        out.push((opts.entries[i].0.clone(), v));
        i = i + 1;
    }
    proof {
        lemma_entries_mapped(opts.entries@, out@, |o: OptSpec| opt_from_request(o));
    }
    OptMap { entries: out }
}

/// A color option shown in a response and sent back in a request comes
/// back as the array of the color it named.
pub proof fn lemma_color_response_request_round_trip(o: OptSpec)
    requires
        o.opt_type == "color"@,
        parse_color_spec(o.value) is Some,
    ensures
        opt_from_request(opt_for_response(o)) == color_opt_spec(parse_color_spec(o.value)->0),
{
    crate::text::lemma_hex_color_round_trip(parse_color_spec(o.value)->0);
    reveal_strlit("color");
    reveal_strlit("bool");
    reveal_strlit("int");
    assert("color"@.len() != "bool"@.len() && "color"@.len() != "int"@.len());
}

/// An option of another type whose value is not a string is shown and read
/// back unchanged.
pub proof fn lemma_plain_response_request_round_trip(o: OptSpec)
    requires
        o.opt_type != "color"@,
        !(o.value is Str),
    ensures
        opt_for_response(o) == o,
        opt_from_request(opt_for_response(o)) == o,
{
}

/// The error body for a request about strip `strip_id` that does not exist:
/// "strip N not found".
pub fn strip_not_found(strip_id: u8) -> (res: ErrorResponse)
    ensures
        res.error@ == "strip "@ + decimal(strip_id as nat) + " not found"@,
        res.code is None,
{
    let mut msg = "strip ".to_owned();
    push_decimal(&mut msg, strip_id as u64);
    msg.append(" not found");
    ErrorResponse::new(msg)
}

/// The error body for a mode change on strip `strip_id` that does not
/// exist: "strip N not found or invalid mode".
pub fn strip_mode_not_set(strip_id: u8) -> (res: ErrorResponse)
    ensures
        res.error@ == "strip "@ + decimal(strip_id as nat) + " not found or invalid mode"@,
        res.code is None,
{
    let mut msg = "strip ".to_owned();
    push_decimal(&mut msg, strip_id as u64);
    msg.append(" not found or invalid mode");
    ErrorResponse::new(msg)
}

} // verus!
