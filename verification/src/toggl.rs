//! The timer lifecycle engine: decoding the service's responses, building
//! the request paths and bodies for each operation, and the decisions that
//! the stop and swap operations make on the fetched state.  The network
//! itself is driven outside this crate; these functions compute what to
//! send and interpret what came back.

use vstd::prelude::*;
use vstd::utf8::{valid_utf8, encode_utf8};
use vstd::string::StrSliceExecFns;

use crate::entry::TimeEntry;
use crate::codec::{
    spec_entry_doc, spec_entries_doc, spec_entry_body, parse_entry_doc, parse_entries_doc,
    entry_body_bytes, lemma_entry_body_round_trip, RawEntry, RawEntryS,
};
use crate::json::{spec_dec, spec_lit_null, spec_ws, u64_to_dec, ws as skip_ws};
use crate::rfc3339::{rfc3339_parse, parse_rfc3339, format_rfc3339, max_format_ts};
use crate::textenc::{bytes_to_string, lemma_encode_utf8_injective};

verus! {

/// The closed set of failures an operation can report.
#[derive(Debug)]
pub enum TogglError {
    /// The transport could not complete the call; carries the underlying
    /// cause, rendered by the caller.
    TransportFailure(String),
    /// The response body does not match the expected shape.
    DecodeFailure,
    /// Stop or swap was attempted while the service reports no running
    /// entry.
    NoRunningEntry,
    /// Malformed user input, such as a time string that is not hh:mm.
    InvalidInput,
    /// A requested start-time shift would erase or invert the target
    /// entry's interval.
    InvalidShift,
}

impl TogglError {
    /// A human-readable message for this failure.
    pub fn message(&self) -> (r: String)
        ensures
            match self {
                TogglError::TransportFailure(cause) => r@ == "Call to the service failed: "@
                    + cause@,
                TogglError::DecodeFailure => r@ == "Response from the service did not decode"@,
                TogglError::NoRunningEntry => r@ == "No running time entry found"@,
                TogglError::InvalidInput => r@ == "Input not understood"@,
                TogglError::InvalidShift => r@
                    == "Shift would erase the target entry's interval"@,
            },
    {
        match self {
            TogglError::TransportFailure(cause) => {
                let mut m = String::from_str("Call to the service failed: ");
                m.append(cause.as_str());
                m
            },
            TogglError::DecodeFailure => String::from_str("Response from the service did not decode"),
            TogglError::NoRunningEntry => String::from_str("No running time entry found"),
            TogglError::InvalidInput => String::from_str("Input not understood"),
            TogglError::InvalidShift => String::from_str(
                "Shift would erase the target entry's interval",
            ),
        }
    }
}

/// The entry denoted by raw wire fields: ids and duration carried over,
/// description decoded from UTF-8, timestamps read as RFC 3339.
pub open spec fn entry_of_raw(raw: RawEntryS, e: TimeEntry) -> bool {
    &&& e.id == raw.id
    &&& e.project_id == raw.project_id
    &&& e.workspace_id == raw.workspace_id
    &&& encode_utf8(e.description@) == raw.description
    &&& rfc3339_parse(raw.start) == Some(e.start)
    &&& match (e.stop, raw.stop) {
        (Some(t), Some(b)) => rfc3339_parse(b) == Some(t),
        (None, None) => true,
        _ => false,
    }
    &&& e.duration == raw.duration
}

/// Raw wire fields that denote an entry at all: the description is UTF-8
/// and the timestamps are RFC 3339.
pub open spec fn raw_decodable(raw: RawEntryS) -> bool {
    &&& valid_utf8(raw.description)
    &&& rfc3339_parse(raw.start) is Some
    &&& match raw.stop {
        Some(b) => rfc3339_parse(b) is Some,
        None => true,
    }
}

fn entry_of_raw_exec(raw: RawEntry) -> (r: Result<TimeEntry, TogglError>)
    ensures
        match r {
            Ok(e) => raw_decodable(raw@) && entry_of_raw(raw@, e),
            Err(err) => !raw_decodable(raw@) && (err matches TogglError::DecodeFailure),
        },
{
    let start = match parse_rfc3339(raw.start.as_slice()) {
        Some(t) => t,
        None => {
            return Err(TogglError::DecodeFailure);
        },
    };
    let stop: Option<i64> = match &raw.stop {
        Some(b) => match parse_rfc3339(b.as_slice()) {
            Some(t) => Some(t),
            None => {
                return Err(TogglError::DecodeFailure);
            },
        },
        None => None,
    };
    let description = match bytes_to_string(raw.description) {
        Some(d) => d,
        None => {
            return Err(TogglError::DecodeFailure);
        },
    };
    Ok(
        TimeEntry {
            id: raw.id,
            project_id: raw.project_id,
            workspace_id: raw.workspace_id,
            description,
            start,
            stop,
            duration: raw.duration,
        },
    )
}

/// Decode a response body holding one entry object.
pub fn decode_entry(body: &[u8]) -> (r: Result<TimeEntry, TogglError>)
    ensures
        match r {
            Ok(e) => (spec_entry_doc(body@) matches Some(raw) && raw_decodable(raw)
                && entry_of_raw(raw, e)),
            Err(err) => (err matches TogglError::DecodeFailure) && (match spec_entry_doc(body@) {
                Some(raw) => !raw_decodable(raw),
                None => true,
            }),
        },
{
    match parse_entry_doc(body) {
        Some(raw) => entry_of_raw_exec(raw),
        None => Err(TogglError::DecodeFailure),
    }
}

/// The body is the marker for "no running entry": nothing, or the literal
/// `null`, up to whitespace.
pub open spec fn spec_null_doc(s: Seq<u8>) -> bool {
    let i = spec_ws(s, 0);
    ||| i == s.len()
    ||| (spec_lit_null(s, i) && spec_ws(s, i + 4) == s.len())
}

/// Decode the response of the current-entry endpoint: the empty or `null`
/// marker is a valid "nothing running" outcome, anything else must be one
/// entry object.
pub fn get_current_time_entry(body: &[u8]) -> (r: Result<Option<TimeEntry>, TogglError>)
    ensures
        match r {
            Ok(None) => spec_null_doc(body@),
            Ok(Some(e)) => !spec_null_doc(body@) && (spec_entry_doc(body@) matches Some(raw)
                && raw_decodable(raw) && entry_of_raw(raw, e)),
            Err(err) => (err matches TogglError::DecodeFailure) && !spec_null_doc(body@) && (
            match spec_entry_doc(body@) {
                Some(raw) => !raw_decodable(raw),
                None => true,
            }),
        },
{
    let i = skip_ws(body, 0);
    if i == body.len() {
        return Ok(None);
    }
    if body.len() - i >= 4 && body[i] == 0x6e && body[i + 1] == 0x75 && body[i + 2] == 0x6c
        && body[i + 3] == 0x6c {
        if skip_ws(body, i + 4) == body.len() {
            return Ok(None);
        }
    }
    match decode_entry(body) {
        Ok(e) => Ok(Some(e)),
        Err(err) => Err(err),
    }
}

/// Decode a response body listing entries, keeping the service's order.
pub fn decode_entries(body: &[u8]) -> (r: Result<Vec<TimeEntry>, TogglError>)
    ensures
        match r {
            Ok(es) => (spec_entries_doc(body@) matches Some(raws) && es.len() == raws.len()
                && (forall|k: int|
                0 <= k < raws.len() ==> raw_decodable(#[trigger] raws[k]) && entry_of_raw(
                    raws[k],
                    es[k],
                ))),
            Err(err) => (err matches TogglError::DecodeFailure) && (match spec_entries_doc(
                body@,
            ) {
                Some(raws) => exists|k: int| 0 <= k < raws.len() && !raw_decodable(#[trigger] raws[k]),
                None => true,
            }),
        },
{
    let raws = match parse_entries_doc(body) {
        Some(raws) => raws,
        None => {
            return Err(TogglError::DecodeFailure);
        },
    };
    let ghost raws_v = raws.deep_view();
    let mut es: Vec<TimeEntry> = Vec::new();
    let mut idx: usize = 0;
    while idx < raws.len()
        invariant
            spec_entries_doc(body@) == Some(raws_v),
            idx <= raws.len(),
            raws.deep_view() == raws_v,
            raws_v.len() == raws.len(),
            es.len() == idx,
            forall|k: int|
                0 <= k < idx ==> raw_decodable(#[trigger] raws_v[k]) && entry_of_raw(
                    raws_v[k],
                    es[k],
                ),
        decreases raws.len() - idx,
    {
        let raw = raws[idx].duplicate();
        assert(raw@ == raws_v[idx as int]);
        match entry_of_raw_exec(raw) {
            Ok(e) => {
                es.push(e);
            },
            Err(err) => {
                proof {
                    let raws2 = spec_entries_doc(body@).unwrap();
                    assert(0 <= idx < raws2.len() && !raw_decodable(raws2[idx as int]));
                }
                return Err(err);
            },
        }
        idx += 1;
    }
    Ok(es)
}

/// The bytes of `{"billable":false,"created_with":"t-rs","description":`.
pub open spec fn lit_create_head() -> Seq<u8> {
    seq![0x7bu8, 0x22u8, 0x62u8, 0x69u8, 0x6cu8, 0x6cu8, 0x61u8, 0x62u8, 0x6cu8, 0x65u8, 0x22u8, 0x3au8, 0x66u8, 0x61u8, 0x6cu8, 0x73u8, 0x65u8, 0x2cu8, 0x22u8, 0x63u8, 0x72u8, 0x65u8, 0x61u8, 0x74u8, 0x65u8, 0x64u8, 0x5fu8, 0x77u8, 0x69u8, 0x74u8, 0x68u8, 0x22u8, 0x3au8, 0x22u8, 0x74u8, 0x2du8, 0x72u8, 0x73u8, 0x22u8, 0x2cu8, 0x22u8, 0x64u8, 0x65u8, 0x73u8, 0x63u8, 0x72u8, 0x69u8, 0x70u8, 0x74u8, 0x69u8, 0x6fu8, 0x6eu8, 0x22u8, 0x3au8]
}

#[verifier::rlimit(60)]
fn push_lit_create_head(out: &mut Vec<u8>)
    ensures
        final(out)@ == old(out)@ + lit_create_head(),
{
    out.push(0x7b);
    out.push(0x22);
    out.push(0x62);
    out.push(0x69);
    out.push(0x6c);
    out.push(0x6c);
    out.push(0x61);
    out.push(0x62);
    out.push(0x6c);
    out.push(0x65);
    out.push(0x22);
    out.push(0x3a);
    out.push(0x66);
    out.push(0x61);
    out.push(0x6c);
    out.push(0x73);
    out.push(0x65);
    out.push(0x2c);
    out.push(0x22);
    out.push(0x63);
    out.push(0x72);
    out.push(0x65);
    out.push(0x61);
    out.push(0x74);
    out.push(0x65);
    out.push(0x64);
    out.push(0x5f);
    out.push(0x77);
    out.push(0x69);
    out.push(0x74);
    out.push(0x68);
    out.push(0x22);
    out.push(0x3a);
    out.push(0x22);
    out.push(0x74);
    out.push(0x2d);
    out.push(0x72);
    out.push(0x73);
    out.push(0x22);
    out.push(0x2c);
    out.push(0x22);
    out.push(0x64);
    out.push(0x65);
    out.push(0x73);
    out.push(0x63);
    out.push(0x72);
    out.push(0x69);
    out.push(0x70);
    out.push(0x74);
    out.push(0x69);
    out.push(0x6f);
    out.push(0x6e);
    out.push(0x22);
    out.push(0x3a);
    assert(out@ =~= old(out)@ + lit_create_head());
}

/// The bytes of `,"duration":-1,"project_id":`.
pub open spec fn lit_create_duration() -> Seq<u8> {
    seq![0x2cu8, 0x22u8, 0x64u8, 0x75u8, 0x72u8, 0x61u8, 0x74u8, 0x69u8, 0x6fu8, 0x6eu8, 0x22u8, 0x3au8, 0x2du8, 0x31u8, 0x2cu8, 0x22u8, 0x70u8, 0x72u8, 0x6fu8, 0x6au8, 0x65u8, 0x63u8, 0x74u8, 0x5fu8, 0x69u8, 0x64u8, 0x22u8, 0x3au8]
}

#[verifier::rlimit(60)]
fn push_lit_create_duration(out: &mut Vec<u8>)
    ensures
        final(out)@ == old(out)@ + lit_create_duration(),
{
    out.push(0x2c);
    out.push(0x22);
    out.push(0x64);
    out.push(0x75);
    out.push(0x72);
    out.push(0x61);
    out.push(0x74);
    out.push(0x69);
    out.push(0x6f);
    out.push(0x6e);
    out.push(0x22);
    out.push(0x3a);
    out.push(0x2d);
    out.push(0x31);
    out.push(0x2c);
    out.push(0x22);
    out.push(0x70);
    out.push(0x72);
    out.push(0x6f);
    out.push(0x6a);
    out.push(0x65);
    out.push(0x63);
    out.push(0x74);
    out.push(0x5f);
    out.push(0x69);
    out.push(0x64);
    out.push(0x22);
    out.push(0x3a);
    assert(out@ =~= old(out)@ + lit_create_duration());
}

/// The bytes of `,"start":`.
pub open spec fn lit_create_start() -> Seq<u8> {
    seq![0x2cu8, 0x22u8, 0x73u8, 0x74u8, 0x61u8, 0x72u8, 0x74u8, 0x22u8, 0x3au8]
}

#[verifier::rlimit(60)]
fn push_lit_create_start(out: &mut Vec<u8>)
    ensures
        final(out)@ == old(out)@ + lit_create_start(),
{
    out.push(0x2c);
    out.push(0x22);
    out.push(0x73);
    out.push(0x74);
    out.push(0x61);
    out.push(0x72);
    out.push(0x74);
    out.push(0x22);
    out.push(0x3a);
    assert(out@ =~= old(out)@ + lit_create_start());
}

/// The bytes of `,"workspace_id":`.
pub open spec fn lit_create_workspace() -> Seq<u8> {
    seq![0x2cu8, 0x22u8, 0x77u8, 0x6fu8, 0x72u8, 0x6bu8, 0x73u8, 0x70u8, 0x61u8, 0x63u8, 0x65u8, 0x5fu8, 0x69u8, 0x64u8, 0x22u8, 0x3au8]
}

#[verifier::rlimit(60)]
fn push_lit_create_workspace(out: &mut Vec<u8>)
    ensures
        final(out)@ == old(out)@ + lit_create_workspace(),
{
    out.push(0x2c);
    out.push(0x22);
    out.push(0x77);
    out.push(0x6f);
    out.push(0x72);
    out.push(0x6b);
    out.push(0x73);
    out.push(0x70);
    out.push(0x61);
    out.push(0x63);
    out.push(0x65);
    out.push(0x5f);
    out.push(0x69);
    out.push(0x64);
    out.push(0x22);
    out.push(0x3a);
    assert(out@ =~= old(out)@ + lit_create_workspace());
}

/// The bytes of `workspaces/`.
pub open spec fn lit_workspaces() -> Seq<u8> {
    seq![0x77u8, 0x6fu8, 0x72u8, 0x6bu8, 0x73u8, 0x70u8, 0x61u8, 0x63u8, 0x65u8, 0x73u8, 0x2fu8]
}

#[verifier::rlimit(60)]
fn push_lit_workspaces(out: &mut Vec<u8>)
    ensures
        final(out)@ == old(out)@ + lit_workspaces(),
{
    out.push(0x77);
    out.push(0x6f);
    out.push(0x72);
    out.push(0x6b);
    out.push(0x73);
    out.push(0x70);
    out.push(0x61);
    out.push(0x63);
    out.push(0x65);
    out.push(0x73);
    out.push(0x2f);
    assert(out@ =~= old(out)@ + lit_workspaces());
}

/// The bytes of `/time_entries`.
pub open spec fn lit_time_entries() -> Seq<u8> {
    seq![0x2fu8, 0x74u8, 0x69u8, 0x6du8, 0x65u8, 0x5fu8, 0x65u8, 0x6eu8, 0x74u8, 0x72u8, 0x69u8, 0x65u8, 0x73u8]
}

#[verifier::rlimit(60)]
fn push_lit_time_entries(out: &mut Vec<u8>)
    ensures
        final(out)@ == old(out)@ + lit_time_entries(),
{
    out.push(0x2f);
    out.push(0x74);
    out.push(0x69);
    out.push(0x6d);
    out.push(0x65);
    out.push(0x5f);
    out.push(0x65);
    out.push(0x6e);
    out.push(0x74);
    out.push(0x72);
    out.push(0x69);
    out.push(0x65);
    out.push(0x73);
    assert(out@ =~= old(out)@ + lit_time_entries());
}

/// The bytes of `/stop`.
pub open spec fn lit_stop_suffix() -> Seq<u8> {
    seq![0x2fu8, 0x73u8, 0x74u8, 0x6fu8, 0x70u8]
}

#[verifier::rlimit(60)]
fn push_lit_stop_suffix(out: &mut Vec<u8>)
    ensures
        final(out)@ == old(out)@ + lit_stop_suffix(),
{
    out.push(0x2f);
    out.push(0x73);
    out.push(0x74);
    out.push(0x6f);
    out.push(0x70);
    assert(out@ =~= old(out)@ + lit_stop_suffix());
}

/// The bytes of `me/time_entries/current`.
pub open spec fn lit_current_path() -> Seq<u8> {
    seq![0x6du8, 0x65u8, 0x2fu8, 0x74u8, 0x69u8, 0x6du8, 0x65u8, 0x5fu8, 0x65u8, 0x6eu8, 0x74u8, 0x72u8, 0x69u8, 0x65u8, 0x73u8, 0x2fu8, 0x63u8, 0x75u8, 0x72u8, 0x72u8, 0x65u8, 0x6eu8, 0x74u8]
}

#[verifier::rlimit(60)]
fn push_lit_current_path(out: &mut Vec<u8>)
    ensures
        final(out)@ == old(out)@ + lit_current_path(),
{
    out.push(0x6d);
    out.push(0x65);
    out.push(0x2f);
    out.push(0x74);
    out.push(0x69);
    out.push(0x6d);
    out.push(0x65);
    out.push(0x5f);
    out.push(0x65);
    out.push(0x6e);
    out.push(0x74);
    out.push(0x72);
    out.push(0x69);
    out.push(0x65);
    out.push(0x73);
    out.push(0x2f);
    out.push(0x63);
    out.push(0x75);
    out.push(0x72);
    out.push(0x72);
    out.push(0x65);
    out.push(0x6e);
    out.push(0x74);
    assert(out@ =~= old(out)@ + lit_current_path());
}

/// The bytes of `me/time_entries?start_date=`.
pub open spec fn lit_list_head() -> Seq<u8> {
    seq![0x6du8, 0x65u8, 0x2fu8, 0x74u8, 0x69u8, 0x6du8, 0x65u8, 0x5fu8, 0x65u8, 0x6eu8, 0x74u8, 0x72u8, 0x69u8, 0x65u8, 0x73u8, 0x3fu8, 0x73u8, 0x74u8, 0x61u8, 0x72u8, 0x74u8, 0x5fu8, 0x64u8, 0x61u8, 0x74u8, 0x65u8, 0x3du8]
}

#[verifier::rlimit(60)]
fn push_lit_list_head(out: &mut Vec<u8>)
    ensures
        final(out)@ == old(out)@ + lit_list_head(),
{
    out.push(0x6d);
    out.push(0x65);
    out.push(0x2f);
    out.push(0x74);
    out.push(0x69);
    out.push(0x6d);
    out.push(0x65);
    out.push(0x5f);
    out.push(0x65);
    out.push(0x6e);
    out.push(0x74);
    out.push(0x72);
    out.push(0x69);
    out.push(0x65);
    out.push(0x73);
    out.push(0x3f);
    out.push(0x73);
    out.push(0x74);
    out.push(0x61);
    out.push(0x72);
    out.push(0x74);
    out.push(0x5f);
    out.push(0x64);
    out.push(0x61);
    out.push(0x74);
    out.push(0x65);
    out.push(0x3d);
    assert(out@ =~= old(out)@ + lit_list_head());
}

/// The bytes of `&end_date=`.
pub open spec fn lit_list_end() -> Seq<u8> {
    seq![0x26u8, 0x65u8, 0x6eu8, 0x64u8, 0x5fu8, 0x64u8, 0x61u8, 0x74u8, 0x65u8, 0x3du8]
}

#[verifier::rlimit(60)]
fn push_lit_list_end(out: &mut Vec<u8>)
    ensures
        final(out)@ == old(out)@ + lit_list_end(),
{
    out.push(0x26);
    out.push(0x65);
    out.push(0x6e);
    out.push(0x64);
    out.push(0x5f);
    out.push(0x64);
    out.push(0x61);
    out.push(0x74);
    out.push(0x65);
    out.push(0x3d);
    assert(out@ =~= old(out)@ + lit_list_end());
}

/// The path of the current-entry endpoint.
pub fn current_entry_path() -> (r: Vec<u8>)
    ensures
        r@ == lit_current_path(),
{
    let mut out: Vec<u8> = Vec::new();
    push_lit_current_path(&mut out);
    assert(out@ =~= lit_current_path());
    out
}

/// The path for creating an entry in a workspace.
pub open spec fn spec_entries_path(workspace_id: int) -> Seq<u8> {
    lit_workspaces() + spec_dec(workspace_id) + lit_time_entries()
}

/// Build the path for creating an entry in a workspace.
pub fn entries_path(workspace_id: u64) -> (r: Vec<u8>)
    ensures
        r@ == spec_entries_path(workspace_id as int),
{
    let mut out: Vec<u8> = Vec::new();
    push_lit_workspaces(&mut out);
    let mut d = u64_to_dec(workspace_id);
    out.append(&mut d);
    push_lit_time_entries(&mut out);
    assert(Seq::<u8>::empty() + lit_workspaces() =~= lit_workspaces());
    out
}

/// The path naming one entry by workspace and identity.
pub open spec fn spec_entry_path(workspace_id: int, id: int) -> Seq<u8> {
    lit_workspaces() + spec_dec(workspace_id) + lit_time_entries() + seq![0x2fu8] + spec_dec(id)
}

/// Build the path naming one entry.
pub fn entry_path(workspace_id: u64, id: u64) -> (r: Vec<u8>)
    ensures
        r@ == spec_entry_path(workspace_id as int, id as int),
{
    let mut out = entries_path(workspace_id);
    out.push(0x2f);
    assert(out@ =~= spec_entries_path(workspace_id as int) + seq![0x2fu8]);
    let mut d = u64_to_dec(id);
    out.append(&mut d);
    out
}

/// The path of the stop action on one entry.
pub open spec fn spec_stop_path(workspace_id: int, id: int) -> Seq<u8> {
    spec_entry_path(workspace_id, id) + lit_stop_suffix()
}

/// Build the path of the stop action on one entry.
pub fn stop_path(workspace_id: u64, id: u64) -> (r: Vec<u8>)
    ensures
        r@ == spec_stop_path(workspace_id as int, id as int),
{
    let mut out = entry_path(workspace_id, id);
    push_lit_stop_suffix(&mut out);
    out
}

/// A byte percent-encoded where the query syntax demands it: `+` becomes
/// `%2B`, everything else stands for itself.
pub open spec fn pct_byte(b: u8) -> Seq<u8> {
    if b == 0x2b {
        seq![0x25u8, 0x32u8, 0x42u8]
    } else {
        seq![b]
    }
}

/// Percent-encoding of a byte string's suffix from `k` on.
pub open spec fn spec_pct(d: Seq<u8>, k: int) -> Seq<u8>
    decreases d.len() - k,
    when 0 <= k <= d.len()
{
    if k == d.len() {
        seq![]
    } else {
        pct_byte(d[k]) + spec_pct(d, k + 1)
    }
}

fn push_pct(out: &mut Vec<u8>, d: &[u8], k: usize)
    requires
        k <= d.len(),
    ensures
        final(out)@ == old(out)@ + spec_pct(d@, k as int),
    decreases d@.len() - k,
{
    if k == d.len() {
        assert(out@ =~= old(out)@ + spec_pct(d@, k as int));
    } else {
        let b = d[k];
        if b == 0x2b {
            out.push(0x25);
            out.push(0x32);
            out.push(0x42);
        } else {
            out.push(b);
        }
        assert(out@ =~= old(out)@ + pct_byte(d@[k as int]));
        push_pct(out, d, k + 1);
        assert(out@ =~= old(out)@ + spec_pct(d@, k as int));
    }
}

/// The path and query listing entries whose start lies in a window.
pub open spec fn spec_list_path(since_raw: Seq<u8>, until_raw: Seq<u8>) -> Seq<u8> {
    lit_list_head() + spec_pct(since_raw, 0) + lit_list_end() + spec_pct(until_raw, 0)
}

/// Build the path listing entries started between `since` and `until`;
/// both bounds must be formattable timestamps.
pub fn list_entries_path(since: i64, until: i64) -> (r: Result<Vec<u8>, TogglError>)
    ensures
        match r {
            Ok(p) => 0 <= since <= max_format_ts() && 0 <= until <= max_format_ts() && (
            exists|sb: Seq<u8>, ub: Seq<u8>|
                rfc3339_parse(sb) == Some(since) && rfc3339_parse(ub) == Some(until) && p@
                    == #[trigger] spec_list_path(sb, ub)),
            Err(err) => (err matches TogglError::InvalidInput) && !(0 <= since <= max_format_ts()
                && 0 <= until <= max_format_ts()),
        },
{
    if !(0 <= since && since <= 253402300799 && 0 <= until && until <= 253402300799) {
        return Err(TogglError::InvalidInput);
    }
    let sb = format_rfc3339(since);
    let ub = format_rfc3339(until);
    let mut out: Vec<u8> = Vec::new();
    push_lit_list_head(&mut out);
    push_pct(&mut out, sb.as_slice(), 0);
    push_lit_list_end(&mut out);
    push_pct(&mut out, ub.as_slice(), 0);
    assert(Seq::<u8>::empty() + lit_list_head() =~= lit_list_head());
    assert(out@ == spec_list_path(sb@, ub@));
    Ok(out)
}

/// The canonical creation body for a new running entry: the service's
/// convention for "running" is a negative duration, sent here as -1.
pub open spec fn spec_create_body(
    workspace_id: int,
    project_id: int,
    description: Seq<u8>,
    start_raw: Seq<u8>,
) -> Seq<u8> {
    lit_create_head() + crate::json::spec_quote(description) + lit_create_duration() + spec_dec(
        project_id,
    ) + lit_create_start() + crate::json::spec_quote(start_raw) + lit_create_workspace()
        + spec_dec(workspace_id) + seq![0x7du8]
}

/// Build the creation request for a new running entry: the path of the
/// workspace's entries and the body carrying the fields with the running
/// sentinel.  Fails only on a start time outside the formattable range.
pub fn start(workspace_id: u64, project_id: u64, description: &String, start_ts: i64) -> (r: Result<
    (Vec<u8>, Vec<u8>),
    TogglError,
>)
    ensures
        match r {
            Ok((path, body)) => path@ == spec_entries_path(workspace_id as int) && 0 <= start_ts
                <= max_format_ts() && (exists|sb: Seq<u8>|
                rfc3339_parse(sb) == Some(start_ts) && body@ == #[trigger] spec_create_body(
                    workspace_id as int,
                    project_id as int,
                    encode_utf8(description@),
                    sb,
                )),
            Err(err) => (err matches TogglError::InvalidInput) && !(0 <= start_ts
                <= max_format_ts()),
        },
{
    if !(0 <= start_ts && start_ts <= 253402300799) {
        return Err(TogglError::InvalidInput);
    }
    let sb = format_rfc3339(start_ts);
    let desc_bytes = description.as_str().as_bytes_vec();
    let mut body: Vec<u8> = Vec::new();
    push_lit_create_head(&mut body);
    crate::json::push_quoted(&mut body, desc_bytes.as_slice());
    push_lit_create_duration(&mut body);
    let mut d1 = u64_to_dec(project_id);
    body.append(&mut d1);
    push_lit_create_start(&mut body);
    crate::json::push_quoted(&mut body, sb.as_slice());
    push_lit_create_workspace(&mut body);
    let mut d2 = u64_to_dec(workspace_id);
    body.append(&mut d2);
    body.push(0x7d);
    assert(Seq::<u8>::empty() + lit_create_head() =~= lit_create_head());
    assert(body@ =~= spec_create_body(
        workspace_id as int,
        project_id as int,
        encode_utf8(description@),
        sb@,
    ));
    Ok((entries_path(workspace_id), body))
}

/// An entry's timestamps lie in the range this crate can put on the wire.
pub open spec fn entry_formattable(e: TimeEntry) -> bool {
    &&& 0 <= e.start <= max_format_ts()
    &&& match e.stop {
        Some(t) => 0 <= t <= max_format_ts(),
        None => true,
    }
}

/// Build the full-overwrite body for an entry, for the replace call.  Every
/// field of the entry is on the wire; decoding the body yields the entry
/// back (see `lemma_entry_round_trip`).
pub fn replace_body(e: &TimeEntry) -> (r: Result<Vec<u8>, TogglError>)
    ensures
        match r {
            Ok(body) => entry_formattable(*e) && (exists|raw: RawEntryS|
                body@ == #[trigger] spec_entry_body(raw) && entry_of_raw(raw, *e)
                    && raw_decodable(raw)),
            Err(err) => (err matches TogglError::InvalidInput) && !entry_formattable(*e),
        },
{
    if !(0 <= e.start && e.start <= 253402300799) {
        return Err(TogglError::InvalidInput);
    }
    let stop_raw: Option<Vec<u8>> = match &e.stop {
        Some(t) => {
            if !(0 <= *t && *t <= 253402300799) {
                return Err(TogglError::InvalidInput);
            }
            Some(format_rfc3339(*t))
        },
        None => None,
    };
    let start_raw = format_rfc3339(e.start);
    let desc_bytes = e.description.as_str().as_bytes_vec();
    let body = entry_body_bytes(
        e.id,
        e.workspace_id,
        e.project_id,
        &desc_bytes,
        &start_raw,
        &stop_raw,
        e.duration,
    );
    proof {
        let raw = RawEntryS {
            id: e.id as int,
            project_id: e.project_id as int,
            workspace_id: e.workspace_id as int,
            description: encode_utf8(e.description@),
            start: start_raw@,
            stop: match stop_raw {
                Some(ref t) => Some(t@),
                None => None,
            },
            duration: e.duration as int,
        };
        vstd::utf8::encode_utf8_valid_utf8(e.description@);
        assert(body@ == spec_entry_body(raw) && entry_of_raw(raw, *e) && raw_decodable(raw));
    }
    Ok(body)
}

/// Round trip: the raw fields a replace body is built from parse back from
/// that body exactly, and every entry those fields denote is structurally
/// equal to the entry the body was built from.
pub proof fn lemma_entry_round_trip(e: TimeEntry, raw: RawEntryS)
    requires
        entry_of_raw(raw, e),
    ensures
        spec_entry_doc(spec_entry_body(raw)) == Some(raw),
        forall|e2: TimeEntry| entry_of_raw(raw, e2) ==> #[trigger] e2.same(e),
{
    lemma_entry_body_round_trip(raw);
    assert forall|e2: TimeEntry| entry_of_raw(raw, e2) implies #[trigger] e2.same(e) by {
        lemma_encode_utf8_injective(e2.description@, e.description@);
    };
}

/// The round trip made executable: building a replace body for an entry
/// and decoding that body yields an entry structurally equal to the
/// original, for every entry whose timestamps are formattable.
pub fn replace_round_trip(e: &TimeEntry) -> (r: Result<TimeEntry, TogglError>)
    ensures
        match r {
            Ok(e2) => e2.same(*e),
            Err(err) => (err matches TogglError::InvalidInput) && !entry_formattable(*e),
        },
{
    let body = match replace_body(e) {
        Ok(b) => b,
        Err(err) => {
            return Err(err);
        },
    };
    proof {
        let raw = choose|raw: RawEntryS|
            body@ == #[trigger] spec_entry_body(raw) && entry_of_raw(raw, *e) && raw_decodable(
                raw,
            );
        lemma_entry_round_trip(*e, raw);
    }
    match decode_entry(body.as_slice()) {
        Ok(e2) => Ok(e2),
        Err(_) => {
            proof {
                assert(false);
            }
            Err(TogglError::DecodeFailure)
        },
    }
}

/// The decision that `stop` makes on the fetched state: with no running
/// entry the operation fails and nothing is sent; otherwise the running
/// entry is the one to stop.
pub fn stop(current: Option<TimeEntry>) -> (r: Result<TimeEntry, TogglError>)
    ensures
        match r {
            Ok(e) => (current matches Some(c) && e.same(c)),
            Err(err) => current is None && (err matches TogglError::NoRunningEntry),
        },
{
    match current {
        Some(c) => Ok(c),
        None => Err(TogglError::NoRunningEntry),
    }
}

/// A stopped entry must carry a stop time; a response without one is an
/// unexpected shape, not a success.
pub fn check_stopped(e: TimeEntry) -> (r: Result<TimeEntry, TogglError>)
    ensures
        match r {
            Ok(e2) => e.stop is Some && e2.same(e),
            Err(err) => e.stop is None && (err matches TogglError::DecodeFailure),
        },
{
    match e.stop {
        Some(_) => Ok(e),
        None => Err(TogglError::DecodeFailure),
    }
}

/// What swap would send: nothing, because the running entry already is the
/// desired one, or the desired entry for one replace call.
pub enum SwapAction {
    /// The running entry already has the requested project and description;
    /// no call is issued.
    AlreadyRunning,
    /// Issue exactly one replace call with this entry.
    Replace(TimeEntry),
}

/// The desired entry of a swap: the current entry with only project and
/// description replaced.
pub open spec fn swap_desired(c: TimeEntry, project_id: u64, description: Seq<char>, d: TimeEntry) -> bool {
    &&& d.id == c.id
    &&& d.workspace_id == c.workspace_id
    &&& d.project_id == project_id
    &&& d.description@ == description
    &&& d.start == c.start
    &&& d.stop == c.stop
    &&& d.duration == c.duration
}

/// The running entry already carries the requested project and description.
pub open spec fn swap_settled(c: TimeEntry, project_id: u64, description: Seq<char>) -> bool {
    c.project_id == project_id && c.description@ == description
}

/// The decision that `swap` makes on the fetched state: fail with no
/// running entry; report the settled state without any call when the
/// desired entry equals the running one; otherwise issue exactly one
/// replace call carrying the desired entry, whose start time is untouched.
pub fn swap(current: Option<TimeEntry>, project_id: u64, description: String) -> (r: Result<
    SwapAction,
    TogglError,
>)
    ensures
        match r {
            Ok(a) => (current matches Some(c) && (match a {
                SwapAction::AlreadyRunning => swap_settled(c, project_id, description@),
                SwapAction::Replace(d) => !swap_settled(c, project_id, description@)
                    && swap_desired(c, project_id, description@, d),
            })),
            Err(err) => current is None && (err matches TogglError::NoRunningEntry),
        },
{
    let c = match current {
        Some(c) => c,
        None => {
            return Err(TogglError::NoRunningEntry);
        },
    };
    if c.project_id == project_id && c.description.eq(&description) {
        Ok(SwapAction::AlreadyRunning)
    } else {
        let desired = c.set_project_id(project_id).set_description(description);
        Ok(SwapAction::Replace(desired))
    }
}

/// The settled check is the structural-equality check: when `d` is the
/// desired entry built from the running entry `c`, comparing all of `d`'s
/// fields against `c`'s comes down to comparing the project and the
/// description, since nothing else was replaced.
pub proof fn lemma_swap_settled_is_structural_equality(
    c: TimeEntry,
    d: TimeEntry,
    project_id: u64,
    description: Seq<char>,
)
    requires
        swap_desired(c, project_id, description, d),
    ensures
        d.same(c) <==> swap_settled(c, project_id, description),
{
}

/// Idempotence of swap: once a swap's replace call has installed the
/// desired entry, the same swap finds it settled, so a second identical
/// swap issues no further mutation.
pub proof fn lemma_swap_idempotent(c: TimeEntry, d: TimeEntry, project_id: u64, description: Seq<char>)
    requires
        swap_desired(c, project_id, description, d),
    ensures
        swap_settled(d, project_id, description),
{
}

} // verus!