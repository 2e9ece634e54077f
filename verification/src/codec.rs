//! The wire codec for time-entry payloads: decoding the service's JSON
//! responses into raw entry fields, and encoding entries back into request
//! bodies.  Decoding is specified by a spec-level grammar; encoding is
//! canonical, and parsing is proved to invert it.

use vstd::prelude::*;

use crate::json::{
    is_digit, is_ws_byte, lemma_dec_props, lemma_parse_i64_of_dec, lemma_parse_string_of_quote,
    lemma_parse_u64_of_dec, lemma_ws_at_significant, lemma_ws_bounds, parse_i64_at,
    parse_string_at, parse_u64_at, push_quoted, skip_value, spec_dec, spec_dec_i64, spec_lit_null,
    spec_parse_i64, spec_parse_string, spec_parse_u64, spec_quote, spec_skip_value, spec_ws,
    u64_to_dec, i64_to_dec, ws,
};

verus! {

/// The bytes of the key `id`.
pub open spec fn key_id() -> Seq<u8> {
    seq![0x69u8, 0x64u8]
}

/// The bytes of the key `project_id`.
pub open spec fn key_project_id() -> Seq<u8> {
    seq![0x70u8, 0x72u8, 0x6fu8, 0x6au8, 0x65u8, 0x63u8, 0x74u8, 0x5fu8, 0x69u8, 0x64u8]
}

/// The bytes of the key `workspace_id`.
pub open spec fn key_workspace_id() -> Seq<u8> {
    seq![
        0x77u8,
        0x6fu8,
        0x72u8,
        0x6bu8,
        0x73u8,
        0x70u8,
        0x61u8,
        0x63u8,
        0x65u8,
        0x5fu8,
        0x69u8,
        0x64u8,
    ]
}

/// The bytes of the key `description`.
pub open spec fn key_description() -> Seq<u8> {
    seq![
        0x64u8,
        0x65u8,
        0x73u8,
        0x63u8,
        0x72u8,
        0x69u8,
        0x70u8,
        0x74u8,
        0x69u8,
        0x6fu8,
        0x6eu8,
    ]
}

/// The bytes of the key `start`.
pub open spec fn key_start() -> Seq<u8> {
    seq![0x73u8, 0x74u8, 0x61u8, 0x72u8, 0x74u8]
}

/// The bytes of the key `stop`.
pub open spec fn key_stop() -> Seq<u8> {
    seq![0x73u8, 0x74u8, 0x6fu8, 0x70u8]
}

/// The bytes of the key `duration`.
pub open spec fn key_duration() -> Seq<u8> {
    seq![0x64u8, 0x75u8, 0x72u8, 0x61u8, 0x74u8, 0x69u8, 0x6fu8, 0x6eu8]
}

/// The fields of one entry as they stand on the wire, before timestamps are
/// interpreted: `start` and `stop` hold the raw timestamp text.
pub struct RawEntry {
    pub id: u64,
    pub project_id: u64,
    pub workspace_id: u64,
    pub description: Vec<u8>,
    pub start: Vec<u8>,
    pub stop: Option<Vec<u8>>,
    pub duration: i64,
}

/// Spec-level value of a `RawEntry`.
pub struct RawEntryS {
    pub id: int,
    pub project_id: int,
    pub workspace_id: int,
    pub description: Seq<u8>,
    pub start: Seq<u8>,
    pub stop: Option<Seq<u8>>,
    pub duration: int,
}

impl View for RawEntry {
    type V = RawEntryS;

    open spec fn view(&self) -> RawEntryS {
        RawEntryS {
            id: self.id as int,
            project_id: self.project_id as int,
            workspace_id: self.workspace_id as int,
            description: self.description@,
            start: self.start@,
            stop: match self.stop {
                Some(v) => Some(v@),
                None => None,
            },
            duration: self.duration as int,
        }
    }
}

impl DeepView for RawEntry {
    type V = RawEntryS;

    open spec fn deep_view(&self) -> RawEntryS {
        self.view()
    }
}

/// Fields gathered while walking an entry object's members.
pub struct FieldsAccS {
    pub id: Option<int>,
    pub project_id: Option<int>,
    pub workspace_id: Option<int>,
    pub description: Option<Seq<u8>>,
    pub start: Option<Seq<u8>>,
    pub stop: Option<Option<Seq<u8>>>,
    pub duration: Option<int>,
}

/// No field seen yet.
pub open spec fn empty_fields() -> FieldsAccS {
    FieldsAccS {
        id: None,
        project_id: None,
        workspace_id: None,
        description: None,
        start: None,
        stop: None,
        duration: None,
    }
}

/// All required fields seen; a missing `stop` means a running entry.
pub open spec fn spec_fields_complete(f: FieldsAccS) -> bool {
    &&& f.id is Some
    &&& f.project_id is Some
    &&& f.workspace_id is Some
    &&& f.description is Some
    &&& f.start is Some
    &&& f.duration is Some
}

/// The raw entry denoted by a complete field set.
pub open spec fn spec_raw_of(f: FieldsAccS) -> RawEntryS {
    RawEntryS {
        id: f.id.unwrap(),
        project_id: f.project_id.unwrap(),
        workspace_id: f.workspace_id.unwrap(),
        description: f.description.unwrap(),
        start: f.start.unwrap(),
        stop: match f.stop {
            Some(x) => x,
            None => None,
        },
        duration: f.duration.unwrap(),
    }
}

/// One member's value at `v`, dispatched on the decoded key: known keys
/// carry typed values into the accumulator, any other key's value is passed
/// over untouched.
pub open spec fn spec_member_value(s: Seq<u8>, v: int, k: Seq<u8>, acc: FieldsAccS) -> Option<
    (FieldsAccS, int),
> {
    if k == key_id() {
        match spec_parse_u64(s, v) {
            Some((n, m)) => Some((FieldsAccS { id: Some(n), ..acc }, m)),
            None => None,
        }
    } else if k == key_project_id() {
        match spec_parse_u64(s, v) {
            Some((n, m)) => Some((FieldsAccS { project_id: Some(n), ..acc }, m)),
            None => None,
        }
    } else if k == key_workspace_id() {
        match spec_parse_u64(s, v) {
            Some((n, m)) => Some((FieldsAccS { workspace_id: Some(n), ..acc }, m)),
            None => None,
        }
    } else if k == key_description() {
        match spec_parse_string(s, v) {
            Some((d, m)) => Some((FieldsAccS { description: Some(d), ..acc }, m)),
            None => None,
        }
    } else if k == key_start() {
        match spec_parse_string(s, v) {
            Some((d, m)) => Some((FieldsAccS { start: Some(d), ..acc }, m)),
            None => None,
        }
    } else if k == key_stop() {
        if spec_lit_null(s, v) {
            Some((FieldsAccS { stop: Some(None), ..acc }, v + 4))
        } else {
            match spec_parse_string(s, v) {
                Some((d, m)) => Some((FieldsAccS { stop: Some(Some(d)), ..acc }, m)),
                None => None,
            }
        }
    } else if k == key_duration() {
        match spec_parse_i64(s, v) {
            Some((n, m)) => Some((FieldsAccS { duration: Some(n), ..acc }, m)),
            None => None,
        }
    } else {
        match spec_skip_value(s, v) {
            Some(m) => Some((acc, m)),
            None => None,
        }
    }
}

/// The members of an entry object from the position of a key to the closing
/// brace.
pub open spec fn spec_members(s: Seq<u8>, i: int, acc: FieldsAccS) -> Option<(FieldsAccS, int)>
    decreases s.len() - i,
    when 0 <= i <= s.len()
{
    match spec_parse_string(s, i) {
        Some((k, j)) => {
            if j <= i || j > s.len() {
                None
            } else {
                let c = spec_ws(s, j);
                proof {
                    lemma_ws_bounds(s, j);
                }
                if c < s.len() && s[c] == 0x3a {
                    let v = spec_ws(s, c + 1);
                    proof {
                        lemma_ws_bounds(s, c + 1);
                    }
                    match spec_member_value(s, v, k, acc) {
                        Some((acc2, m)) => {
                            if m <= v || m > s.len() {
                                None
                            } else {
                                let c2 = spec_ws(s, m);
                                proof {
                                    lemma_ws_bounds(s, m);
                                }
                                if c2 < s.len() && s[c2] == 0x2c {
                                    let n = spec_ws(s, c2 + 1);
                                    proof {
                                        lemma_ws_bounds(s, c2 + 1);
                                    }
                                    spec_members(s, n, acc2)
                                } else if c2 < s.len() && s[c2] == 0x7d {
                                    Some((acc2, c2 + 1))
                                } else {
                                    None
                                }
                            }
                        },
                        None => None,
                    }
                } else {
                    None
                }
            }
        },
        None => None,
    }
}

/// An entry object at `i`.
pub open spec fn spec_parse_entry(s: Seq<u8>, i: int) -> Option<(FieldsAccS, int)> {
    if 0 <= i < s.len() && s[i] == 0x7b {
        let j = spec_ws(s, i + 1);
        if j < s.len() && s[j] == 0x7d {
            Some((empty_fields(), j + 1))
        } else {
            spec_members(s, j, empty_fields())
        }
    } else {
        None
    }
}

/// A whole response body holding one entry object: the object surrounded by
/// nothing but whitespace, with every required field present.
pub open spec fn spec_entry_doc(s: Seq<u8>) -> Option<RawEntryS> {
    let i = spec_ws(s, 0);
    match spec_parse_entry(s, i) {
        Some((f, j)) => {
            if 0 <= j <= s.len() && spec_ws(s, j) == s.len() && spec_fields_complete(f) {
                Some(spec_raw_of(f))
            } else {
                None
            }
        },
        None => None,
    }
}

pub(crate) fn is_key_id(k: &Vec<u8>) -> (r: bool)
    ensures
        r == (k@ == key_id()),
{
    let r = k.len() == 2 && k[0] == 0x69 && k[1] == 0x64;
    proof {
        if r {
            assert(k@ =~= key_id());
        }
    }
    r
}

fn is_key_project_id(k: &Vec<u8>) -> (r: bool)
    ensures
        r == (k@ == key_project_id()),
{
    let r = k.len() == 10 && k[0] == 0x70 && k[1] == 0x72 && k[2] == 0x6f && k[3] == 0x6a && k[4]
        == 0x65 && k[5] == 0x63 && k[6] == 0x74 && k[7] == 0x5f && k[8] == 0x69 && k[9] == 0x64;
    proof {
        if r {
            assert(k@ =~= key_project_id());
        }
    }
    r
}

pub(crate) fn is_key_workspace_id(k: &Vec<u8>) -> (r: bool)
    ensures
        r == (k@ == key_workspace_id()),
{
    let r = k.len() == 12 && k[0] == 0x77 && k[1] == 0x6f && k[2] == 0x72 && k[3] == 0x6b && k[4]
        == 0x73 && k[5] == 0x70 && k[6] == 0x61 && k[7] == 0x63 && k[8] == 0x65 && k[9] == 0x5f
        && k[10] == 0x69 && k[11] == 0x64;
    proof {
        if r {
            assert(k@ =~= key_workspace_id());
        }
    }
    r
}

fn is_key_description(k: &Vec<u8>) -> (r: bool)
    ensures
        r == (k@ == key_description()),
{
    let r = k.len() == 11 && k[0] == 0x64 && k[1] == 0x65 && k[2] == 0x73 && k[3] == 0x63 && k[4]
        == 0x72 && k[5] == 0x69 && k[6] == 0x70 && k[7] == 0x74 && k[8] == 0x69 && k[9] == 0x6f
        && k[10] == 0x6e;
    proof {
        if r {
            assert(k@ =~= key_description());
        }
    }
    r
}

fn is_key_start(k: &Vec<u8>) -> (r: bool)
    ensures
        r == (k@ == key_start()),
{
    let r = k.len() == 5 && k[0] == 0x73 && k[1] == 0x74 && k[2] == 0x61 && k[3] == 0x72 && k[4]
        == 0x74;
    proof {
        if r {
            assert(k@ =~= key_start());
        }
    }
    r
}

fn is_key_stop(k: &Vec<u8>) -> (r: bool)
    ensures
        r == (k@ == key_stop()),
{
    let r = k.len() == 4 && k[0] == 0x73 && k[1] == 0x74 && k[2] == 0x6f && k[3] == 0x70;
    proof {
        if r {
            assert(k@ =~= key_stop());
        }
    }
    r
}

fn is_key_duration(k: &Vec<u8>) -> (r: bool)
    ensures
        r == (k@ == key_duration()),
{
    let r = k.len() == 8 && k[0] == 0x64 && k[1] == 0x75 && k[2] == 0x72 && k[3] == 0x61 && k[4]
        == 0x74 && k[5] == 0x69 && k[6] == 0x6f && k[7] == 0x6e;
    proof {
        if r {
            assert(k@ =~= key_duration());
        }
    }
    r
}

/// Field accumulator while walking an entry object.
struct FieldsAcc {
    id: Option<u64>,
    project_id: Option<u64>,
    workspace_id: Option<u64>,
    description: Option<Vec<u8>>,
    start: Option<Vec<u8>>,
    stop: Option<Option<Vec<u8>>>,
    duration: Option<i64>,
}

impl FieldsAcc {
    spec fn view(&self) -> FieldsAccS {
        FieldsAccS {
            id: match self.id {
                Some(n) => Some(n as int),
                None => None,
            },
            project_id: match self.project_id {
                Some(n) => Some(n as int),
                None => None,
            },
            workspace_id: match self.workspace_id {
                Some(n) => Some(n as int),
                None => None,
            },
            description: match self.description {
                Some(ref d) => Some(d@),
                None => None,
            },
            start: match self.start {
                Some(ref d) => Some(d@),
                None => None,
            },
            stop: match self.stop {
                Some(Some(ref d)) => Some(Some(d@)),
                Some(None) => Some(None),
                None => None,
            },
            duration: match self.duration {
                Some(n) => Some(n as int),
                None => None,
            },
        }
    }
}

fn member_value(s: &[u8], v: usize, k: &Vec<u8>, acc: FieldsAcc) -> (r: Option<(FieldsAcc, usize)>)
    requires
        v <= s.len(),
    ensures
        match r {
            Some((acc2, m)) => spec_member_value(s@, v as int, k@, acc.view()) == Some(
                (acc2.view(), m as int),
            ) && v < m <= s.len(),
            None => spec_member_value(s@, v as int, k@, acc.view()) is None,
        },
{
    let mut acc = acc;
    if is_key_id(k) {
        match parse_u64_at(s, v) {
            Some((n, m)) => {
                acc.id = Some(n);
                Some((acc, m))
            },
            None => None,
        }
    } else if is_key_project_id(k) {
        match parse_u64_at(s, v) {
            Some((n, m)) => {
                acc.project_id = Some(n);
                Some((acc, m))
            },
            None => None,
        }
    } else if is_key_workspace_id(k) {
        match parse_u64_at(s, v) {
            Some((n, m)) => {
                acc.workspace_id = Some(n);
                Some((acc, m))
            },
            None => None,
        }
    } else if is_key_description(k) {
        match parse_string_at(s, v) {
            Some((d, m)) => {
                acc.description = Some(d);
                Some((acc, m))
            },
            None => None,
        }
    } else if is_key_start(k) {
        match parse_string_at(s, v) {
            Some((d, m)) => {
                acc.start = Some(d);
                Some((acc, m))
            },
            None => None,
        }
    } else if is_key_stop(k) {
        if s.len() - v >= 4 && s[v] == 0x6e && s[v + 1] == 0x75 && s[v + 2] == 0x6c && s[v + 3]
            == 0x6c {
            acc.stop = Some(None);
            Some((acc, v + 4))
        } else {
            match parse_string_at(s, v) {
                Some((d, m)) => {
                    acc.stop = Some(Some(d));
                    Some((acc, m))
                },
                None => None,
            }
        }
    } else if is_key_duration(k) {
        match parse_i64_at(s, v) {
            Some((n, m)) => {
                acc.duration = Some(n);
                Some((acc, m))
            },
            None => None,
        }
    } else {
        match skip_value(s, v) {
            Some(m) => Some((acc, m)),
            None => None,
        }
    }
}

fn members(s: &[u8], i: usize, acc: FieldsAcc) -> (r: Option<(FieldsAcc, usize)>)
    requires
        i <= s.len(),
    ensures
        match r {
            Some((f, j)) => spec_members(s@, i as int, acc.view()) == Some((f.view(), j as int))
                && i < j <= s.len(),
            None => spec_members(s@, i as int, acc.view()) is None,
        },
    decreases s@.len() - i,
{
    match parse_string_at(s, i) {
        Some((k, j)) => {
            let c = ws(s, j);
            if c < s.len() && s[c] == 0x3a {
                let v = ws(s, c + 1);
                match member_value(s, v, &k, acc) {
                    Some((acc2, m)) => {
                        let c2 = ws(s, m);
                        if c2 < s.len() && s[c2] == 0x2c {
                            let n = ws(s, c2 + 1);
                            members(s, n, acc2)
                        } else if c2 < s.len() && s[c2] == 0x7d {
                            Some((acc2, c2 + 1))
                        } else {
                            None
                        }
                    },
                    None => None,
                }
            } else {
                None
            }
        },
        None => None,
    }
}

/// Parse a whole response body holding one entry object.
pub fn parse_entry_doc(s: &[u8]) -> (r: Option<RawEntry>)
    ensures
        match r {
            Some(e) => spec_entry_doc(s@) == Some(e@),
            None => spec_entry_doc(s@) is None,
        },
{
    let i = ws(s, 0);
    let parsed: Option<(FieldsAcc, usize)> = if i < s.len() && s[i] == 0x7b {
        let j = ws(s, i + 1);
        if j < s.len() && s[j] == 0x7d {
            Some(
                (
                    FieldsAcc {
                        id: None,
                        project_id: None,
                        workspace_id: None,
                        description: None,
                        start: None,
                        stop: None,
                        duration: None,
                    },
                    j + 1,
                ),
            )
        } else {
            members(
                s,
                j,
                FieldsAcc {
                    id: None,
                    project_id: None,
                    workspace_id: None,
                    description: None,
                    start: None,
                    stop: None,
                    duration: None,
                },
            )
        }
    } else {
        None
    };
    match parsed {
        Some((f, j)) => {
            if ws(s, j) != s.len() {
                return None;
            }
            match (f.id, f.project_id, f.workspace_id, f.description, f.start, f.duration) {
                (Some(id), Some(project_id), Some(workspace_id), Some(description), Some(start),
                    Some(duration)) => {
                    let stop: Option<Vec<u8>> = match f.stop {
                        Some(x) => x,
                        None => None,
                    };
                    Some(
                        RawEntry {
                            id,
                            project_id,
                            workspace_id,
                            description,
                            start,
                            stop,
                            duration,
                        },
                    )
                },
                _ => None,
            }
        },
        None => None,
    }
}


/// The bytes `null`.
pub open spec fn null_lit() -> Seq<u8> {
    seq![0x6eu8, 0x75u8, 0x6cu8, 0x6cu8]
}

/// Rendering of a raw stop value: the timestamp text quoted, or `null`.
pub open spec fn stop_val(stop_raw: Option<Seq<u8>>) -> Seq<u8> {
    match stop_raw {
        None => null_lit(),
        Some(t) => spec_quote(t),
    }
}

/// Tail of the canonical entry body from the `duration` member on.
pub open spec fn tail_duration(duration: int) -> Seq<u8> {
    spec_quote(key_duration()) + (seq![0x3au8] + (spec_dec_i64(duration) + seq![0x7du8]))
}

/// Tail from the `stop` member on.
pub open spec fn tail_stop(stop_raw: Option<Seq<u8>>, duration: int) -> Seq<u8> {
    spec_quote(key_stop()) + (seq![0x3au8] + (stop_val(stop_raw) + (seq![0x2cu8]
        + tail_duration(duration))))
}

/// Tail from the `start` member on.
pub open spec fn tail_start(start_raw: Seq<u8>, stop_raw: Option<Seq<u8>>, duration: int) -> Seq<
    u8,
> {
    spec_quote(key_start()) + (seq![0x3au8] + (spec_quote(start_raw) + (seq![0x2cu8] + tail_stop(
        stop_raw,
        duration,
    ))))
}

/// Tail from the `description` member on.
pub open spec fn tail_description(
    description: Seq<u8>,
    start_raw: Seq<u8>,
    stop_raw: Option<Seq<u8>>,
    duration: int,
) -> Seq<u8> {
    spec_quote(key_description()) + (seq![0x3au8] + (spec_quote(description) + (seq![0x2cu8]
        + tail_start(start_raw, stop_raw, duration))))
}

/// Tail from the `project_id` member on.
pub open spec fn tail_project(
    project_id: int,
    description: Seq<u8>,
    start_raw: Seq<u8>,
    stop_raw: Option<Seq<u8>>,
    duration: int,
) -> Seq<u8> {
    spec_quote(key_project_id()) + (seq![0x3au8] + (spec_dec(project_id) + (seq![0x2cu8]
        + tail_description(description, start_raw, stop_raw, duration))))
}

/// Tail from the `workspace_id` member on.
pub open spec fn tail_workspace(
    workspace_id: int,
    project_id: int,
    description: Seq<u8>,
    start_raw: Seq<u8>,
    stop_raw: Option<Seq<u8>>,
    duration: int,
) -> Seq<u8> {
    spec_quote(key_workspace_id()) + (seq![0x3au8] + (spec_dec(workspace_id) + (seq![0x2cu8]
        + tail_project(project_id, description, start_raw, stop_raw, duration))))
}

/// The canonical body for one entry: every field of the entry, in a fixed
/// order, with no insignificant bytes.
pub open spec fn spec_entry_body(e: RawEntryS) -> Seq<u8> {
    seq![0x7bu8] + (spec_quote(key_id()) + (seq![0x3au8] + (spec_dec(e.id) + (seq![0x2cu8]
        + tail_workspace(
        e.workspace_id,
        e.project_id,
        e.description,
        e.start,
        e.stop,
        e.duration,
    )))))
}

proof fn lemma_split(s: Seq<u8>, p: int, a: Seq<u8>, b: Seq<u8>)
    requires
        0 <= p,
        p + a.len() + b.len() <= s.len(),
        s.subrange(p, p + a.len() + b.len()) == a + b,
    ensures
        s.subrange(p, p + a.len()) == a,
        s.subrange(p + a.len(), p + a.len() + b.len()) == b,
{
    let ab = a + b;
    assert(s.subrange(p, p + a.len()) =~= a) by {
        assert forall|t: int|
            0 <= t < a.len() implies #[trigger] s.subrange(p, p + a.len())[t] == a[t] by {
            assert(s.subrange(p, p + a.len())[t] == s[p + t]);
            assert(s.subrange(p, p + ab.len())[t] == s[p + t]);
            assert(ab[t] == a[t]);
        };
    };
    assert(s.subrange(p + a.len(), p + ab.len()) =~= b) by {
        assert forall|t: int|
            0 <= t < b.len() implies #[trigger] s.subrange(p + a.len(), p + ab.len())[t]
            == b[t] by {
            assert(s.subrange(p + a.len(), p + ab.len())[t] == s[p + (a.len() + t)]);
            assert(s.subrange(p, p + ab.len())[a.len() + t] == s[p + (a.len() + t)]);
            assert(ab[a.len() + t] == b[t]);
        };
    };
}

proof fn lemma_byte(s: Seq<u8>, p: int, b: u8)
    requires
        0 <= p,
        p + 1 <= s.len(),
        s.subrange(p, p + 1) == seq![b],
    ensures
        s[p] == b,
{
    assert(s.subrange(p, p + 1)[0] == s[p]);
}

/// A known key's quoted form begins with a quote byte.
proof fn lemma_quote_first(d: Seq<u8>)
    ensures
        spec_quote(d).len() >= 2,
        spec_quote(d)[0] == 0x22,
{
    assert(spec_quote(d)[0] == 0x22);
}

/// Step over one member whose value is an unsigned number, with another
/// member following.
proof fn lemma_member_u64(
    s: Seq<u8>,
    i: int,
    key: Seq<u8>,
    n: int,
    rest: Seq<u8>,
    acc: FieldsAccS,
    acc2: FieldsAccS,
)
    requires
        0 <= i,
        key == key_id() || key == key_workspace_id() || key == key_project_id(),
        0 <= n <= 0xffff_ffff_ffff_ffff,
        rest.len() >= 1,
        rest[0] == 0x22,
        i + spec_quote(key).len() + 1 + spec_dec(n).len() + 1 + rest.len() <= s.len(),
        s.subrange(
            i,
            i + spec_quote(key).len() + 1 + spec_dec(n).len() + 1 + rest.len(),
        ) == spec_quote(key) + (seq![0x3au8] + (spec_dec(n) + (seq![0x2cu8] + rest))),
        acc2 == (if key == key_id() {
            FieldsAccS { id: Some(n), ..acc }
        } else if key == key_workspace_id() {
            FieldsAccS { workspace_id: Some(n), ..acc }
        } else {
            FieldsAccS { project_id: Some(n), ..acc }
        }),
    ensures
        ({
            let next = i + spec_quote(key).len() + 1 + spec_dec(n).len() + 1;
            &&& spec_members(s, i, acc) == spec_members(s, next, acc2)
            &&& s.subrange(next, next + rest.len()) == rest
        }),
{
    let q = spec_quote(key);
    let d = spec_dec(n);
    let j = i + q.len();
    let v = j + 1;
    let m = v + d.len();
    let next = m + 1;
    lemma_split(s, i, q, seq![0x3au8] + (d + (seq![0x2cu8] + rest)));
    lemma_split(s, j, seq![0x3au8], d + (seq![0x2cu8] + rest));
    lemma_byte(s, j, 0x3a);
    lemma_split(s, v, d, seq![0x2cu8] + rest);
    lemma_split(s, m, seq![0x2cu8], rest);
    lemma_byte(s, m, 0x2c);
    lemma_parse_string_of_quote(s, i, key);
    lemma_dec_props(n);
    assert(s[v] == s.subrange(v, v + d.len())[0]);
    assert(is_digit(s[v]));
    lemma_ws_at_significant(s, j);
    lemma_ws_at_significant(s, v);
    lemma_parse_u64_of_dec(s, v, n);
    lemma_ws_at_significant(s, m);
    assert(s[next] == s.subrange(next, next + rest.len())[0]);
    assert(s[next] == 0x22);
    lemma_ws_at_significant(s, next);
    assert(spec_member_value(s, v, key, acc) == Some((acc2, m)));
    assert(spec_members(s, i, acc) == spec_members(s, next, acc2));
}

/// Step over one member whose value is a quoted string, with another member
/// following.
proof fn lemma_member_str(
    s: Seq<u8>,
    i: int,
    key: Seq<u8>,
    d: Seq<u8>,
    rest: Seq<u8>,
    acc: FieldsAccS,
    acc2: FieldsAccS,
)
    requires
        0 <= i,
        key == key_description() || key == key_start() || key == key_stop(),
        rest.len() >= 1,
        rest[0] == 0x22,
        i + spec_quote(key).len() + 1 + spec_quote(d).len() + 1 + rest.len() <= s.len(),
        s.subrange(
            i,
            i + spec_quote(key).len() + 1 + spec_quote(d).len() + 1 + rest.len(),
        ) == spec_quote(key) + (seq![0x3au8] + (spec_quote(d) + (seq![0x2cu8] + rest))),
        acc2 == (if key == key_description() {
            FieldsAccS { description: Some(d), ..acc }
        } else if key == key_start() {
            FieldsAccS { start: Some(d), ..acc }
        } else {
            FieldsAccS { stop: Some(Some(d)), ..acc }
        }),
    ensures
        ({
            let next = i + spec_quote(key).len() + 1 + spec_quote(d).len() + 1;
            &&& spec_members(s, i, acc) == spec_members(s, next, acc2)
            &&& s.subrange(next, next + rest.len()) == rest
        }),
{
    let q = spec_quote(key);
    let qd = spec_quote(d);
    let j = i + q.len();
    let v = j + 1;
    let m = v + qd.len();
    let next = m + 1;
    lemma_split(s, i, q, seq![0x3au8] + (qd + (seq![0x2cu8] + rest)));
    lemma_split(s, j, seq![0x3au8], qd + (seq![0x2cu8] + rest));
    lemma_byte(s, j, 0x3a);
    lemma_split(s, v, qd, seq![0x2cu8] + rest);
    lemma_split(s, m, seq![0x2cu8], rest);
    lemma_byte(s, m, 0x2c);
    lemma_parse_string_of_quote(s, i, key);
    lemma_quote_first(d);
    assert(s[v] == s.subrange(v, v + qd.len())[0]);
    assert(s[v] == 0x22);
    lemma_ws_at_significant(s, j);
    lemma_ws_at_significant(s, v);
    lemma_parse_string_of_quote(s, v, d);
    lemma_ws_at_significant(s, m);
    assert(s[next] == s.subrange(next, next + rest.len())[0]);
    assert(s[next] == 0x22);
    lemma_ws_at_significant(s, next);
    assert(!spec_lit_null(s, v));
    assert(spec_member_value(s, v, key, acc) == Some((acc2, m)));
    assert(spec_members(s, i, acc) == spec_members(s, next, acc2));
}

/// Step over a `stop` member holding `null`, with another member following.
proof fn lemma_member_stop_null(
    s: Seq<u8>,
    i: int,
    rest: Seq<u8>,
    acc: FieldsAccS,
    acc2: FieldsAccS,
)
    requires
        0 <= i,
        rest.len() >= 1,
        rest[0] == 0x22,
        i + spec_quote(key_stop()).len() + 1 + 4 + 1 + rest.len() <= s.len(),
        s.subrange(
            i,
            i + spec_quote(key_stop()).len() + 1 + 4 + 1 + rest.len(),
        ) == spec_quote(key_stop()) + (seq![0x3au8] + (null_lit() + (seq![0x2cu8] + rest))),
        acc2 == (FieldsAccS { stop: Some(None), ..acc }),
    ensures
        ({
            let next = i + spec_quote(key_stop()).len() + 1 + 4 + 1;
            &&& spec_members(s, i, acc) == spec_members(s, next, acc2)
            &&& s.subrange(next, next + rest.len()) == rest
        }),
{
    let q = spec_quote(key_stop());
    let j = i + q.len();
    let v = j + 1;
    let m = v + 4;
    let next = m + 1;
    lemma_split(s, i, q, seq![0x3au8] + (null_lit() + (seq![0x2cu8] + rest)));
    lemma_split(s, j, seq![0x3au8], null_lit() + (seq![0x2cu8] + rest));
    lemma_byte(s, j, 0x3a);
    lemma_split(s, v, null_lit(), seq![0x2cu8] + rest);
    lemma_split(s, m, seq![0x2cu8], rest);
    lemma_byte(s, m, 0x2c);
    lemma_parse_string_of_quote(s, i, key_stop());
    assert(s[v] == s.subrange(v, v + 4)[0]);
    assert(s[v + 1] == s.subrange(v, v + 4)[1]);
    assert(s[v + 2] == s.subrange(v, v + 4)[2]);
    assert(s[v + 3] == s.subrange(v, v + 4)[3]);
    assert(s[v] == 0x6e && s[v + 1] == 0x75 && s[v + 2] == 0x6c && s[v + 3] == 0x6c);
    assert(spec_lit_null(s, v));
    lemma_ws_at_significant(s, j);
    lemma_ws_at_significant(s, v);
    lemma_ws_at_significant(s, m);
    assert(s[next] == s.subrange(next, next + rest.len())[0]);
    assert(s[next] == 0x22);
    lemma_ws_at_significant(s, next);
    assert(spec_member_value(s, v, key_stop(), acc) == Some((acc2, m)));
    assert(spec_members(s, i, acc) == spec_members(s, next, acc2));
}

/// Step over the final `duration` member and the closing brace.
proof fn lemma_member_last_i64(s: Seq<u8>, i: int, n: int, acc: FieldsAccS, acc2: FieldsAccS)
    requires
        0 <= i,
        -0x8000_0000_0000_0000 <= n <= 0x7fff_ffff_ffff_ffff,
        i + spec_quote(key_duration()).len() + 1 + spec_dec_i64(n).len() + 1 <= s.len(),
        s.subrange(
            i,
            i + spec_quote(key_duration()).len() + 1 + spec_dec_i64(n).len() + 1,
        ) == spec_quote(key_duration()) + (seq![0x3au8] + (spec_dec_i64(n) + seq![0x7du8])),
        acc2 == (FieldsAccS { duration: Some(n), ..acc }),
    ensures
        spec_members(s, i, acc) == Some(
            (acc2, i + spec_quote(key_duration()).len() + 1 + spec_dec_i64(n).len() + 1),
        ),
{
    let q = spec_quote(key_duration());
    let d = spec_dec_i64(n);
    let j = i + q.len();
    let v = j + 1;
    let m = v + d.len();
    lemma_split(s, i, q, seq![0x3au8] + (d + seq![0x7du8]));
    lemma_split(s, j, seq![0x3au8], d + seq![0x7du8]);
    lemma_byte(s, j, 0x3a);
    lemma_split(s, v, d, seq![0x7du8]);
    lemma_byte(s, m, 0x7d);
    lemma_parse_string_of_quote(s, i, key_duration());
    if n < 0 {
        assert(d[0] == 0x2d);
    } else {
        lemma_dec_props(n);
        assert(d[0] == spec_dec(n)[0]);
    }
    assert(s[v] == s.subrange(v, v + d.len())[0]);
    assert(!is_ws_byte(s[v]) && s[v] != 0x2f);
    lemma_ws_at_significant(s, j);
    lemma_ws_at_significant(s, v);
    lemma_parse_i64_of_dec(s, v, n);
    lemma_ws_at_significant(s, m);
    assert(spec_member_value(s, v, key_duration(), acc) == Some((acc2, m)));
    assert(spec_members(s, i, acc) == Some((acc2, m + 1)));
}


/// The members of the canonical body from the `start` member on, parsed
/// from a position holding `tail_start`, complete the walk.
#[verifier::spinoff_prover]
proof fn lemma_tail_start_round_trip(
    s: Seq<u8>,
    p: int,
    start_raw: Seq<u8>,
    stop_raw: Option<Seq<u8>>,
    duration: int,
    acc: FieldsAccS,
)
    requires
        0 <= p,
        -0x8000_0000_0000_0000 <= duration <= 0x7fff_ffff_ffff_ffff,
        p + tail_start(start_raw, stop_raw, duration).len() == s.len(),
        s.subrange(p, s.len() as int) == tail_start(start_raw, stop_raw, duration),
    ensures
        spec_members(s, p, acc) == Some(
            (
                (FieldsAccS {
                    start: Some(start_raw),
                    stop: Some(stop_raw),
                    duration: Some(duration),
                    ..acc
                }),
                s.len() as int,
            ),
        ),
{
    let t_stop = tail_stop(stop_raw, duration);
    let t_dur = tail_duration(duration);
    lemma_quote_first(key_stop());
    lemma_quote_first(key_duration());
    assert(t_stop[0] == 0x22);
    assert(t_dur[0] == 0x22);
    let acc5 = FieldsAccS { start: Some(start_raw), ..acc };
    let acc6 = FieldsAccS { stop: Some(stop_raw), ..acc5 };
    let acc7 = FieldsAccS { duration: Some(duration), ..acc6 };
    let p6 = p + spec_quote(key_start()).len() + 1 + spec_quote(start_raw).len() + 1;
    assert(p6 + t_stop.len() == s.len());
    lemma_member_str(s, p, key_start(), start_raw, t_stop, acc, acc5);
    let p7 = p6 + spec_quote(key_stop()).len() + 1 + stop_val(stop_raw).len() + 1;
    assert(p7 + t_dur.len() == s.len());
    match stop_raw {
        None => {
            assert(stop_val(stop_raw) == null_lit());
            lemma_member_stop_null(s, p6, t_dur, acc5, acc6);
        },
        Some(tb) => {
            assert(stop_val(stop_raw) == spec_quote(tb));
            lemma_member_str(s, p6, key_stop(), tb, t_dur, acc5, acc6);
        },
    }
    assert(p7 + spec_quote(key_duration()).len() + 1 + spec_dec_i64(duration).len() + 1
        == s.len());
    lemma_member_last_i64(s, p7, duration, acc6, acc7);
    assert(acc7 == (FieldsAccS {
        start: Some(start_raw),
        stop: Some(stop_raw),
        duration: Some(duration),
        ..acc
    }));
}

/// The members from `description` on complete the walk.
#[verifier::spinoff_prover]
proof fn lemma_tail_desc_round_trip(
    s: Seq<u8>,
    p: int,
    description: Seq<u8>,
    start_raw: Seq<u8>,
    stop_raw: Option<Seq<u8>>,
    duration: int,
    acc: FieldsAccS,
)
    requires
        0 <= p,
        -0x8000_0000_0000_0000 <= duration <= 0x7fff_ffff_ffff_ffff,
        p + tail_description(description, start_raw, stop_raw, duration).len() == s.len(),
        s.subrange(p, s.len() as int) == tail_description(
            description,
            start_raw,
            stop_raw,
            duration,
        ),
    ensures
        spec_members(s, p, acc) == Some(
            (
                (FieldsAccS {
                    description: Some(description),
                    start: Some(start_raw),
                    stop: Some(stop_raw),
                    duration: Some(duration),
                    ..acc
                }),
                s.len() as int,
            ),
        ),
{
    let t_start = tail_start(start_raw, stop_raw, duration);
    lemma_quote_first(key_start());
    assert(t_start[0] == 0x22);
    let acc4 = FieldsAccS { description: Some(description), ..acc };
    let p5 = p + spec_quote(key_description()).len() + 1 + spec_quote(description).len() + 1;
    assert(p5 + t_start.len() == s.len());
    lemma_member_str(s, p, key_description(), description, t_start, acc, acc4);
    assert(s.subrange(p5, s.len() as int) == t_start);
    lemma_tail_start_round_trip(s, p5, start_raw, stop_raw, duration, acc4);
}

/// The members from `workspace_id` on complete the walk.
#[verifier::spinoff_prover]
proof fn lemma_tail_ws_round_trip(
    s: Seq<u8>,
    p: int,
    workspace_id: int,
    project_id: int,
    description: Seq<u8>,
    start_raw: Seq<u8>,
    stop_raw: Option<Seq<u8>>,
    duration: int,
    acc: FieldsAccS,
)
    requires
        0 <= p,
        0 <= workspace_id <= 0xffff_ffff_ffff_ffff,
        0 <= project_id <= 0xffff_ffff_ffff_ffff,
        -0x8000_0000_0000_0000 <= duration <= 0x7fff_ffff_ffff_ffff,
        p + tail_workspace(workspace_id, project_id, description, start_raw, stop_raw, duration).len() == s.len(),
        s.subrange(p, s.len() as int) == tail_workspace(
            workspace_id,
            project_id,
            description,
            start_raw,
            stop_raw,
            duration,
        ),
    ensures
        spec_members(s, p, acc) == Some(
            (
                (FieldsAccS {
                    workspace_id: Some(workspace_id),
                    project_id: Some(project_id),
                    description: Some(description),
                    start: Some(start_raw),
                    stop: Some(stop_raw),
                    duration: Some(duration),
                    ..acc
                }),
                s.len() as int,
            ),
        ),
{
    let t_pid = tail_project(project_id, description, start_raw, stop_raw, duration);
    let t_desc = tail_description(description, start_raw, stop_raw, duration);
    lemma_quote_first(key_project_id());
    lemma_quote_first(key_description());
    assert(t_pid[0] == 0x22);
    assert(t_desc[0] == 0x22);
    let acc2 = FieldsAccS { workspace_id: Some(workspace_id), ..acc };
    let acc3 = FieldsAccS { project_id: Some(project_id), ..acc2 };
    let p3 = p + spec_quote(key_workspace_id()).len() + 1 + spec_dec(workspace_id).len() + 1;
    assert(p3 + t_pid.len() == s.len());
    lemma_member_u64(s, p, key_workspace_id(), workspace_id, t_pid, acc, acc2);
    let p4 = p3 + spec_quote(key_project_id()).len() + 1 + spec_dec(project_id).len() + 1;
    assert(p4 + t_desc.len() == s.len());
    lemma_member_u64(s, p3, key_project_id(), project_id, t_desc, acc2, acc3);
    assert(s.subrange(p4, s.len() as int) == t_desc);
    lemma_tail_desc_round_trip(s, p4, description, start_raw, stop_raw, duration, acc3);
}

/// Round trip: the canonical entry body parses back to exactly the entry it
/// was built from.  This holds for every entry whose numeric fields are in
/// range, whatever bytes its description and timestamp texts hold.
#[verifier::rlimit(100)]
#[verifier::spinoff_prover]
pub proof fn lemma_entry_body_round_trip(e: RawEntryS)
    requires
        0 <= e.id <= 0xffff_ffff_ffff_ffff,
        0 <= e.workspace_id <= 0xffff_ffff_ffff_ffff,
        0 <= e.project_id <= 0xffff_ffff_ffff_ffff,
        -0x8000_0000_0000_0000 <= e.duration <= 0x7fff_ffff_ffff_ffff,
    ensures
        spec_entry_doc(spec_entry_body(e)) == Some(e),
{
    let s = spec_entry_body(e);
    let t_ws = tail_workspace(
        e.workspace_id,
        e.project_id,
        e.description,
        e.start,
        e.stop,
        e.duration,
    );
    let m1 = spec_quote(key_id()) + (seq![0x3au8] + (spec_dec(e.id) + (seq![0x2cu8] + t_ws)));
    assert(s.subrange(0, s.len() as int) =~= s);
    lemma_split(s, 0, seq![0x7bu8], m1);
    lemma_byte(s, 0, 0x7b);
    lemma_quote_first(key_id());
    lemma_quote_first(key_workspace_id());
    assert(t_ws[0] == 0x22);
    let acc0 = empty_fields();
    let acc1 = FieldsAccS { id: Some(e.id), ..acc0 };
    let p1 = 1int;
    let p2 = p1 + spec_quote(key_id()).len() + 1 + spec_dec(e.id).len() + 1;
    assert(p2 + t_ws.len() == s.len());
    lemma_member_u64(s, p1, key_id(), e.id, t_ws, acc0, acc1);
    assert(s.subrange(p2, s.len() as int) == t_ws);
    lemma_tail_ws_round_trip(
        s,
        p2,
        e.workspace_id,
        e.project_id,
        e.description,
        e.start,
        e.stop,
        e.duration,
        acc1,
    );
    let acc7 = FieldsAccS {
        workspace_id: Some(e.workspace_id),
        project_id: Some(e.project_id),
        description: Some(e.description),
        start: Some(e.start),
        stop: Some(e.stop),
        duration: Some(e.duration),
        ..acc1
    };
    assert(spec_members(s, p1, acc0) == Some((acc7, s.len() as int)));
    assert(s[1] == 0x22) by {
        assert(s.subrange(1, 1 + m1.len() as int)[0] == s[1]);
        assert(m1[0] == 0x22);
    };
    lemma_ws_at_significant(s, 1);
    assert(spec_parse_entry(s, 0) == Some((acc7, s.len() as int)));
    lemma_ws_at_significant(s, 0);
    assert(spec_ws(s, s.len() as int) == s.len());
    assert(spec_fields_complete(acc7));
    assert(spec_raw_of(acc7) == e);
}

fn key_id_vec() -> (r: Vec<u8>)
    ensures
        r@ == key_id(),
{
    let mut v: Vec<u8> = Vec::new();
    v.push(0x69);
    v.push(0x64);
    proof {
        assert(v@ =~= key_id());
    }
    v
}

fn key_project_id_vec() -> (r: Vec<u8>)
    ensures
        r@ == key_project_id(),
{
    let mut v: Vec<u8> = Vec::new();
    v.push(0x70);
    v.push(0x72);
    v.push(0x6f);
    v.push(0x6a);
    v.push(0x65);
    v.push(0x63);
    v.push(0x74);
    v.push(0x5f);
    v.push(0x69);
    v.push(0x64);
    proof {
        assert(v@ =~= key_project_id());
    }
    v
}

fn key_workspace_id_vec() -> (r: Vec<u8>)
    ensures
        r@ == key_workspace_id(),
{
    let mut v: Vec<u8> = Vec::new();
    v.push(0x77);
    v.push(0x6f);
    v.push(0x72);
    v.push(0x6b);
    v.push(0x73);
    v.push(0x70);
    v.push(0x61);
    v.push(0x63);
    v.push(0x65);
    v.push(0x5f);
    v.push(0x69);
    v.push(0x64);
    proof {
        assert(v@ =~= key_workspace_id());
    }
    v
}

fn key_description_vec() -> (r: Vec<u8>)
    ensures
        r@ == key_description(),
{
    let mut v: Vec<u8> = Vec::new();
    v.push(0x64);
    v.push(0x65);
    v.push(0x73);
    v.push(0x63);
    v.push(0x72);
    v.push(0x69);
    v.push(0x70);
    v.push(0x74);
    v.push(0x69);
    v.push(0x6f);
    v.push(0x6e);
    proof {
        assert(v@ =~= key_description());
    }
    v
}

fn key_start_vec() -> (r: Vec<u8>)
    ensures
        r@ == key_start(),
{
    let mut v: Vec<u8> = Vec::new();
    v.push(0x73);
    v.push(0x74);
    v.push(0x61);
    v.push(0x72);
    v.push(0x74);
    proof {
        assert(v@ =~= key_start());
    }
    v
}

fn key_stop_vec() -> (r: Vec<u8>)
    ensures
        r@ == key_stop(),
{
    let mut v: Vec<u8> = Vec::new();
    v.push(0x73);
    v.push(0x74);
    v.push(0x6f);
    v.push(0x70);
    proof {
        assert(v@ =~= key_stop());
    }
    v
}

fn key_duration_vec() -> (r: Vec<u8>)
    ensures
        r@ == key_duration(),
{
    let mut v: Vec<u8> = Vec::new();
    v.push(0x64);
    v.push(0x75);
    v.push(0x72);
    v.push(0x61);
    v.push(0x74);
    v.push(0x69);
    v.push(0x6f);
    v.push(0x6e);
    proof {
        assert(v@ =~= key_duration());
    }
    v
}

fn push_byte(out: &mut Vec<u8>, b: u8)
    ensures
        final(out)@ == old(out)@ + seq![b],
{
    out.push(b);
    assert(out@ =~= old(out)@ + seq![b]);
}

fn push_null(out: &mut Vec<u8>)
    ensures
        final(out)@ == old(out)@ + null_lit(),
{
    out.push(0x6e);
    out.push(0x75);
    out.push(0x6c);
    out.push(0x6c);
    assert(out@ =~= old(out)@ + null_lit());
}

/// The canonical body written as a flat chain of its segments.
#[verifier::spinoff_prover]
proof fn lemma_entry_body_assoc(e: RawEntryS)
    ensures
        ({
            let a1 = seq![0x7bu8];
            let a2 = spec_quote(key_id());
            let a3 = seq![0x3au8];
            let a4 = spec_dec(e.id);
            let a5 = seq![0x2cu8];
            let a6 = spec_quote(key_workspace_id());
            let a7 = seq![0x3au8];
            let a8 = spec_dec(e.workspace_id);
            let a9 = seq![0x2cu8];
            let a10 = spec_quote(key_project_id());
            let a11 = seq![0x3au8];
            let a12 = spec_dec(e.project_id);
            let a13 = seq![0x2cu8];
            let a14 = spec_quote(key_description());
            let a15 = seq![0x3au8];
            let a16 = spec_quote(e.description);
            let a17 = seq![0x2cu8];
            let a18 = spec_quote(key_start());
            let a19 = seq![0x3au8];
            let a20 = spec_quote(e.start);
            let a21 = seq![0x2cu8];
            let a22 = spec_quote(key_stop());
            let a23 = seq![0x3au8];
            let a24 = stop_val(e.stop);
            let a25 = seq![0x2cu8];
            let a26 = spec_quote(key_duration());
            let a27 = seq![0x3au8];
            let a28 = spec_dec_i64(e.duration);
            let a29 = seq![0x7du8];
            spec_entry_body(e) == a1 + a2 + a3 + a4 + a5 + a6 + a7 + a8 + a9 + a10 + a11 + a12 + a13 + a14 + a15 + a16 + a17 + a18 + a19 + a20 + a21 + a22 + a23 + a24 + a25 + a26 + a27 + a28 + a29
        }),
{
    let a1 = seq![0x7bu8];
    let a2 = spec_quote(key_id());
    let a3 = seq![0x3au8];
    let a4 = spec_dec(e.id);
    let a5 = seq![0x2cu8];
    let a6 = spec_quote(key_workspace_id());
    let a7 = seq![0x3au8];
    let a8 = spec_dec(e.workspace_id);
    let a9 = seq![0x2cu8];
    let a10 = spec_quote(key_project_id());
    let a11 = seq![0x3au8];
    let a12 = spec_dec(e.project_id);
    let a13 = seq![0x2cu8];
    let a14 = spec_quote(key_description());
    let a15 = seq![0x3au8];
    let a16 = spec_quote(e.description);
    let a17 = seq![0x2cu8];
    let a18 = spec_quote(key_start());
    let a19 = seq![0x3au8];
    let a20 = spec_quote(e.start);
    let a21 = seq![0x2cu8];
    let a22 = spec_quote(key_stop());
    let a23 = seq![0x3au8];
    let a24 = stop_val(e.stop);
    let a25 = seq![0x2cu8];
    let a26 = spec_quote(key_duration());
    let a27 = seq![0x3au8];
    let a28 = spec_dec_i64(e.duration);
    let a29 = seq![0x7du8];
    let s29 = a29;
    let s28 = a28 + s29;
    let s27 = a27 + s28;
    let s26 = a26 + s27;
    let s25 = a25 + s26;
    let s24 = a24 + s25;
    let s23 = a23 + s24;
    let s22 = a22 + s23;
    let s21 = a21 + s22;
    let s20 = a20 + s21;
    let s19 = a19 + s20;
    let s18 = a18 + s19;
    let s17 = a17 + s18;
    let s16 = a16 + s17;
    let s15 = a15 + s16;
    let s14 = a14 + s15;
    let s13 = a13 + s14;
    let s12 = a12 + s13;
    let s11 = a11 + s12;
    let s10 = a10 + s11;
    let s9 = a9 + s10;
    let s8 = a8 + s9;
    let s7 = a7 + s8;
    let s6 = a6 + s7;
    let s5 = a5 + s6;
    let s4 = a4 + s5;
    let s3 = a3 + s4;
    let s2 = a2 + s3;
    assert(s26 == tail_duration(e.duration));
    assert(s22 == tail_stop(e.stop, e.duration));
    assert(s18 == tail_start(e.start, e.stop, e.duration));
    assert(s14 == tail_description(e.description, e.start, e.stop, e.duration));
    assert(s10 == tail_project(e.project_id, e.description, e.start, e.stop, e.duration));
    assert(s6 == tail_workspace(e.workspace_id, e.project_id, e.description, e.start, e.stop, e.duration));
    assert(spec_entry_body(e) == a1 + s2);
    let p1 = a1;
    let p2 = p1 + a2;
    let p3 = p2 + a3;
    let p4 = p3 + a4;
    let p5 = p4 + a5;
    let p6 = p5 + a6;
    let p7 = p6 + a7;
    let p8 = p7 + a8;
    let p9 = p8 + a9;
    let p10 = p9 + a10;
    let p11 = p10 + a11;
    let p12 = p11 + a12;
    let p13 = p12 + a13;
    let p14 = p13 + a14;
    let p15 = p14 + a15;
    let p16 = p15 + a16;
    let p17 = p16 + a17;
    let p18 = p17 + a18;
    let p19 = p18 + a19;
    let p20 = p19 + a20;
    let p21 = p20 + a21;
    let p22 = p21 + a22;
    let p23 = p22 + a23;
    let p24 = p23 + a24;
    let p25 = p24 + a25;
    let p26 = p25 + a26;
    let p27 = p26 + a27;
    let p28 = p27 + a28;
    let p29 = p28 + a29;
    assert(p29 == p28 + s29);
    vstd::seq_lib::lemma_concat_associative(p27, a28, s29);
    assert(p27 + s28 == p28 + s29);
    vstd::seq_lib::lemma_concat_associative(p26, a27, s28);
    assert(p26 + s27 == p27 + s28);
    vstd::seq_lib::lemma_concat_associative(p25, a26, s27);
    assert(p25 + s26 == p26 + s27);
    vstd::seq_lib::lemma_concat_associative(p24, a25, s26);
    assert(p24 + s25 == p25 + s26);
    vstd::seq_lib::lemma_concat_associative(p23, a24, s25);
    assert(p23 + s24 == p24 + s25);
    vstd::seq_lib::lemma_concat_associative(p22, a23, s24);
    assert(p22 + s23 == p23 + s24);
    vstd::seq_lib::lemma_concat_associative(p21, a22, s23);
    assert(p21 + s22 == p22 + s23);
    vstd::seq_lib::lemma_concat_associative(p20, a21, s22);
    assert(p20 + s21 == p21 + s22);
    vstd::seq_lib::lemma_concat_associative(p19, a20, s21);
    assert(p19 + s20 == p20 + s21);
    vstd::seq_lib::lemma_concat_associative(p18, a19, s20);
    assert(p18 + s19 == p19 + s20);
    vstd::seq_lib::lemma_concat_associative(p17, a18, s19);
    assert(p17 + s18 == p18 + s19);
    vstd::seq_lib::lemma_concat_associative(p16, a17, s18);
    assert(p16 + s17 == p17 + s18);
    vstd::seq_lib::lemma_concat_associative(p15, a16, s17);
    assert(p15 + s16 == p16 + s17);
    vstd::seq_lib::lemma_concat_associative(p14, a15, s16);
    assert(p14 + s15 == p15 + s16);
    vstd::seq_lib::lemma_concat_associative(p13, a14, s15);
    assert(p13 + s14 == p14 + s15);
    vstd::seq_lib::lemma_concat_associative(p12, a13, s14);
    assert(p12 + s13 == p13 + s14);
    vstd::seq_lib::lemma_concat_associative(p11, a12, s13);
    assert(p11 + s12 == p12 + s13);
    vstd::seq_lib::lemma_concat_associative(p10, a11, s12);
    assert(p10 + s11 == p11 + s12);
    vstd::seq_lib::lemma_concat_associative(p9, a10, s11);
    assert(p9 + s10 == p10 + s11);
    vstd::seq_lib::lemma_concat_associative(p8, a9, s10);
    assert(p8 + s9 == p9 + s10);
    vstd::seq_lib::lemma_concat_associative(p7, a8, s9);
    assert(p7 + s8 == p8 + s9);
    vstd::seq_lib::lemma_concat_associative(p6, a7, s8);
    assert(p6 + s7 == p7 + s8);
    vstd::seq_lib::lemma_concat_associative(p5, a6, s7);
    assert(p5 + s6 == p6 + s7);
    vstd::seq_lib::lemma_concat_associative(p4, a5, s6);
    assert(p4 + s5 == p5 + s6);
    vstd::seq_lib::lemma_concat_associative(p3, a4, s5);
    assert(p3 + s4 == p4 + s5);
    vstd::seq_lib::lemma_concat_associative(p2, a3, s4);
    assert(p2 + s3 == p3 + s4);
    vstd::seq_lib::lemma_concat_associative(p1, a2, s3);
    assert(p1 + s2 == p2 + s3);
    assert(spec_entry_body(e) == p29);
}

/// Build the canonical body for one entry from its raw fields.
#[verifier::rlimit(100)]
#[verifier::spinoff_prover]
pub fn entry_body_bytes(
    id: u64,
    workspace_id: u64,
    project_id: u64,
    description: &Vec<u8>,
    start_raw: &Vec<u8>,
    stop_raw: &Option<Vec<u8>>,
    duration: i64,
) -> (r: Vec<u8>)
    ensures
        r@ == spec_entry_body(
            (RawEntryS {
                id: id as int,
                project_id: project_id as int,
                workspace_id: workspace_id as int,
                description: description@,
                start: start_raw@,
                stop: match *stop_raw {
                    Some(ref t) => Some(t@),
                    None => None,
                },
                duration: duration as int,
            }),
        ),
{
    let mut out: Vec<u8> = Vec::new();
    push_byte(&mut out, 0x7b);
    let k1 = key_id_vec();
    push_quoted(&mut out, k1.as_slice());
    push_byte(&mut out, 0x3a);
    let mut d1 = u64_to_dec(id);
    out.append(&mut d1);
    push_byte(&mut out, 0x2c);
    let k2 = key_workspace_id_vec();
    push_quoted(&mut out, k2.as_slice());
    push_byte(&mut out, 0x3a);
    let mut d2 = u64_to_dec(workspace_id);
    out.append(&mut d2);
    push_byte(&mut out, 0x2c);
    let k3 = key_project_id_vec();
    push_quoted(&mut out, k3.as_slice());
    push_byte(&mut out, 0x3a);
    let mut d3 = u64_to_dec(project_id);
    out.append(&mut d3);
    push_byte(&mut out, 0x2c);
    let k4 = key_description_vec();
    push_quoted(&mut out, k4.as_slice());
    push_byte(&mut out, 0x3a);
    push_quoted(&mut out, description.as_slice());
    push_byte(&mut out, 0x2c);
    let k5 = key_start_vec();
    push_quoted(&mut out, k5.as_slice());
    push_byte(&mut out, 0x3a);
    push_quoted(&mut out, start_raw.as_slice());
    push_byte(&mut out, 0x2c);
    let k6 = key_stop_vec();
    push_quoted(&mut out, k6.as_slice());
    push_byte(&mut out, 0x3a);
    match stop_raw {
        Some(t) => {
            push_quoted(&mut out, t.as_slice());
        },
        None => {
            push_null(&mut out);
        },
    }
    push_byte(&mut out, 0x2c);
    let k7 = key_duration_vec();
    push_quoted(&mut out, k7.as_slice());
    push_byte(&mut out, 0x3a);
    let mut d7 = i64_to_dec(duration);
    out.append(&mut d7);
    push_byte(&mut out, 0x7d);
    proof {
        let ee = RawEntryS {
            id: id as int,
            project_id: project_id as int,
            workspace_id: workspace_id as int,
            description: description@,
            start: start_raw@,
            stop: match *stop_raw {
                Some(ref t) => Some(t@),
                None => None,
            },
            duration: duration as int,
        };
        lemma_entry_body_assoc(ee);
        assert(Seq::<u8>::empty() + seq![0x7bu8] =~= seq![0x7bu8]);
        assert(out@ == spec_entry_body(ee));
    }
    out
}


/// Elements of a response listing entries, from the position of one entry
/// object on: each element must be a complete entry.
pub open spec fn spec_entry_elems(s: Seq<u8>, i: int, acc: Seq<RawEntryS>) -> Option<
    (Seq<RawEntryS>, int),
>
    decreases s.len() - i,
    when 0 <= i <= s.len()
{
    match spec_parse_entry(s, i) {
        Some((f, j)) => {
            if !spec_fields_complete(f) {
                None
            } else if j <= i || j > s.len() {
                None
            } else {
                let acc2 = acc.push(spec_raw_of(f));
                let c = spec_ws(s, j);
                proof {
                    lemma_ws_bounds(s, j);
                }
                if c < s.len() && s[c] == 0x2c {
                    let n = spec_ws(s, c + 1);
                    proof {
                        lemma_ws_bounds(s, c + 1);
                    }
                    spec_entry_elems(s, n, acc2)
                } else if c < s.len() && s[c] == 0x5d {
                    Some((acc2, c + 1))
                } else {
                    None
                }
            }
        },
        None => None,
    }
}

/// A whole response body listing entries: a JSON array of complete entry
/// objects, in the order the service returned them.
pub open spec fn spec_entries_doc(s: Seq<u8>) -> Option<Seq<RawEntryS>> {
    let i = spec_ws(s, 0);
    if i < s.len() && s[i] == 0x5b {
        let j = spec_ws(s, i + 1);
        if j < s.len() && s[j] == 0x5d {
            if spec_ws(s, j + 1) == s.len() {
                Some(seq![])
            } else {
                None
            }
        } else {
            match spec_entry_elems(s, j, seq![]) {
                Some((es, k)) => {
                    if 0 <= k <= s.len() && spec_ws(s, k) == s.len() {
                        Some(es)
                    } else {
                        None
                    }
                },
                None => None,
            }
        }
    } else {
        None
    }
}

fn parse_entry_at(s: &[u8], i: usize) -> (r: Option<(FieldsAcc, usize)>)
    requires
        i <= s.len(),
    ensures
        match r {
            Some((f, j)) => spec_parse_entry(s@, i as int) == Some((f.view(), j as int)) && i < j
                <= s.len(),
            None => spec_parse_entry(s@, i as int) is None,
        },
{
    if i < s.len() && s[i] == 0x7b {
        let j = ws(s, i + 1);
        if j < s.len() && s[j] == 0x7d {
            Some(
                (
                    FieldsAcc {
                        id: None,
                        project_id: None,
                        workspace_id: None,
                        description: None,
                        start: None,
                        stop: None,
                        duration: None,
                    },
                    j + 1,
                ),
            )
        } else {
            match members(
                s,
                j,
                FieldsAcc {
                    id: None,
                    project_id: None,
                    workspace_id: None,
                    description: None,
                    start: None,
                    stop: None,
                    duration: None,
                },
            ) {
                Some((f, k)) => Some((f, k)),
                None => None,
            }
        }
    } else {
        None
    }
}

fn raw_of_fields(f: FieldsAcc) -> (r: Option<RawEntry>)
    ensures
        match r {
            Some(e) => spec_fields_complete(f.view()) && e@ == spec_raw_of(f.view()),
            None => !spec_fields_complete(f.view()),
        },
{
    match (f.id, f.project_id, f.workspace_id, f.description, f.start, f.duration) {
        (Some(id), Some(project_id), Some(workspace_id), Some(description), Some(start),
            Some(duration)) => {
            let stop: Option<Vec<u8>> = match f.stop {
                Some(x) => x,
                None => None,
            };
            Some(RawEntry { id, project_id, workspace_id, description, start, stop, duration })
        },
        _ => None,
    }
}

fn entry_elems(s: &[u8], i: usize, acc: Vec<RawEntry>) -> (r: Option<(Vec<RawEntry>, usize)>)
    requires
        i <= s.len(),
    ensures
        match r {
            Some((es, j)) => spec_entry_elems(s@, i as int, acc.deep_view()) == Some(
                (es.deep_view(), j as int),
            ) && j <= s.len(),
            None => spec_entry_elems(s@, i as int, acc.deep_view()) is None,
        },
    decreases s@.len() - i,
{
    match parse_entry_at(s, i) {
        Some((f, j)) => {
            match raw_of_fields(f) {
                Some(e) => {
                    let mut acc = acc;
                    let ghost acc_v = acc.deep_view();
                    acc.push(e);
                    assert(acc.deep_view() =~= acc_v.push(e@));
                    let c = ws(s, j);
                    if c < s.len() && s[c] == 0x2c {
                        let n = ws(s, c + 1);
                        entry_elems(s, n, acc)
                    } else if c < s.len() && s[c] == 0x5d {
                        Some((acc, c + 1))
                    } else {
                        None
                    }
                },
                None => None,
            }
        },
        None => None,
    }
}

/// Parse a whole response body listing entries.
pub fn parse_entries_doc(s: &[u8]) -> (r: Option<Vec<RawEntry>>)
    ensures
        match r {
            Some(es) => spec_entries_doc(s@) == Some(es.deep_view()),
            None => spec_entries_doc(s@) is None,
        },
{
    let i = ws(s, 0);
    if i < s.len() && s[i] == 0x5b {
        let j = ws(s, i + 1);
        if j < s.len() && s[j] == 0x5d {
            if ws(s, j + 1) == s.len() {
                let es: Vec<RawEntry> = Vec::new();
                assert(es.deep_view() =~= Seq::<RawEntryS>::empty());
                Some(es)
            } else {
                None
            }
        } else {
            let es0: Vec<RawEntry> = Vec::new();
            assert(es0.deep_view() =~= Seq::<RawEntryS>::empty());
            match entry_elems(s, j, es0) {
                Some((es, k)) => {
                    if ws(s, k) == s.len() {
                        Some(es)
                    } else {
                        None
                    }
                },
                None => None,
            }
        }
    } else {
        None
    }
}


pub(crate) fn dup_bytes_pub(v: &Vec<u8>) -> (r: Vec<u8>)
    ensures
        r@ == v@,
{
    let mut r: Vec<u8> = Vec::new();
    let mut k: usize = 0;
    while k < v.len()
        invariant
            k <= v.len(),
            r@ == v@.take(k as int),
        decreases v.len() - k,
    {
        r.push(v[k]);
        assert(r@ =~= v@.take(k as int + 1));
        k += 1;
    }
    assert(v@.take(v@.len() as int) =~= v@);
    r
}

impl RawEntry {
    /// A copy of these raw fields.
    pub fn duplicate(&self) -> (r: RawEntry)
        ensures
            r@ == self@,
    {
        RawEntry {
            id: self.id,
            project_id: self.project_id,
            workspace_id: self.workspace_id,
            description: dup_bytes_pub(&self.description),
            start: dup_bytes_pub(&self.start),
            stop: match &self.stop {
                Some(b) => Some(dup_bytes_pub(b)),
                None => None,
            },
            duration: self.duration,
        }
    }
}

} // verus!
