//! The configured project catalog and API token: the value types, and the
//! parsing of the two configuration texts (JSON with comments) that an
//! outer layer reads from disk.

use vstd::prelude::*;
use vstd::utf8::{valid_utf8, encode_utf8};
use vstd::string::StrSliceExecFns;

use crate::json::{
    lemma_ws_bounds, parse_string_at, parse_u64_at, skip_value, spec_parse_string, spec_parse_u64,
    spec_skip_value, spec_ws, ws,
};
use crate::textenc::bytes_to_string;
use crate::toggl::TogglError;

verus! {

/// One catalog project: its identifier, display name, allowed activity
/// descriptions, and the workspace it belongs to.
pub struct Project {
    pub id: u64,
    pub name: String,
    pub entries: Vec<String>,
    pub workspace_id: u64,
}

/// Spec-level value of a `Project`.
pub struct ProjectS {
    pub id: int,
    pub name: Seq<char>,
    pub entries: Seq<Seq<char>>,
    pub workspace_id: int,
}

impl View for Project {
    type V = ProjectS;

    open spec fn view(&self) -> ProjectS {
        ProjectS {
            id: self.id as int,
            name: self.name@,
            entries: self.entries.deep_view(),
            workspace_id: self.workspace_id as int,
        }
    }
}

impl DeepView for Project {
    type V = ProjectS;

    open spec fn deep_view(&self) -> ProjectS {
        self.view()
    }
}

/// The configuration an operation works against: the catalog and the API
/// token; read-only to this crate.
pub struct AppConfig {
    pub projects: Vec<Project>,
    pub api_token: String,
}

/// The bytes of the key `projects`.
pub open spec fn key_projects() -> Seq<u8> {
    seq![0x70u8, 0x72u8, 0x6fu8, 0x6au8, 0x65u8, 0x63u8, 0x74u8, 0x73u8]
}

/// The bytes of the key `name`.
pub open spec fn key_name() -> Seq<u8> {
    seq![0x6eu8, 0x61u8, 0x6du8, 0x65u8]
}

/// The bytes of the key `entries`.
pub open spec fn key_entries() -> Seq<u8> {
    seq![0x65u8, 0x6eu8, 0x74u8, 0x72u8, 0x69u8, 0x65u8, 0x73u8]
}

/// The bytes of the key `toggle_api_token`.
pub open spec fn key_api_token() -> Seq<u8> {
    seq![
        0x74u8,
        0x6fu8,
        0x67u8,
        0x67u8,
        0x6cu8,
        0x65u8,
        0x5fu8,
        0x61u8,
        0x70u8,
        0x69u8,
        0x5fu8,
        0x74u8,
        0x6fu8,
        0x6bu8,
        0x65u8,
        0x6eu8,
    ]
}

/// One project's raw wire fields.
pub struct ProjRawS {
    pub id: int,
    pub name: Seq<u8>,
    pub entries: Seq<Seq<u8>>,
    pub workspace_id: int,
}

/// Fields gathered while walking a project object.
pub struct ProjAccS {
    pub id: Option<int>,
    pub name: Option<Seq<u8>>,
    pub entries: Option<Seq<Seq<u8>>>,
    pub workspace_id: Option<int>,
}

/// No project field seen yet.
pub open spec fn empty_proj() -> ProjAccS {
    ProjAccS { id: None, name: None, entries: None, workspace_id: None }
}

/// All project fields seen.
pub open spec fn proj_complete(a: ProjAccS) -> bool {
    a.id is Some && a.name is Some && a.entries is Some && a.workspace_id is Some
}

/// The raw project denoted by a complete field set.
pub open spec fn proj_of_acc(a: ProjAccS) -> ProjRawS {
    ProjRawS {
        id: a.id.unwrap(),
        name: a.name.unwrap(),
        entries: a.entries.unwrap(),
        workspace_id: a.workspace_id.unwrap(),
    }
}

/// Elements of an array of strings, from the position of one element on.
pub open spec fn spec_str_elems(s: Seq<u8>, i: int, acc: Seq<Seq<u8>>) -> Option<
    (Seq<Seq<u8>>, int),
>
    decreases s.len() - i,
    when 0 <= i <= s.len()
{
    match spec_parse_string(s, i) {
        Some((d, j)) => {
            if j <= i || j > s.len() {
                None
            } else {
                let acc2 = acc.push(d);
                let c = spec_ws(s, j);
                proof {
                    lemma_ws_bounds(s, j);
                }
                if c < s.len() && s[c] == 0x2c {
                    let n = spec_ws(s, c + 1);
                    proof {
                        lemma_ws_bounds(s, c + 1);
                    }
                    spec_str_elems(s, n, acc2)
                } else if c < s.len() && s[c] == 0x5d {
                    Some((acc2, c + 1))
                } else {
                    None
                }
            }
        },
        None => None,
    }
}

/// An array of strings at `i`.
pub open spec fn spec_str_array(s: Seq<u8>, i: int) -> Option<(Seq<Seq<u8>>, int)> {
    if 0 <= i < s.len() && s[i] == 0x5b {
        let j = spec_ws(s, i + 1);
        if j < s.len() && s[j] == 0x5d {
            Some((seq![], j + 1))
        } else {
            spec_str_elems(s, j, seq![])
        }
    } else {
        None
    }
}

/// One member of a project object at the position of its value.
pub open spec fn spec_proj_member_value(s: Seq<u8>, v: int, k: Seq<u8>, acc: ProjAccS) -> Option<
    (ProjAccS, int),
> {
    if k == crate::codec::key_id() {
        match spec_parse_u64(s, v) {
            Some((n, m)) => Some((ProjAccS { id: Some(n), ..acc }, m)),
            None => None,
        }
    } else if k == key_name() {
        match spec_parse_string(s, v) {
            Some((d, m)) => Some((ProjAccS { name: Some(d), ..acc }, m)),
            None => None,
        }
    } else if k == key_entries() {
        match spec_str_array(s, v) {
            Some((es, m)) => Some((ProjAccS { entries: Some(es), ..acc }, m)),
            None => None,
        }
    } else if k == crate::codec::key_workspace_id() {
        match spec_parse_u64(s, v) {
            Some((n, m)) => Some((ProjAccS { workspace_id: Some(n), ..acc }, m)),
            None => None,
        }
    } else {
        match spec_skip_value(s, v) {
            Some(m) => Some((acc, m)),
            None => None,
        }
    }
}

/// The members of a project object from the position of a key on.
pub open spec fn spec_proj_members(s: Seq<u8>, i: int, acc: ProjAccS) -> Option<(ProjAccS, int)>
    decreases s.len() - i,
    when 0 <= i <= s.len()
{
    match spec_parse_string(s, i) {
        Some((k, j)) => {
            if j <= i || j > s.len() {
                None
            } else {
                let c = spec_ws(s, j);
                proof {
                    lemma_ws_bounds(s, j);
                }
                if c < s.len() && s[c] == 0x3a {
                    let v = spec_ws(s, c + 1);
                    proof {
                        lemma_ws_bounds(s, c + 1);
                    }
                    match spec_proj_member_value(s, v, k, acc) {
                        Some((acc2, m)) => {
                            if m <= v || m > s.len() {
                                None
                            } else {
                                let c2 = spec_ws(s, m);
                                proof {
                                    lemma_ws_bounds(s, m);
                                }
                                if c2 < s.len() && s[c2] == 0x2c {
                                    let n = spec_ws(s, c2 + 1);
                                    proof {
                                        lemma_ws_bounds(s, c2 + 1);
                                    }
                                    spec_proj_members(s, n, acc2)
                                } else if c2 < s.len() && s[c2] == 0x7d {
                                    Some((acc2, c2 + 1))
                                } else {
                                    None
                                }
                            }
                        },
                        None => None,
                    }
                } else {
                    None
                }
            }
        },
        None => None,
    }
}

/// One complete project object at `i`.
pub open spec fn spec_project_obj(s: Seq<u8>, i: int) -> Option<(ProjRawS, int)> {
    if 0 <= i < s.len() && s[i] == 0x7b {
        let j = spec_ws(s, i + 1);
        if j < s.len() && s[j] == 0x7d {
            None
        } else {
            match spec_proj_members(s, j, empty_proj()) {
                Some((a, m)) => {
                    if proj_complete(a) {
                        Some((proj_of_acc(a), m))
                    } else {
                        None
                    }
                },
                None => None,
            }
        }
    } else {
        None
    }
}

/// Elements of the project array, from the position of one object on.
pub open spec fn spec_proj_elems(s: Seq<u8>, i: int, acc: Seq<ProjRawS>) -> Option<
    (Seq<ProjRawS>, int),
>
    decreases s.len() - i,
    when 0 <= i <= s.len()
{
    match spec_project_obj(s, i) {
        Some((p, j)) => {
            if j <= i || j > s.len() {
                None
            } else {
                let acc2 = acc.push(p);
                let c = spec_ws(s, j);
                proof {
                    lemma_ws_bounds(s, j);
                }
                if c < s.len() && s[c] == 0x2c {
                    let n = spec_ws(s, c + 1);
                    proof {
                        lemma_ws_bounds(s, c + 1);
                    }
                    spec_proj_elems(s, n, acc2)
                } else if c < s.len() && s[c] == 0x5d {
                    Some((acc2, c + 1))
                } else {
                    None
                }
            }
        },
        None => None,
    }
}

/// The project array at `i`.
pub open spec fn spec_proj_array(s: Seq<u8>, i: int) -> Option<(Seq<ProjRawS>, int)> {
    if 0 <= i < s.len() && s[i] == 0x5b {
        let j = spec_ws(s, i + 1);
        if j < s.len() && s[j] == 0x5d {
            Some((seq![], j + 1))
        } else {
            spec_proj_elems(s, j, seq![])
        }
    } else {
        None
    }
}

/// The members of the configuration object: the `projects` member carries
/// the catalog, anything else is passed over.
pub open spec fn spec_config_members(s: Seq<u8>, i: int, acc: Option<Seq<ProjRawS>>) -> Option<
    (Option<Seq<ProjRawS>>, int),
>
    decreases s.len() - i,
    when 0 <= i <= s.len()
{
    match spec_parse_string(s, i) {
        Some((k, j)) => {
            if j <= i || j > s.len() {
                None
            } else {
                let c = spec_ws(s, j);
                proof {
                    lemma_ws_bounds(s, j);
                }
                if c < s.len() && s[c] == 0x3a {
                    let v = spec_ws(s, c + 1);
                    proof {
                        lemma_ws_bounds(s, c + 1);
                    }
                    let parsed: Option<(Option<Seq<ProjRawS>>, int)> = if k == key_projects() {
                        match spec_proj_array(s, v) {
                            Some((ps, m)) => Some((Some(ps), m)),
                            None => None,
                        }
                    } else {
                        match spec_skip_value(s, v) {
                            Some(m) => Some((acc, m)),
                            None => None,
                        }
                    };
                    match parsed {
                        Some((acc2, m)) => {
                            if m <= v || m > s.len() {
                                None
                            } else {
                                let c2 = spec_ws(s, m);
                                proof {
                                    lemma_ws_bounds(s, m);
                                }
                                if c2 < s.len() && s[c2] == 0x2c {
                                    let n = spec_ws(s, c2 + 1);
                                    proof {
                                        lemma_ws_bounds(s, c2 + 1);
                                    }
                                    spec_config_members(s, n, acc2)
                                } else if c2 < s.len() && s[c2] == 0x7d {
                                    Some((acc2, c2 + 1))
                                } else {
                                    None
                                }
                            }
                        },
                        None => None,
                    }
                } else {
                    None
                }
            }
        },
        None => None,
    }
}

/// A whole configuration text: one object whose `projects` member lists the
/// catalog.
pub open spec fn spec_config_doc(s: Seq<u8>) -> Option<Seq<ProjRawS>> {
    let i = spec_ws(s, 0);
    if i < s.len() && s[i] == 0x7b {
        let j = spec_ws(s, i + 1);
        if j < s.len() && s[j] == 0x7d {
            None
        } else {
            match spec_config_members(s, j, None) {
                Some((Some(ps), m)) => {
                    if 0 <= m <= s.len() && spec_ws(s, m) == s.len() {
                        Some(ps)
                    } else {
                        None
                    }
                },
                _ => None,
            }
        }
    } else {
        None
    }
}

/// The members of the credentials object: the `toggle_api_token` member
/// carries the token, anything else is passed over.
pub open spec fn spec_cred_members(s: Seq<u8>, i: int, acc: Option<Seq<u8>>) -> Option<
    (Option<Seq<u8>>, int),
>
    decreases s.len() - i,
    when 0 <= i <= s.len()
{
    match spec_parse_string(s, i) {
        Some((k, j)) => {
            if j <= i || j > s.len() {
                None
            } else {
                let c = spec_ws(s, j);
                proof {
                    lemma_ws_bounds(s, j);
                }
                if c < s.len() && s[c] == 0x3a {
                    let v = spec_ws(s, c + 1);
                    proof {
                        lemma_ws_bounds(s, c + 1);
                    }
                    let parsed: Option<(Option<Seq<u8>>, int)> = if k == key_api_token() {
                        match spec_parse_string(s, v) {
                            Some((d, m)) => Some((Some(d), m)),
                            None => None,
                        }
                    } else {
                        match spec_skip_value(s, v) {
                            Some(m) => Some((acc, m)),
                            None => None,
                        }
                    };
                    match parsed {
                        Some((acc2, m)) => {
                            if m <= v || m > s.len() {
                                None
                            } else {
                                let c2 = spec_ws(s, m);
                                proof {
                                    lemma_ws_bounds(s, m);
                                }
                                if c2 < s.len() && s[c2] == 0x2c {
                                    let n = spec_ws(s, c2 + 1);
                                    proof {
                                        lemma_ws_bounds(s, c2 + 1);
                                    }
                                    spec_cred_members(s, n, acc2)
                                } else if c2 < s.len() && s[c2] == 0x7d {
                                    Some((acc2, c2 + 1))
                                } else {
                                    None
                                }
                            }
                        },
                        None => None,
                    }
                } else {
                    None
                }
            }
        },
        None => None,
    }
}

/// A whole credentials text: one object whose `toggle_api_token` member
/// carries the token.
pub open spec fn spec_cred_doc(s: Seq<u8>) -> Option<Seq<u8>> {
    let i = spec_ws(s, 0);
    if i < s.len() && s[i] == 0x7b {
        let j = spec_ws(s, i + 1);
        if j < s.len() && s[j] == 0x7d {
            None
        } else {
            match spec_cred_members(s, j, None) {
                Some((Some(tok), m)) => {
                    if 0 <= m <= s.len() && spec_ws(s, m) == s.len() {
                        Some(tok)
                    } else {
                        None
                    }
                },
                _ => None,
            }
        }
    } else {
        None
    }
}

/// The project denoted by raw wire fields.
pub open spec fn project_of_raw(raw: ProjRawS, p: ProjectS) -> bool {
    &&& p.id == raw.id
    &&& encode_utf8(p.name) == raw.name
    &&& p.entries.len() == raw.entries.len()
    &&& forall|j: int|
        0 <= j < raw.entries.len() ==> encode_utf8(#[trigger] p.entries[j]) == raw.entries[j]
    &&& p.workspace_id == raw.workspace_id
}

/// Raw project fields whose texts are UTF-8.
pub open spec fn proj_decodable(raw: ProjRawS) -> bool {
    &&& valid_utf8(raw.name)
    &&& forall|j: int| 0 <= j < raw.entries.len() ==> valid_utf8(#[trigger] raw.entries[j])
}

/// The configuration denoted by the two texts.
pub open spec fn config_of_texts(cfg: Seq<u8>, cred: Seq<u8>, c: AppConfig) -> bool {
    &&& spec_config_doc(cfg) matches Some(praws) && c.projects.deep_view().len() == praws.len()
        && (forall|k: int|
        0 <= k < praws.len() ==> proj_decodable(#[trigger] praws[k]) && project_of_raw(
            praws[k],
            c.projects.deep_view()[k],
        ))
    &&& spec_cred_doc(cred) matches Some(tok) && encode_utf8(c.api_token@) == tok && valid_utf8(
        tok,
    )
}


fn is_key_projects(k: &Vec<u8>) -> (r: bool)
    ensures
        r == (k@ == key_projects()),
{
    let r = k.len() == 8 && k[0] == 0x70 && k[1] == 0x72 && k[2] == 0x6f && k[3] == 0x6a && k[4]
        == 0x65 && k[5] == 0x63 && k[6] == 0x74 && k[7] == 0x73;
    proof {
        if r {
            assert(k@ =~= key_projects());
        }
    }
    r
}

fn is_key_name(k: &Vec<u8>) -> (r: bool)
    ensures
        r == (k@ == key_name()),
{
    let r = k.len() == 4 && k[0] == 0x6e && k[1] == 0x61 && k[2] == 0x6d && k[3] == 0x65;
    proof {
        if r {
            assert(k@ =~= key_name());
        }
    }
    r
}

fn is_key_entries(k: &Vec<u8>) -> (r: bool)
    ensures
        r == (k@ == key_entries()),
{
    let r = k.len() == 7 && k[0] == 0x65 && k[1] == 0x6e && k[2] == 0x74 && k[3] == 0x72 && k[4]
        == 0x69 && k[5] == 0x65 && k[6] == 0x73;
    proof {
        if r {
            assert(k@ =~= key_entries());
        }
    }
    r
}

fn is_key_api_token(k: &Vec<u8>) -> (r: bool)
    ensures
        r == (k@ == key_api_token()),
{
    let r = k.len() == 16 && k[0] == 0x74 && k[1] == 0x6f && k[2] == 0x67 && k[3] == 0x67 && k[4]
        == 0x6c && k[5] == 0x65 && k[6] == 0x5f && k[7] == 0x61 && k[8] == 0x70 && k[9] == 0x69
        && k[10] == 0x5f && k[11] == 0x74 && k[12] == 0x6f && k[13] == 0x6b && k[14] == 0x65
        && k[15] == 0x6e;
    proof {
        if r {
            assert(k@ =~= key_api_token());
        }
    }
    r
}

fn str_elems(s: &[u8], i: usize, acc: Vec<Vec<u8>>) -> (r: Option<(Vec<Vec<u8>>, usize)>)
    requires
        i <= s.len(),
    ensures
        match r {
            Some((es, j)) => spec_str_elems(s@, i as int, acc.deep_view()) == Some(
                (es.deep_view(), j as int),
            ) && i < j <= s.len(),
            None => spec_str_elems(s@, i as int, acc.deep_view()) is None,
        },
    decreases s@.len() - i,
{
    match parse_string_at(s, i) {
        Some((d, j)) => {
            let mut acc = acc;
            let ghost acc_v = acc.deep_view();
            let ghost d_v = d@;
            acc.push(d);
            assert(acc.deep_view() =~= acc_v.push(d_v)) by {
                assert(acc@[acc@.len() - 1].deep_view() =~= d_v);
                assert(forall|t: int|
                    0 <= t < acc_v.len() ==> #[trigger] acc.deep_view()[t] == acc_v[t]);
            };
            let c = ws(s, j);
            if c < s.len() && s[c] == 0x2c {
                let n = ws(s, c + 1);
                str_elems(s, n, acc)
            } else if c < s.len() && s[c] == 0x5d {
                Some((acc, c + 1))
            } else {
                None
            }
        },
        None => None,
    }
}

fn str_array(s: &[u8], i: usize) -> (r: Option<(Vec<Vec<u8>>, usize)>)
    requires
        i <= s.len(),
    ensures
        match r {
            Some((es, j)) => spec_str_array(s@, i as int) == Some((es.deep_view(), j as int)) && i
                < j <= s.len(),
            None => spec_str_array(s@, i as int) is None,
        },
{
    if i < s.len() && s[i] == 0x5b {
        let j = ws(s, i + 1);
        if j < s.len() && s[j] == 0x5d {
            let es: Vec<Vec<u8>> = Vec::new();
            assert(es.deep_view() =~= Seq::<Seq<u8>>::empty());
            Some((es, j + 1))
        } else {
            let es0: Vec<Vec<u8>> = Vec::new();
            assert(es0.deep_view() =~= Seq::<Seq<u8>>::empty());
            match str_elems(s, j, es0) {
                Some((es, k)) => Some((es, k)),
                None => None,
            }
        }
    } else {
        None
    }
}

struct ProjAcc {
    id: Option<u64>,
    name: Option<Vec<u8>>,
    entries: Option<Vec<Vec<u8>>>,
    workspace_id: Option<u64>,
}

impl ProjAcc {
    spec fn view(&self) -> ProjAccS {
        ProjAccS {
            id: match self.id {
                Some(n) => Some(n as int),
                None => None,
            },
            name: match self.name {
                Some(ref d) => Some(d@),
                None => None,
            },
            entries: match self.entries {
                Some(ref es) => Some(es.deep_view()),
                None => None,
            },
            workspace_id: match self.workspace_id {
                Some(n) => Some(n as int),
                None => None,
            },
        }
    }
}

fn proj_member_value(s: &[u8], v: usize, k: &Vec<u8>, acc: ProjAcc) -> (r: Option<
    (ProjAcc, usize),
>)
    requires
        v <= s.len(),
    ensures
        match r {
            Some((acc2, m)) => spec_proj_member_value(s@, v as int, k@, acc.view()) == Some(
                (acc2.view(), m as int),
            ) && v < m <= s.len(),
            None => spec_proj_member_value(s@, v as int, k@, acc.view()) is None,
        },
{
    let mut acc = acc;
    if crate::codec::is_key_id(k) {
        match parse_u64_at(s, v) {
            Some((n, m)) => {
                acc.id = Some(n);
                Some((acc, m))
            },
            None => None,
        }
    } else if is_key_name(k) {
        match parse_string_at(s, v) {
            Some((d, m)) => {
                acc.name = Some(d);
                Some((acc, m))
            },
            None => None,
        }
    } else if is_key_entries(k) {
        match str_array(s, v) {
            Some((es, m)) => {
                acc.entries = Some(es);
                Some((acc, m))
            },
            None => None,
        }
    } else if crate::codec::is_key_workspace_id(k) {
        match parse_u64_at(s, v) {
            Some((n, m)) => {
                acc.workspace_id = Some(n);
                Some((acc, m))
            },
            None => None,
        }
    } else {
        match skip_value(s, v) {
            Some(m) => Some((acc, m)),
            None => None,
        }
    }
}

fn proj_members(s: &[u8], i: usize, acc: ProjAcc) -> (r: Option<(ProjAcc, usize)>)
    requires
        i <= s.len(),
    ensures
        match r {
            Some((a, j)) => spec_proj_members(s@, i as int, acc.view()) == Some(
                (a.view(), j as int),
            ) && i < j <= s.len(),
            None => spec_proj_members(s@, i as int, acc.view()) is None,
        },
    decreases s@.len() - i,
{
    match parse_string_at(s, i) {
        Some((k, j)) => {
            let c = ws(s, j);
            if c < s.len() && s[c] == 0x3a {
                let v = ws(s, c + 1);
                match proj_member_value(s, v, &k, acc) {
                    Some((acc2, m)) => {
                        let c2 = ws(s, m);
                        if c2 < s.len() && s[c2] == 0x2c {
                            let n = ws(s, c2 + 1);
                            proj_members(s, n, acc2)
                        } else if c2 < s.len() && s[c2] == 0x7d {
                            Some((acc2, c2 + 1))
                        } else {
                            None
                        }
                    },
                    None => None,
                }
            } else {
                None
            }
        },
        None => None,
    }
}

/// One project's raw wire fields, texts still as bytes.
pub struct ProjRaw {
    pub id: u64,
    pub name: Vec<u8>,
    pub entries: Vec<Vec<u8>>,
    pub workspace_id: u64,
}

impl DeepView for ProjRaw {
    type V = ProjRawS;

    open spec fn deep_view(&self) -> ProjRawS {
        ProjRawS {
            id: self.id as int,
            name: self.name@,
            entries: self.entries.deep_view(),
            workspace_id: self.workspace_id as int,
        }
    }
}

fn project_obj(s: &[u8], i: usize) -> (r: Option<(ProjRaw, usize)>)
    requires
        i <= s.len(),
    ensures
        match r {
            Some((p, j)) => spec_project_obj(s@, i as int) == Some((p.deep_view(), j as int)) && i < j
                <= s.len(),
            None => spec_project_obj(s@, i as int) is None,
        },
{
    if i < s.len() && s[i] == 0x7b {
        let j = ws(s, i + 1);
        if j < s.len() && s[j] == 0x7d {
            None
        } else {
            match proj_members(
                s,
                j,
                ProjAcc { id: None, name: None, entries: None, workspace_id: None },
            ) {
                Some((a, m)) => {
                    match (a.id, a.name, a.entries, a.workspace_id) {
                        (Some(id), Some(name), Some(entries), Some(workspace_id)) => Some(
                            (ProjRaw { id, name, entries, workspace_id }, m),
                        ),
                        _ => None,
                    }
                },
                None => None,
            }
        }
    } else {
        None
    }
}

#[verifier::loop_isolation(false)]
fn proj_to_project(p: ProjRaw) -> (r: Result<Project, TogglError>)
    ensures
        match r {
            Ok(c) => proj_decodable(p.deep_view()) && project_of_raw(p.deep_view(), c@),
            Err(err) => !proj_decodable(p.deep_view()) && (err matches TogglError::DecodeFailure),
        },
{
    let ghost pv = p.deep_view();
    let name = match bytes_to_string(p.name) {
        Some(n) => n,
        None => {
            return Err(TogglError::DecodeFailure);
        },
    };
    let mut entries: Vec<String> = Vec::new();
    let raw_entries = p.entries;
    let ghost re_v = raw_entries.deep_view();
    let mut k: usize = 0;
    while k < raw_entries.len()
        invariant
            k <= raw_entries.len(),
            raw_entries.deep_view() == re_v,
            re_v.len() == raw_entries.len(),
            re_v == pv.entries,
            entries.len() == k,
            forall|j: int|
                0 <= j < k ==> valid_utf8(#[trigger] re_v[j]) && encode_utf8(
                    entries.deep_view()[j],
                ) == re_v[j],
        decreases raw_entries.len() - k,
    {
        let e = crate::codec::dup_bytes_pub(&raw_entries[k]);
        proof {
            assert(raw_entries@[k as int].deep_view() =~= raw_entries@[k as int]@);
            assert(e@ == re_v[k as int]);
        }
        match bytes_to_string(e) {
            Some(t) => {
                let ghost before = entries.deep_view();
                let ghost t_v = t@;
                entries.push(t);
                assert(entries.deep_view() =~= before.push(t_v)) by {
                    assert(forall|t2: int|
                        0 <= t2 < before.len() ==> #[trigger] entries.deep_view()[t2]
                            == before[t2]);
                };
            },
            None => {
                proof {
                    assert(!valid_utf8(pv.entries[k as int]));
                    assert(!proj_decodable(pv));
                }
                return Err(TogglError::DecodeFailure);
            },
        }
        k += 1;
    }
    let proj = Project { id: p.id, name, entries, workspace_id: p.workspace_id };
    proof {
        assert(proj@.entries.len() == pv.entries.len());
        assert(proj_decodable(pv));
        assert(project_of_raw(pv, proj@));
    }
    Ok(proj)
}

fn config_members(s: &[u8], i: usize, acc: Option<Vec<ProjRaw>>) -> (r: Option<
    (Option<Vec<ProjRaw>>, usize),
>)
    requires
        i <= s.len(),
    ensures
        match r {
            Some((a, j)) => spec_config_members(s@, i as int, acc_view(&acc)) == Some(
                (acc_view(&a), j as int),
            ) && j <= s.len(),
            None => spec_config_members(s@, i as int, acc_view(&acc)) is None,
        },
    decreases s@.len() - i,
{
    match parse_string_at(s, i) {
        Some((k, j)) => {
            let c = ws(s, j);
            if c < s.len() && s[c] == 0x3a {
                let v = ws(s, c + 1);
                let step: Option<(Option<Vec<ProjRaw>>, usize)> = if is_key_projects(&k) {
                    match proj_array(s, v) {
                        Some((ps, m)) => Some((Some(ps), m)),
                        None => None,
                    }
                } else {
                    match skip_value(s, v) {
                        Some(m) => Some((acc, m)),
                        None => None,
                    }
                };
                match step {
                    Some((acc2, m)) => {
                        if m <= v {
                            return None;
                        }
                        let c2 = ws(s, m);
                        if c2 < s.len() && s[c2] == 0x2c {
                            let n = ws(s, c2 + 1);
                            config_members(s, n, acc2)
                        } else if c2 < s.len() && s[c2] == 0x7d {
                            Some((acc2, c2 + 1))
                        } else {
                            None
                        }
                    },
                    None => None,
                }
            } else {
                None
            }
        },
        None => None,
    }
}

/// Spec value of an optional list of raw projects.
pub open spec fn acc_view(a: &Option<Vec<ProjRaw>>) -> Option<Seq<ProjRawS>> {
    match a {
        Some(ps) => Some(ps.deep_view()),
        None => None,
    }
}

fn proj_elems(s: &[u8], i: usize, acc: Vec<ProjRaw>) -> (r: Option<(Vec<ProjRaw>, usize)>)
    requires
        i <= s.len(),
    ensures
        match r {
            Some((ps, j)) => spec_proj_elems(s@, i as int, acc.deep_view()) == Some(
                (ps.deep_view(), j as int),
            ) && i < j <= s.len(),
            None => spec_proj_elems(s@, i as int, acc.deep_view()) is None,
        },
    decreases s@.len() - i,
{
    match project_obj(s, i) {
        Some((p, j)) => {
            let mut acc = acc;
            let ghost acc_v = acc.deep_view();
            let ghost pv = p.deep_view();
            acc.push(p);
            assert(acc.deep_view() =~= acc_v.push(pv)) by {
                assert(forall|t: int|
                    0 <= t < acc_v.len() ==> acc.deep_view()[t] == acc_v[t]);
            };
            let c = ws(s, j);
            if c < s.len() && s[c] == 0x2c {
                let n = ws(s, c + 1);
                proj_elems(s, n, acc)
            } else if c < s.len() && s[c] == 0x5d {
                Some((acc, c + 1))
            } else {
                None
            }
        },
        None => None,
    }
}

fn proj_array(s: &[u8], i: usize) -> (r: Option<(Vec<ProjRaw>, usize)>)
    requires
        i <= s.len(),
    ensures
        match r {
            Some((ps, j)) => spec_proj_array(s@, i as int) == Some((ps.deep_view(), j as int))
                && i < j <= s.len(),
            None => spec_proj_array(s@, i as int) is None,
        },
{
    if i < s.len() && s[i] == 0x5b {
        let j = ws(s, i + 1);
        if j < s.len() && s[j] == 0x5d {
            let ps: Vec<ProjRaw> = Vec::new();
            assert(ps.deep_view() =~= Seq::<ProjRawS>::empty());
            Some((ps, j + 1))
        } else {
            let ps0: Vec<ProjRaw> = Vec::new();
            assert(ps0.deep_view() =~= Seq::<ProjRawS>::empty());
            match proj_elems(s, j, ps0) {
                Some((ps, k)) => Some((ps, k)),
                None => None,
            }
        }
    } else {
        None
    }
}

fn cred_members(s: &[u8], i: usize, acc: Option<Vec<u8>>) -> (r: Option<(Option<Vec<u8>>, usize)>)
    requires
        i <= s.len(),
    ensures
        match r {
            Some((a, j)) => spec_cred_members(s@, i as int, cred_view(&acc)) == Some(
                (cred_view(&a), j as int),
            ) && j <= s.len(),
            None => spec_cred_members(s@, i as int, cred_view(&acc)) is None,
        },
    decreases s@.len() - i,
{
    match parse_string_at(s, i) {
        Some((k, j)) => {
            let c = ws(s, j);
            if c < s.len() && s[c] == 0x3a {
                let v = ws(s, c + 1);
                let step: Option<(Option<Vec<u8>>, usize)> = if is_key_api_token(&k) {
                    match parse_string_at(s, v) {
                        Some((d, m)) => Some((Some(d), m)),
                        None => None,
                    }
                } else {
                    match skip_value(s, v) {
                        Some(m) => Some((acc, m)),
                        None => None,
                    }
                };
                match step {
                    Some((acc2, m)) => {
                        if m <= v {
                            return None;
                        }
                        let c2 = ws(s, m);
                        if c2 < s.len() && s[c2] == 0x2c {
                            let n = ws(s, c2 + 1);
                            cred_members(s, n, acc2)
                        } else if c2 < s.len() && s[c2] == 0x7d {
                            Some((acc2, c2 + 1))
                        } else {
                            None
                        }
                    },
                    None => None,
                }
            } else {
                None
            }
        },
        None => None,
    }
}

/// Spec value of an optional token.
pub open spec fn cred_view(a: &Option<Vec<u8>>) -> Option<Seq<u8>> {
    match a {
        Some(t) => Some(t@),
        None => None,
    }
}

/// Both texts parse and all their strings are UTF-8.
pub open spec fn texts_decodable(cfg: Seq<u8>, cred: Seq<u8>) -> bool {
    &&& spec_config_doc(cfg) matches Some(praws) && (forall|k: int|
        0 <= k < praws.len() ==> proj_decodable(#[trigger] praws[k]))
    &&& spec_cred_doc(cred) matches Some(tok) && valid_utf8(tok)
}

/// Parse the configuration and credentials texts into the catalog and
/// token.
pub fn parse(config_text: &str, credentials_text: &str) -> (r: Result<AppConfig, TogglError>)
    ensures
        match r {
            Ok(c) => config_of_texts(
                encode_utf8(config_text@),
                encode_utf8(credentials_text@),
                c,
            ),
            Err(err) => (err matches TogglError::DecodeFailure) && !texts_decodable(
                encode_utf8(config_text@),
                encode_utf8(credentials_text@),
            ),
        },
{
    let cfg_bytes = config_text.as_bytes_vec();
    let cred_bytes = credentials_text.as_bytes_vec();
    let praws = match config_doc(cfg_bytes.as_slice()) {
        Some(ps) => ps,
        None => {
            return Err(TogglError::DecodeFailure);
        },
    };
    let tok_bytes = match cred_doc(cred_bytes.as_slice()) {
        Some(t) => t,
        None => {
            return Err(TogglError::DecodeFailure);
        },
    };
    let ghost praws_v = praws.deep_view();
    let api_token = match bytes_to_string(tok_bytes) {
        Some(t) => t,
        None => {
            return Err(TogglError::DecodeFailure);
        },
    };
    let mut projects: Vec<Project> = Vec::new();
    let mut raws = praws;
    let mut k: usize = 0;
    let n = raws.len();
    while k < n
        invariant
            k <= n,
            raws.len() == n,
            raws.deep_view() == praws_v,
            praws_v.len() == n,
            spec_config_doc(encode_utf8(config_text@)) == Some(praws_v),
            projects.len() == k,
            forall|j: int|
                0 <= j < k ==> proj_decodable(#[trigger] praws_v[j]) && project_of_raw(
                    praws_v[j],
                    projects.deep_view()[j],
                ),
        decreases n - k,
    {
        let p = raws_take(&mut raws, k);
        assert(p.deep_view() == praws_v[k as int]);
        match proj_to_project(p) {
            Ok(proj) => {
                let ghost before = projects.deep_view();
                projects.push(proj);
                assert(projects.deep_view() =~= before.push(
                    projects@[projects@.len() - 1].deep_view(),
                ));
            },
            Err(err) => {
                proof {
                    let cv = spec_config_doc(encode_utf8(config_text@)).unwrap();
                    assert(0 <= k < cv.len() && !proj_decodable(cv[k as int]));
                }
                return Err(err);
            },
        }
        k += 1;
    }
    Ok(AppConfig { projects, api_token })
}

fn config_doc(s: &[u8]) -> (r: Option<Vec<ProjRaw>>)
    ensures
        match r {
            Some(ps) => spec_config_doc(s@) == Some(ps.deep_view()),
            None => spec_config_doc(s@) is None,
        },
{
    let i = ws(s, 0);
    if i < s.len() && s[i] == 0x7b {
        let j = ws(s, i + 1);
        if j < s.len() && s[j] == 0x7d {
            None
        } else {
            match config_members(s, j, None) {
                Some((Some(ps), m)) => {
                    if ws(s, m) == s.len() {
                        Some(ps)
                    } else {
                        None
                    }
                },
                _ => None,
            }
        }
    } else {
        None
    }
}

fn cred_doc(s: &[u8]) -> (r: Option<Vec<u8>>)
    ensures
        match r {
            Some(t) => spec_cred_doc(s@) == Some(t@),
            None => spec_cred_doc(s@) is None,
        },
{
    let i = ws(s, 0);
    if i < s.len() && s[i] == 0x7b {
        let j = ws(s, i + 1);
        if j < s.len() && s[j] == 0x7d {
            None
        } else {
            match cred_members(s, j, None) {
                Some((Some(t), m)) => {
                    if ws(s, m) == s.len() {
                        Some(t)
                    } else {
                        None
                    }
                },
                _ => None,
            }
        }
    } else {
        None
    }
}

fn raws_take(raws: &mut Vec<ProjRaw>, k: usize) -> (r: ProjRaw)
    requires
        k < old(raws).len(),
    ensures
        r.deep_view() == old(raws).deep_view()[k as int],
        final(raws).deep_view() == old(raws).deep_view(),
        final(raws).len() == old(raws).len(),
{
    let p = &raws[k];
    ProjRaw {
        id: p.id,
        name: crate::codec::dup_bytes_pub(&p.name),
        entries: dup_vecs(&p.entries),
        workspace_id: p.workspace_id,
    }
}

#[verifier::loop_isolation(false)]
fn dup_vecs(v: &Vec<Vec<u8>>) -> (r: Vec<Vec<u8>>)
    ensures
        r.deep_view() == v.deep_view(),
{
    let mut r: Vec<Vec<u8>> = Vec::new();
    let mut k: usize = 0;
    while k < v.len()
        invariant
            k <= v.len(),
            r.deep_view() =~= v.deep_view().take(k as int),
        decreases v.len() - k,
    {
        let d = crate::codec::dup_bytes_pub(&v[k]);
        let ghost d_v = d@;
        r.push(d);
        assert(r.deep_view() =~= v.deep_view().take(k as int + 1)) by {
            assert(v@[k as int].deep_view() =~= v@[k as int]@);
            assert(r@[r@.len() - 1].deep_view() =~= d_v);
            assert(forall|t: int|
                0 <= t < r@.len() - 1 ==> #[trigger] r.deep_view()[t] == v.deep_view().take(
                    k as int,
                )[t]);
        };
        k += 1;
    }
    assert(v.deep_view().take(v.deep_view().len() as int) =~= v.deep_view());
    r
}

/// Load the configuration from the two texts; the outer layer reads them
/// from its configuration files.
pub fn load(config_text: &str, credentials_text: &str) -> (r: Result<AppConfig, TogglError>)
    ensures
        match r {
            Ok(c) => config_of_texts(
                encode_utf8(config_text@),
                encode_utf8(credentials_text@),
                c,
            ),
            Err(err) => (err matches TogglError::DecodeFailure) && !texts_decodable(
                encode_utf8(config_text@),
                encode_utf8(credentials_text@),
            ),
        },
{
    parse(config_text, credentials_text)
}

} // verus!
