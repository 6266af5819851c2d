//! The query source extractor: turns the decoded content of one HTTP
//! request - a JSON body, URL query parameters, or the parts of a
//! multipart upload - into a structured query request, enforcing the
//! configured limits.

use vstd::prelude::*;
use crate::json::JsonV;
use crate::json::JsonValue;
use crate::json::elem_views;
use crate::json::lemma_elem_views;
use crate::json::lemma_member_views;
use crate::json::member_views;
use crate::json::parse_json;
use crate::json::spec_parse_json;

verus! {

/// Why extraction failed. Every failure maps to an HTTP 400 at the
/// boundary.
#[derive(Clone, Copy, PartialEq, Eq, Structural, Debug)]
pub enum ExtractionError {
    /// No query text is present in the request.
    MissingQuery,
    /// A body or part that should be JSON does not decode, or has the
    /// wrong shape.
    MalformedBody,
    /// The declared content type is one the extractor does not speak.
    UnsupportedContentType,
    /// A configured limit (file count, file size, body size) is exceeded.
    LimitExceeded,
}

/// Limits on what one request may carry. `None` means unlimited.
pub struct ExtractOpts {
    pub max_file_count: Option<usize>,
    pub max_file_size_bytes: Option<usize>,
    pub max_body_size_bytes: Option<usize>,
}

impl ExtractOpts {
    /// No limits at all.
    pub fn unlimited() -> (r: ExtractOpts)
        ensures
            r.max_file_count is None,
            r.max_file_size_bytes is None,
            r.max_body_size_bytes is None,
    {
        ExtractOpts { max_file_count: None, max_file_size_bytes: None, max_body_size_bytes: None }
    }
}

/// One uploaded file: the part name it arrived under, its client-side
/// file name, and its content.
#[derive(Debug)]
pub struct UploadedFile {
    pub name: String,
    pub filename: Option<String>,
    pub content: Vec<u8>,
}

/// A structured query request, as extraction produces it: operation text,
/// optional operation name, a variables object, and the uploaded files in
/// part order. `JsonValue::Upload(k)` inside `variables` points at
/// `uploads[k]`.
#[derive(Debug)]
pub struct QueryRequest {
    pub query: String,
    pub operation_name: Option<String>,
    pub variables: JsonValue,
    pub uploads: Vec<UploadedFile>,
}

/// First value bound to `key` among the members from position `k` on.
pub open spec fn obj_get_from(ms: Seq<(Seq<char>, JsonV)>, k: int, key: Seq<char>) -> Option<JsonV>
    decreases ms.len() - k,
{
    if k < 0 || k >= ms.len() {
        None
    } else if ms[k].0 == key {
        Some(ms[k].1)
    } else {
        obj_get_from(ms, k + 1, key)
    }
}

/// First value bound to `key` in an object's members.
pub open spec fn obj_get(ms: Seq<(Seq<char>, JsonV)>, key: Seq<char>) -> Option<JsonV> {
    obj_get_from(ms, 0, key)
}

/// Executable first-match lookup over an object's members.
fn exec_obj_get_from<'a>(ms: &'a Vec<(String, JsonValue)>, k: usize, key: &String) -> (r: Option<
    &'a JsonValue,
>)
    requires
        k <= ms@.len(),
    ensures
        match obj_get_from(member_views(ms@), k as int, key@) {
            Some(gv) => r matches Some(v) && v@ == gv,
            None => r is None,
        },
    decreases ms@.len() - k,
{
    proof {
        lemma_member_views(ms@);
    }
    if k == ms.len() {
        None
    } else if ms[k].0.eq(key) {
        Some(&ms[k].1)
    } else {
        exec_obj_get_from(ms, k + 1, key)
    }
}

/// Deep copy of a value; the copy has the same view.
pub fn clone_json(v: &JsonValue) -> (r: JsonValue)
    ensures
        r@ == v@,
    decreases v, 1nat, 0nat,
{
    match v {
        JsonValue::Null => JsonValue::Null,
        JsonValue::Bool(b) => JsonValue::Bool(*b),
        JsonValue::Int(i) => JsonValue::Int(*i),
        JsonValue::Str(s) => JsonValue::Str(s.clone()),
        JsonValue::Arr(items) => {
            let out = clone_arr(items, items.len());
            proof {
                lemma_elem_views(out@);
                lemma_elem_views(items@);
                assert(elem_views(out@) =~= elem_views(items@));
            }
            JsonValue::Arr(out)
        },
        JsonValue::Obj(members) => {
            let out = clone_members(members, members.len());
            proof {
                lemma_member_views(out@);
                lemma_member_views(members@);
                assert(member_views(out@) =~= member_views(members@));
            }
            JsonValue::Obj(out)
        },
        JsonValue::NumLit(t) => JsonValue::NumLit(t.clone()),
        JsonValue::Upload(k) => JsonValue::Upload(*k),
    }
}

/// Deep copy of the first `upto` elements of an array.
fn clone_arr(items: &Vec<JsonValue>, upto: usize) -> (r: Vec<JsonValue>)
    requires
        upto <= items@.len(),
    ensures
        r@.len() == upto,
        forall|j: int| 0 <= j < upto ==> #[trigger] r@[j]@ == items@[j]@,
    decreases items@, 0nat, upto,
{
    if upto == 0 {
        Vec::new()
    } else {
        let mut out = clone_arr(items, upto - 1);
        out.push(clone_json(&items[upto - 1]));
        out
    }
}

/// Deep copy of the first `upto` members of an object.
fn clone_members(members: &Vec<(String, JsonValue)>, upto: usize) -> (r: Vec<(String, JsonValue)>)
    requires
        upto <= members@.len(),
    ensures
        r@.len() == upto,
        forall|j: int|
            0 <= j < upto ==> #[trigger] r@[j].0@ == members@[j].0@ && r@[j].1@ == members@[j].1@,
    decreases members@, 0nat, upto,
{
    if upto == 0 {
        Vec::new()
    } else {
        let mut out = clone_members(members, upto - 1);
        out.push((members[upto - 1].0.clone(), clone_json(&members[upto - 1].1)));
        out
    }
}

/// What the shape check of a decoded JSON body yields: the operation
/// text, the optional operation name, and the variables object. The body
/// must be an object; `query` must be a non-empty string; `variables`,
/// when present, must be an object (or null, read as absent);
/// `operationName`, when present, must be a string (or null, read as
/// absent).
pub open spec fn spec_request_fields(b: JsonV) -> Result<
    (Seq<char>, Option<Seq<char>>, JsonV),
    ExtractionError,
> {
    match b {
        JsonV::Obj(ms) => match obj_get(ms, "query"@) {
            Some(JsonV::Str(q)) => if q.len() == 0 {
                Err(ExtractionError::MissingQuery)
            } else {
                match obj_get(ms, "variables"@) {
                    Some(JsonV::Obj(vs)) => spec_request_name(ms, q, JsonV::Obj(vs)),
                    Some(JsonV::Null) => spec_request_name(ms, q, JsonV::Obj(Seq::empty())),
                    Some(_) => Err(ExtractionError::MalformedBody),
                    None => spec_request_name(ms, q, JsonV::Obj(Seq::empty())),
                }
            },
            Some(_) => Err(ExtractionError::MissingQuery),
            None => Err(ExtractionError::MissingQuery),
        },
        _ => Err(ExtractionError::MalformedBody),
    }
}

/// The `operationName` step of the shape check.
pub open spec fn spec_request_name(
    ms: Seq<(Seq<char>, JsonV)>,
    q: Seq<char>,
    vars: JsonV,
) -> Result<(Seq<char>, Option<Seq<char>>, JsonV), ExtractionError> {
    match obj_get(ms, "operationName"@) {
        Some(JsonV::Str(n)) => Ok((q, Some(n), vars)),
        Some(JsonV::Null) => Ok((q, None, vars)),
        Some(_) => Err(ExtractionError::MalformedBody),
        None => Ok((q, None, vars)),
    }
}

/// Checks the shape of a decoded JSON body and builds the request, with
/// no uploads. Succeeds exactly when `spec_request_fields` does, and
/// preserves the operation text, operation name and variables exactly.
pub fn request_from_json(body: &JsonValue) -> (r: Result<QueryRequest, ExtractionError>)
    ensures
        match spec_request_fields(body@) {
            Ok(f) => r matches Ok(req) && req.query@ == f.0 && (match f.1 {
                Some(n) => req.operation_name matches Some(m) && m@ == n,
                None => req.operation_name is None,
            }) && req.variables@ == f.2 && req.uploads@.len() == 0,
            Err(e) => r matches Err(e2) && e2 == e,
        },
{
    let members = match body {
        JsonValue::Obj(members) => members,
        _ => {
            return Err(ExtractionError::MalformedBody);
        },
    };
    let key_query = String::from_str("query");
    let key_vars = String::from_str("variables");
    let key_name = String::from_str("operationName");
    let q: String = match exec_obj_get_from(members, 0, &key_query) {
        Some(JsonValue::Str(q)) => {
            if q.unicode_len() == 0 {
                return Err(ExtractionError::MissingQuery);
            }
            q.clone()
        },
        Some(_) => {
            return Err(ExtractionError::MissingQuery);
        },
        None => {
            return Err(ExtractionError::MissingQuery);
        },
    };
    let vars: JsonValue = match exec_obj_get_from(members, 0, &key_vars) {
        Some(v) => match v {
            JsonValue::Obj(_) => clone_json(v),
            JsonValue::Null => JsonValue::Obj(Vec::new()),
            _ => {
                return Err(ExtractionError::MalformedBody);
            },
        },
        None => JsonValue::Obj(Vec::new()),
    };
    proof {
        assert(member_views(Seq::<(String, JsonValue)>::empty()) =~= Seq::<
            (Seq<char>, JsonV),
        >::empty());
    }
    let opname: Option<String> = match exec_obj_get_from(members, 0, &key_name) {
        Some(v) => match v {
            JsonValue::Str(n) => Some(n.clone()),
            JsonValue::Null => None,
            _ => {
                return Err(ExtractionError::MalformedBody);
            },
        },
        None => None,
    };
    Ok(QueryRequest { query: q, operation_name: opname, variables: vars, uploads: Vec::new() })
}

/// Splitting a path string on `.`, accumulator form.
pub open spec fn split_from(
    s: Seq<char>,
    i: int,
    cur: Seq<char>,
    acc: Seq<Seq<char>>,
) -> Seq<Seq<char>>
    decreases s.len() - i,
{
    if i < 0 || i >= s.len() {
        acc.push(cur)
    } else if s[i] == '.' {
        split_from(s, i + 1, Seq::empty(), acc.push(cur))
    } else {
        split_from(s, i + 1, cur.push(s[i]), acc)
    }
}

/// The segments of a dotted path: `"variables.file"` gives
/// `["variables", "file"]`.
pub open spec fn split_dots(s: Seq<char>) -> Seq<Seq<char>> {
    split_from(s, 0, Seq::empty(), Seq::empty())
}

/// Executable counterpart of `split_from`.
fn exec_split_from(s: &str, i: usize, cur: String, acc: Vec<String>) -> (r: Vec<String>)
    requires
        i <= s@.len(),
    ensures
        str_views(r@) == split_from(s@, i as int, cur@, str_views(acc@)),
    decreases s@.len() - i,
{
    let n = s.unicode_len();
    if i >= n {
        let mut acc2 = acc;
        acc2.push(cur);
        proof {
            assert(str_views(acc2@) =~= str_views(acc@).push(cur@));
        }
        acc2
    } else {
        let c = s.get_char(i);
        if c == '.' {
            let mut acc2 = acc;
            acc2.push(cur);
            proof {
                assert(str_views(acc2@) =~= str_views(acc@).push(cur@));
            }
            exec_split_from(s, i + 1, String::new(), acc2)
        } else {
            let mut cur2 = cur;
            let piece = s.substring_char(i, i + 1);
            cur2.append(piece);
            proof {
                assert(cur2@ =~= cur@.push(s@[i as int]));
            }
            exec_split_from(s, i + 1, cur2, acc)
        }
    }
}

/// The views of a sequence of strings.
pub open spec fn str_views(ss: Seq<String>) -> Seq<Seq<char>> {
    ss.map_values(|s: String| s@)
}

/// The dotted-path segments of a string.
pub fn split_path(s: &String) -> (r: Vec<String>)
    ensures
        str_views(r@) == split_dots(s@),
{
    proof {
        assert(str_views(Seq::<String>::empty()) =~= Seq::<Seq<char>>::empty());
    }
    exec_split_from(s.as_str(), 0, String::new(), Vec::new())
}

/// A path segment read as an array index: a non-empty all-digit segment
/// whose value fits a signed machine word.
pub open spec fn seg_as_index(seg: Seq<char>) -> Option<nat> {
    if seg.len() > 0 && crate::json::digits_end(seg, 0) == seg.len() && crate::json::digits_val(
        seg,
        0,
        seg.len() as int,
    ) <= 0x7fff_ffff {
        Some(crate::json::digits_val(seg, 0, seg.len() as int))
    } else {
        None
    }
}

/// First member index bound to `key` from position `k` on.
pub open spec fn obj_index_from(ms: Seq<(Seq<char>, JsonV)>, k: int, key: Seq<char>) -> Option<int>
    decreases ms.len() - k,
{
    if k < 0 || k >= ms.len() {
        None
    } else if ms[k].0 == key {
        Some(k)
    } else {
        obj_index_from(ms, k + 1, key)
    }
}

/// Replaces the node at `path[p..]` under `v` with `handle`: object
/// members are addressed by key (first binding), array elements by
/// numeric segment. `None` where the path does not lead to a node.
pub open spec fn spec_set_at_path(
    v: JsonV,
    path: Seq<Seq<char>>,
    p: int,
    handle: JsonV,
) -> Option<JsonV>
    decreases path.len() - p,
{
    if p < 0 || p >= path.len() {
        Some(handle)
    } else {
        match v {
            JsonV::Obj(ms) => match obj_index_from(ms, 0, path[p]) {
                Some(i) => match spec_set_at_path(ms[i].1, path, p + 1, handle) {
                    Some(nv) => Some(JsonV::Obj(ms.update(i, (ms[i].0, nv)))),
                    None => None,
                },
                None => None,
            },
            JsonV::Arr(items) => match seg_as_index(path[p]) {
                Some(i) => if i < items.len() {
                    match spec_set_at_path(items[i as int], path, p + 1, handle) {
                        Some(nv) => Some(JsonV::Arr(items.update(i as int, nv))),
                        None => None,
                    }
                } else {
                    None
                },
                None => None,
            },
            _ => None,
        }
    }
}

/// The node at `path[p..]` under `v`, if the path leads to one.
pub open spec fn spec_get_at_path(v: JsonV, path: Seq<Seq<char>>, p: int) -> Option<JsonV>
    decreases path.len() - p,
{
    if p < 0 || p >= path.len() {
        Some(v)
    } else {
        match v {
            JsonV::Obj(ms) => match obj_index_from(ms, 0, path[p]) {
                Some(i) => spec_get_at_path(ms[i].1, path, p + 1),
                None => None,
            },
            JsonV::Arr(items) => match seg_as_index(path[p]) {
                Some(i) => if i < items.len() {
                    spec_get_at_path(items[i as int], path, p + 1)
                } else {
                    None
                },
                None => None,
            },
            _ => None,
        }
    }
}

/// LAW: substitution hits its mark. Wherever `spec_set_at_path` succeeds,
/// reading the same path back yields exactly the handle that was planted.
pub proof fn lemma_set_then_get(v: JsonV, path: Seq<Seq<char>>, p: int, handle: JsonV)
    requires
        spec_set_at_path(v, path, p, handle) is Some,
    ensures
        spec_get_at_path(spec_set_at_path(v, path, p, handle)->0, path, p) == Some(handle),
    decreases path.len() - p,
{
    if p < 0 || p >= path.len() {
    } else {
        match v {
            JsonV::Obj(ms) => {
                let i = obj_index_from(ms, 0, path[p])->0;
                lemma_obj_index_range(ms, 0, path[p]);
                lemma_set_then_get(ms[i].1, path, p + 1, handle);
                let nv = spec_set_at_path(ms[i].1, path, p + 1, handle)->0;
                let ms2 = ms.update(i, (ms[i].0, nv));
                lemma_obj_index_update(ms, i, nv, path[p]);
                assert(ms2[i].1 == nv);
            },
            JsonV::Arr(items) => {
                let i = seg_as_index(path[p])->0;
                lemma_set_then_get(items[i as int], path, p + 1, handle);
            },
            _ => {},
        }
    }
}

/// A successful first-match lookup lands in range, on a matching key.
pub proof fn lemma_obj_index_range(ms: Seq<(Seq<char>, JsonV)>, k: int, key: Seq<char>)
    requires
        obj_index_from(ms, k, key) is Some,
    ensures
        k <= obj_index_from(ms, k, key)->0 < ms.len(),
        ms[obj_index_from(ms, k, key)->0].0 == key,
    decreases ms.len() - k,
{
    if 0 <= k < ms.len() && ms[k].0 != key {
        lemma_obj_index_range(ms, k + 1, key);
    }
}

/// Updating the value at the first binding of `key` keeps it the first
/// binding of `key`.
proof fn lemma_obj_index_update(ms: Seq<(Seq<char>, JsonV)>, i: int, nv: JsonV, key: Seq<char>)
    requires
        obj_index_from(ms, 0, key) == Some(i),
    ensures
        obj_index_from(ms.update(i, (ms[i].0, nv)), 0, key) == Some(i),
{
    lemma_obj_index_range(ms, 0, key);
    let ms2 = ms.update(i, (ms[i].0, nv));
    lemma_obj_index_from_update(ms, ms2, 0, i, key);
}

/// Helper: first-match search agrees on two member lists that differ
/// only in values, never in keys.
proof fn lemma_obj_index_from_update(
    ms: Seq<(Seq<char>, JsonV)>,
    ms2: Seq<(Seq<char>, JsonV)>,
    k: int,
    i: int,
    key: Seq<char>,
)
    requires
        0 <= k,
        obj_index_from(ms, k, key) == Some(i),
        ms2.len() == ms.len(),
        forall|j: int| 0 <= j < ms.len() ==> #[trigger] ms2[j].0 == ms[j].0,
    ensures
        obj_index_from(ms2, k, key) == Some(i),
    decreases ms.len() - k,
{
    if k < ms.len() {
        if ms[k].0 == key {
        } else {
            lemma_obj_index_from_update(ms, ms2, k + 1, i, key);
        }
    }
}

/// Executable first-match index lookup over an object's members.
fn exec_obj_index_from(ms: &Vec<(String, JsonValue)>, k: usize, key: &String) -> (r: Option<usize>)
    requires
        k <= ms@.len(),
    ensures
        match obj_index_from(member_views(ms@), k as int, key@) {
            Some(i) => r matches Some(j) && j as int == i && i < ms@.len(),
            None => r is None,
        },
    decreases ms@.len() - k,
{
    proof {
        lemma_member_views(ms@);
    }
    if k == ms.len() {
        None
    } else if ms[k].0.eq(key) {
        Some(k)
    } else {
        exec_obj_index_from(ms, k + 1, key)
    }
}

/// Executable counterpart of `seg_as_index`.
fn exec_seg_as_index(seg: &String) -> (r: Option<usize>)
    ensures
        match seg_as_index(seg@) {
            Some(i) => r matches Some(j) && j as nat == i,
            None => r is None,
        },
{
    let s = seg.as_str();
    let n = s.unicode_len();
    if n == 0 {
        return None;
    }
    let e = crate::json::exec_digits_end(s, 0);
    if e != n {
        return None;
    }
    proof {
        crate::json::lemma_digits_run(s@, 0, n as int);
    }
    match crate::json::exec_digits_val(s, 0, n) {
        Some(m) => {
            if m <= 0x7fff_ffffu64 {
                Some(m as usize)
            } else {
                None
            }
        },
        None => None,
    }
}

/// Executable counterpart of `spec_set_at_path`, planting an upload
/// handle.
fn set_at_path(v: JsonValue, path: &Vec<String>, p: usize, upload_index: usize) -> (r: Option<
    JsonValue,
>)
    requires
        p <= path@.len(),
    ensures
        match spec_set_at_path(v@, str_views(path@), p as int, JsonV::Upload(upload_index as nat)) {
            Some(nv) => r matches Some(w) && w@ == nv,
            None => r is None,
        },
    decreases path@.len() - p,
{
    if p >= path.len() {
        return Some(JsonValue::Upload(upload_index));
    }
    let seg = &path[p];
    proof {
        assert(str_views(path@)[p as int] == seg@);
    }
    match v {
        JsonValue::Obj(members) => {
            proof {
                lemma_member_views(members@);
            }
            match exec_obj_index_from(&members, 0, seg) {
                Some(i) => {
                    let ghost msv = member_views(members@);
                    let ghost orig = members@;
                    let mut members2 = members;
                    let entry = members2.remove(i);
                    let (k, oldv) = entry;
                    proof {
                        assert(oldv@ == msv[i as int].1);
                    }
                    match set_at_path(oldv, path, p + 1, upload_index) {
                        Some(nv) => {
                            let ghost nvv = nv@;
                            let ghost kk = k;
                            members2.insert(i, (k, nv));
                            proof {
                                assert(members2@ =~= orig.update(i as int, (kk, nv)));
                                lemma_member_views(members2@);
                                assert(member_views(members2@) =~= msv.update(
                                    i as int,
                                    (msv[i as int].0, nvv),
                                ));
                            }
                            Some(JsonValue::Obj(members2))
                        },
                        None => None,
                    }
                },
                None => None,
            }
        },
        JsonValue::Arr(items) => {
            proof {
                lemma_elem_views(items@);
            }
            match exec_seg_as_index(seg) {
                Some(i) => {
                    if i < items.len() {
                        let ghost itv = elem_views(items@);
                        let ghost orig = items@;
                        let mut items2 = items;
                        let oldv = items2.remove(i);
                        proof {
                            assert(oldv@ == itv[i as int]);
                        }
                        match set_at_path(oldv, path, p + 1, upload_index) {
                            Some(nv) => {
                                let ghost nvv = nv@;
                                items2.insert(i, nv);
                                proof {
                                    assert(items2@ =~= orig.update(i as int, nv));
                                    lemma_elem_views(items2@);
                                    assert(elem_views(items2@) =~= itv.update(i as int, nvv));
                                }
                                Some(JsonValue::Arr(items2))
                            },
                            None => None,
                        }
                    } else {
                        None
                    }
                },
                None => None,
            }
        },
        _ => None,
    }
}

/// Mathematical model of an uploaded file.
pub struct UploadedFileV {
    pub name: Seq<char>,
    pub filename: Option<Seq<char>>,
    pub content: Seq<u8>,
}

impl View for UploadedFile {
    type V = UploadedFileV;

    open spec fn view(&self) -> UploadedFileV {
        UploadedFileV {
            name: self.name@,
            filename: match self.filename {
                Some(f) => Some(f@),
                None => None,
            },
            content: self.content@,
        }
    }
}

/// The views of a file list, in order.
pub open spec fn file_views(fs: Seq<UploadedFile>) -> Seq<UploadedFileV> {
    fs.map_values(|f: UploadedFile| f@)
}

/// Mathematical model of a query request.
pub struct QueryRequestV {
    pub query: Seq<char>,
    pub operation_name: Option<Seq<char>>,
    pub variables: JsonV,
    pub uploads: Seq<UploadedFileV>,
}

impl View for QueryRequest {
    type V = QueryRequestV;

    open spec fn view(&self) -> QueryRequestV {
        QueryRequestV {
            query: self.query@,
            operation_name: match self.operation_name {
                Some(n) => Some(n@),
                None => None,
            },
            variables: self.variables@,
            uploads: file_views(self.uploads@),
        }
    }
}

/// The parts of one multipart upload request, already separated by the
/// transport: the `operations` JSON part, the `map` JSON part, and the
/// named file parts in arrival order.
pub struct MultipartForm {
    pub operations: Option<String>,
    pub map: Option<String>,
    pub files: Vec<UploadedFile>,
}

/// View of an optional string.
pub open spec fn opt_str_view(s: Option<String>) -> Option<Seq<char>> {
    match s {
        Some(t) => Some(t@),
        None => None,
    }
}

/// First file whose part name is `name`, from position `k` on.
pub open spec fn spec_find_file(files: Seq<UploadedFileV>, k: int, name: Seq<char>) -> Option<int>
    decreases files.len() - k,
{
    if k < 0 || k >= files.len() {
        None
    } else if files[k].name == name {
        Some(k)
    } else {
        spec_find_file(files, k + 1, name)
    }
}

/// Plants the upload handle `idx` at each placeholder path of one map
/// entry, left to right. Every path must be a string of dotted segments
/// whose first segment is `variables`.
pub open spec fn spec_resolve_paths(
    vars: JsonV,
    paths: Seq<JsonV>,
    q: int,
    idx: nat,
) -> Option<JsonV>
    decreases paths.len() - q,
{
    if q < 0 || q >= paths.len() {
        Some(vars)
    } else {
        match paths[q] {
            JsonV::Str(ps) => {
                let segs = split_dots(ps);
                if segs.len() >= 1 && segs[0] == "variables"@ {
                    match spec_set_at_path(vars, segs, 1, JsonV::Upload(idx)) {
                        Some(nv) => spec_resolve_paths(nv, paths, q + 1, idx),
                        None => None,
                    }
                } else {
                    None
                }
            },
            _ => None,
        }
    }
}

/// Resolves every entry of the `map` object, in order: each entry names
/// a file part and lists the placeholder paths that receive its handle.
/// A missing part, a non-list entry or a dead path yields `None`.
pub open spec fn spec_resolve_map(
    vars: JsonV,
    mm: Seq<(Seq<char>, JsonV)>,
    k: int,
    files: Seq<UploadedFileV>,
) -> Option<JsonV>
    decreases mm.len() - k,
{
    if k < 0 || k >= mm.len() {
        Some(vars)
    } else {
        match mm[k].1 {
            JsonV::Arr(paths) => match spec_find_file(files, 0, mm[k].0) {
                Some(fi) => match spec_resolve_paths(vars, paths, 0, fi as nat) {
                    Some(nv) => spec_resolve_map(nv, mm, k + 1, files),
                    None => None,
                },
                None => None,
            },
            _ => None,
        }
    }
}

/// Whether some file breaks the per-file size limit.
pub open spec fn spec_file_too_large(files: Seq<UploadedFileV>, opts: ExtractOpts) -> bool {
    match opts.max_file_size_bytes {
        Some(m) => exists|j: int| 0 <= j < files.len() && #[trigger] files[j].content.len() > m,
        None => false,
    }
}

/// What multipart extraction yields: limits first, then the `operations`
/// part decoded and shape-checked like a JSON body, then the `map` part
/// decoded and resolved over the file parts. The uploads of the result
/// are the file parts, in arrival order.
pub open spec fn spec_extract_multipart(form: MultipartForm, opts: ExtractOpts) -> Result<
    QueryRequestV,
    ExtractionError,
> {
    let files = file_views(form.files@);
    if (match opts.max_file_count {
        Some(m) => form.files@.len() > m,
        None => false,
    }) {
        Err(ExtractionError::LimitExceeded)
    } else if spec_file_too_large(files, opts) {
        Err(ExtractionError::LimitExceeded)
    } else {
        match form.operations {
            None => Err(ExtractionError::MissingQuery),
            Some(os) => match spec_parse_json(os@) {
                None => Err(ExtractionError::MalformedBody),
                Some(ov) => match spec_request_fields(ov) {
                    Err(e) => Err(e),
                    Ok(f) => match form.map {
                        None => Err(ExtractionError::MalformedBody),
                        Some(ms) => match spec_parse_json(ms@) {
                            Some(JsonV::Obj(mm)) => match spec_resolve_map(f.2, mm, 0, files) {
                                Some(nv) => Ok(
                                    QueryRequestV {
                                        query: f.0,
                                        operation_name: f.1,
                                        variables: nv,
                                        uploads: files,
                                    },
                                ),
                                None => Err(ExtractionError::MalformedBody),
                            },
                            Some(_) => Err(ExtractionError::MalformedBody),
                            None => Err(ExtractionError::MalformedBody),
                        },
                    },
                },
            },
        }
    }
}

/// Executable counterpart of `spec_find_file`.
fn exec_find_file(files: &Vec<UploadedFile>, k: usize, name: &String) -> (r: Option<usize>)
    requires
        k <= files@.len(),
    ensures
        match spec_find_file(file_views(files@), k as int, name@) {
            Some(i) => r matches Some(j) && j as int == i,
            None => r is None,
        },
    decreases files@.len() - k,
{
    if k == files.len() {
        None
    } else if files[k].name.eq(name) {
        Some(k)
    } else {
        exec_find_file(files, k + 1, name)
    }
}

/// Executable counterpart of `spec_resolve_paths`.
fn exec_resolve_paths(vars: JsonValue, paths: &Vec<JsonValue>, q: usize, idx: usize) -> (r: Option<
    JsonValue,
>)
    requires
        q <= paths@.len(),
    ensures
        match spec_resolve_paths(vars@, elem_views(paths@), q as int, idx as nat) {
            Some(nv) => r matches Some(w) && w@ == nv,
            None => r is None,
        },
    decreases paths@.len() - q,
{
    proof {
        lemma_elem_views(paths@);
    }
    if q >= paths.len() {
        return Some(vars);
    }
    match &paths[q] {
        JsonValue::Str(ps) => {
            let segs = split_path(ps);
            let key = String::from_str("variables");
            if segs.len() >= 1 && segs[0].eq(&key) {
                proof {
                    assert(str_views(segs@)[0] == segs@[0]@);
                }
                match set_at_path(vars, &segs, 1, idx) {
                    Some(nv) => exec_resolve_paths(nv, paths, q + 1, idx),
                    None => None,
                }
            } else {
                proof {
                    if str_views(segs@).len() >= 1 {
                        assert(str_views(segs@)[0] == segs@[0]@);
                    }
                }
                None
            }
        },
        _ => None,
    }
}

/// Extracts a query request from the parts of one multipart upload,
/// exactly as `spec_extract_multipart` describes.
pub fn extract_multipart(form: MultipartForm, opts: &ExtractOpts) -> (r: Result<
    QueryRequest,
    ExtractionError,
>)
    requires
        match form.operations {
            Some(s) => s@.len() < usize::MAX,
            None => true,
        },
        match form.map {
            Some(s) => s@.len() < usize::MAX,
            None => true,
        },
    ensures
        match spec_extract_multipart(form, *opts) {
            Ok(rv) => r matches Ok(req) && req@ == rv,
            Err(e) => r matches Err(e2) && e2 == e,
        },
{
    let ghost filesv = file_views(form.files@);
    if let Some(m) = opts.max_file_count {
        if form.files.len() > m {
            return Err(ExtractionError::LimitExceeded);
        }
    }
    if let Some(m) = opts.max_file_size_bytes {
        let mut k: usize = 0;
        while k < form.files.len()
            invariant
                0 <= k <= form.files@.len(),
                filesv == file_views(form.files@),
                opts.max_file_size_bytes == Some(m),
                forall|j: int| 0 <= j < k ==> #[trigger] filesv[j].content.len() <= m,
            decreases form.files@.len() - k,
        {
            if form.files[k].content.len() > m {
                proof {
                    assert(filesv[k as int].content.len() > m);
                }
                return Err(ExtractionError::LimitExceeded);
            }
            k = k + 1;
        }
    }
    proof {
        assert(!spec_file_too_large(filesv, *opts));
    }
    let ops: &String = match &form.operations {
        Some(s) => s,
        None => {
            return Err(ExtractionError::MissingQuery);
        },
    };
    let ov = match parse_json(ops.as_str()) {
        Some(v) => v,
        None => {
            return Err(ExtractionError::MalformedBody);
        },
    };
    let base = match request_from_json(&ov) {
        Ok(req) => req,
        Err(e) => {
            return Err(e);
        },
    };
    let map_s: &String = match &form.map {
        Some(s) => s,
        None => {
            return Err(ExtractionError::MalformedBody);
        },
    };
    let mv = match parse_json(map_s.as_str()) {
        Some(v) => v,
        None => {
            return Err(ExtractionError::MalformedBody);
        },
    };
    let mm = match mv {
        JsonValue::Obj(mm) => mm,
        _ => {
            return Err(ExtractionError::MalformedBody);
        },
    };
    let ghost mmv = member_views(mm@);
    let ghost vars0 = base.variables@;
    let ghost qv = base.query@;
    let ghost onv = (match base.operation_name {
        Some(ref n) => Some(n@),
        None => None,
    });
    let mut vars = base.variables;
    let mut k: usize = 0;
    while k < mm.len()
        invariant
            0 <= k <= mm@.len(),
            mmv == member_views(mm@),
            filesv == file_views(form.files@),
            spec_extract_multipart(form, *opts) == (match spec_resolve_map(
                vars@,
                mmv,
                k as int,
                filesv,
            ) {
                Some(nv) => Ok(
                    QueryRequestV {
                        query: qv,
                        operation_name: onv,
                        variables: nv,
                        uploads: filesv,
                    },
                ),
                None => Err::<QueryRequestV, ExtractionError>(ExtractionError::MalformedBody),
            }),
        decreases mm@.len() - k,
    {
        proof {
            lemma_member_views(mm@);
        }
        let paths = match &mm[k].1 {
            JsonValue::Arr(paths) => paths,
            _ => {
                return Err(ExtractionError::MalformedBody);
            },
        };
        let fi = match exec_find_file(&form.files, 0, &mm[k].0) {
            Some(fi) => fi,
            None => {
                return Err(ExtractionError::MalformedBody);
            },
        };
        vars = match exec_resolve_paths(vars, paths, 0, fi) {
            Some(nv) => nv,
            None => {
                return Err(ExtractionError::MalformedBody);
            },
        };
        k = k + 1;
    }
    proof {
        lemma_member_views(mm@);
        assert(spec_resolve_map(vars@, mmv, k as int, filesv) == Some(vars@));
        assert(spec_extract_multipart(form, *opts) == Ok::<QueryRequestV, ExtractionError>(
            QueryRequestV { query: qv, operation_name: onv, variables: vars@, uploads: filesv },
        ));
    }
    let req = QueryRequest {
        query: base.query,
        operation_name: base.operation_name,
        variables: vars,
        uploads: form.files,
    };
    proof {
        assert(req@.query == qv);
        assert(req@.operation_name == onv);
        assert(req@.uploads == filesv);
    }
    Ok(req)
}

/// LAW: extraction round-trips a well-formed body. For every non-empty
/// query text, variables object and operation name, the body
/// `{"query": q, "variables": vars, "operationName": name}` extracts
/// successfully and hands back exactly those three values.
pub proof fn lemma_extraction_round_trip(q: Seq<char>, vars: Seq<(Seq<char>, JsonV)>, name: Seq<
    char,
>)
    requires
        q.len() > 0,
    ensures
        spec_request_fields(
            JsonV::Obj(
                seq![
                    ("query"@, JsonV::Str(q)),
                    ("variables"@, JsonV::Obj(vars)),
                    ("operationName"@, JsonV::Str(name)),
                ],
            ),
        ) == Ok::<(Seq<char>, Option<Seq<char>>, JsonV), ExtractionError>((
            q,
            Some(name),
            JsonV::Obj(vars),
        )),
{
    reveal_strlit("query");
    reveal_strlit("variables");
    reveal_strlit("operationName");
    let ms = seq![
        ("query"@, JsonV::Str(q)),
        ("variables"@, JsonV::Obj(vars)),
        ("operationName"@, JsonV::Str(name)),
    ];
    assert("query"@.len() == 5 && "variables"@.len() == 9 && "operationName"@.len() == 13);
    assert(obj_get(ms, "query"@) == Some(JsonV::Str(q)));
    assert(obj_get_from(ms, 1, "variables"@) == Some(JsonV::Obj(vars)));
    assert(obj_get(ms, "variables"@) == Some(JsonV::Obj(vars)));
    assert(obj_get_from(ms, 2, "operationName"@) == Some(JsonV::Str(name)));
    assert(obj_get_from(ms, 1, "operationName"@) == Some(JsonV::Str(name)));
    assert(obj_get(ms, "operationName"@) == Some(JsonV::Str(name)));
}

/// LAW: a body carrying only a non-empty `query` extracts successfully,
/// with no operation name and empty variables.
pub proof fn lemma_extraction_query_only(q: Seq<char>)
    requires
        q.len() > 0,
    ensures
        spec_request_fields(JsonV::Obj(seq![("query"@, JsonV::Str(q))])) == Ok::<
            (Seq<char>, Option<Seq<char>>, JsonV),
            ExtractionError,
        >((q, None, JsonV::Obj(Seq::empty()))),
{
    let ms = seq![("query"@, JsonV::Str(q))];
    reveal_strlit("query");
    reveal_strlit("variables");
    reveal_strlit("operationName");
    assert("query"@.len() == 5 && "variables"@.len() == 9 && "operationName"@.len() == 13);
    assert(obj_get(ms, "query"@) == Some(JsonV::Str(q)));
    assert(obj_get_from(ms, 1, "variables"@) is None);
    assert(obj_get(ms, "variables"@) is None);
    assert(obj_get_from(ms, 1, "operationName"@) is None);
    assert(obj_get(ms, "operationName"@) is None);
}

/// The views of a parameter list.
pub open spec fn pair_views(ps: Seq<(String, String)>) -> Seq<(Seq<char>, Seq<char>)> {
    ps.map_values(|p: (String, String)| (p.0@, p.1@))
}

/// First parameter value bound to `name`, from position `k` on.
pub open spec fn spec_find_param(
    ps: Seq<(Seq<char>, Seq<char>)>,
    k: int,
    name: Seq<char>,
) -> Option<Seq<char>>
    decreases ps.len() - k,
{
    if k < 0 || k >= ps.len() {
        None
    } else if ps[k].0 == name {
        Some(ps[k].1)
    } else {
        spec_find_param(ps, k + 1, name)
    }
}

/// What extraction from URL query parameters yields: `query` must be
/// present and non-empty; `variables`, when present, is a JSON-encoded
/// object; `operationName`, when present, is taken as given.
pub open spec fn spec_extract_params(ps: Seq<(Seq<char>, Seq<char>)>) -> Result<
    QueryRequestV,
    ExtractionError,
> {
    match spec_find_param(ps, 0, "query"@) {
        None => Err(ExtractionError::MissingQuery),
        Some(q) => if q.len() == 0 {
            Err(ExtractionError::MissingQuery)
        } else {
            match (match spec_find_param(ps, 0, "variables"@) {
                None => Some(JsonV::Obj(Seq::empty())),
                Some(vs) => match spec_parse_json(vs) {
                    Some(JsonV::Obj(x)) => Some(JsonV::Obj(x)),
                    _ => None,
                },
            }) {
                None => Err(ExtractionError::MalformedBody),
                Some(vars) => Ok(
                    QueryRequestV {
                        query: q,
                        operation_name: spec_find_param(ps, 0, "operationName"@),
                        variables: vars,
                        uploads: Seq::empty(),
                    },
                ),
            }
        },
    }
}

/// Executable counterpart of `spec_find_param`.
fn exec_find_param<'a>(ps: &'a Vec<(String, String)>, k: usize, name: &String) -> (r: Option<
    &'a String,
>)
    requires
        k <= ps@.len(),
    ensures
        match spec_find_param(pair_views(ps@), k as int, name@) {
            Some(v) => r matches Some(w) && w@ == v,
            None => r is None,
        },
    decreases ps@.len() - k,
{
    if k == ps.len() {
        None
    } else if ps[k].0.eq(name) {
        proof {
            assert(pair_views(ps@)[k as int] == (ps@[k as int].0@, ps@[k as int].1@));
        }
        Some(&ps[k].1)
    } else {
        proof {
            assert(pair_views(ps@)[k as int] == (ps@[k as int].0@, ps@[k as int].1@));
        }
        exec_find_param(ps, k + 1, name)
    }
}

/// Extracts a query request from URL query parameters, exactly as
/// `spec_extract_params` describes.
pub fn extract_params(params: &Vec<(String, String)>) -> (r: Result<QueryRequest, ExtractionError>)
    requires
        forall|j: int| 0 <= j < params@.len() ==> (#[trigger] params@[j].1)@.len() < usize::MAX,
    ensures
        match spec_extract_params(pair_views(params@)) {
            Ok(rv) => r matches Ok(req) && req@ == rv,
            Err(e) => r matches Err(e2) && e2 == e,
        },
{
    let key_query = String::from_str("query");
    let key_vars = String::from_str("variables");
    let key_name = String::from_str("operationName");
    let q: String = match exec_find_param(params, 0, &key_query) {
        None => {
            return Err(ExtractionError::MissingQuery);
        },
        Some(q) => {
            if q.unicode_len() == 0 {
                return Err(ExtractionError::MissingQuery);
            }
            q.clone()
        },
    };
    let vars: JsonValue = match exec_find_param(params, 0, &key_vars) {
        None => JsonValue::Obj(Vec::new()),
        Some(vs) => {
            proof {
                lemma_param_len(params@, "variables"@);
            }
            match parse_json(vs.as_str()) {
                Some(JsonValue::Obj(x)) => JsonValue::Obj(x),
                _ => {
                    return Err(ExtractionError::MalformedBody);
                },
            }
        },
    };
    proof {
        assert(member_views(Seq::<(String, JsonValue)>::empty()) =~= Seq::<
            (Seq<char>, JsonV),
        >::empty());
    }
    let opname: Option<String> = match exec_find_param(params, 0, &key_name) {
        None => None,
        Some(n) => Some(n.clone()),
    };
    let req = QueryRequest { query: q, operation_name: opname, variables: vars, uploads: Vec::new() };
    proof {
        assert(req@.uploads =~= Seq::<UploadedFileV>::empty());
    }
    Ok(req)
}

/// A found parameter value is one of the list's values.
proof fn lemma_param_len(ps: Seq<(String, String)>, name: Seq<char>)
    requires
        forall|j: int| 0 <= j < ps.len() ==> (#[trigger] ps[j].1)@.len() < usize::MAX,
    ensures
        match spec_find_param(pair_views(ps), 0, name) {
            Some(v) => v.len() < usize::MAX,
            None => true,
        },
{
    lemma_find_param_from(ps, 0, name);
}

/// Helper: a found parameter value comes from some position of the list.
proof fn lemma_find_param_from(ps: Seq<(String, String)>, k: int, name: Seq<char>)
    requires
        0 <= k,
        forall|j: int| 0 <= j < ps.len() ==> (#[trigger] ps[j].1)@.len() < usize::MAX,
    ensures
        match spec_find_param(pair_views(ps), k, name) {
            Some(v) => v.len() < usize::MAX,
            None => true,
        },
    decreases ps.len() - k,
{
    if k < ps.len() {
        assert(pair_views(ps)[k] == (ps[k].0@, ps[k].1@));
        lemma_find_param_from(ps, k + 1, name);
    }
}

/// The HTTP method of an inbound request, as far as extraction cares.
#[derive(Clone, Copy, PartialEq, Eq, Structural, Debug)]
pub enum HttpMethod {
    Get,
    Post,
}

/// The decoded payload of an inbound request: a text body, or the parts
/// of a multipart upload, already separated by the transport.
pub enum RequestBody {
    Text(String),
    Parts(MultipartForm),
}

/// One inbound HTTP request, as plain values: method, declared content
/// type, payload, and URL query parameters.
pub struct HttpRequestModel {
    pub method: HttpMethod,
    pub content_type: Option<String>,
    pub body: RequestBody,
    pub params: Vec<(String, String)>,
}

/// What extraction yields for one request: GET reads the query
/// parameters; POST with `application/json` (or no declared type) decodes
/// the body as a JSON request, bounded by the body size limit; POST with
/// `multipart/form-data` runs the upload convention; anything else is
/// unsupported. A payload of the wrong kind for the declared type is
/// malformed.
pub open spec fn spec_extract(req: HttpRequestModel, opts: ExtractOpts) -> Result<
    QueryRequestV,
    ExtractionError,
> {
    if req.method == HttpMethod::Get {
        spec_extract_params(pair_views(req.params@))
    } else {
        let json_like = match req.content_type {
            None => match req.body {
                RequestBody::Text(s) => json_looking(s@),
                RequestBody::Parts(_) => false,
            },
            Some(ct) => "application/json"@.is_prefix_of(ct@),
        };
        let multi = match req.content_type {
            None => false,
            Some(ct) => "multipart/form-data"@.is_prefix_of(ct@),
        };
        if json_like {
            match req.body {
                RequestBody::Text(s) => if (match opts.max_body_size_bytes {
                    Some(m) => vstd::utf8::encode_utf8(s@).len() > m,
                    None => false,
                }) {
                    Err(ExtractionError::LimitExceeded)
                } else {
                    match spec_parse_json(s@) {
                        Some(v) => match spec_request_fields(v) {
                            Ok(f) => Ok(
                                QueryRequestV {
                                    query: f.0,
                                    operation_name: f.1,
                                    variables: f.2,
                                    uploads: Seq::empty(),
                                },
                            ),
                            Err(e) => Err(e),
                        },
                        None => Err(ExtractionError::MalformedBody),
                    }
                },
                RequestBody::Parts(_) => Err(ExtractionError::MalformedBody),
            }
        } else if multi {
            match req.body {
                RequestBody::Parts(form) => spec_extract_multipart(form, opts),
                RequestBody::Text(_) => Err(ExtractionError::MalformedBody),
            }
        } else {
            Err(ExtractionError::UnsupportedContentType)
        }
    }
}

/// Whether a body looks like a JSON request: its first character after
/// whitespace opens an object.
pub open spec fn json_looking(s: Seq<char>) -> bool {
    let i = crate::json::ws_end(s, 0);
    i < s.len() && s[i] == '{'
}

/// Character-by-character prefix check.
fn prefix_from(s: &str, p: &str, k: usize) -> (r: bool)
    requires
        k <= p@.len(),
        k <= s@.len(),
        forall|j: int| 0 <= j < k ==> s@[j] == p@[j],
    ensures
        r == p@.is_prefix_of(s@),
    decreases p@.len() - k,
{
    if k == p.unicode_len() {
        proof {
            assert(p@ =~= s@.subrange(0, p@.len() as int));
        }
        true
    } else if k >= s.unicode_len() {
        false
    } else if s.get_char(k) == p.get_char(k) {
        prefix_from(s, p, k + 1)
    } else {
        proof {
            if p@.is_prefix_of(s@) {
                assert(p@[k as int] == s@.subrange(0, p@.len() as int)[k as int]);
            }
        }
        false
    }
}

/// Whether the string starts with the given literal.
fn has_prefix_lit(s: &String, p: &str) -> (r: bool)
    ensures
        r == p@.is_prefix_of(s@),
{
    prefix_from(s.as_str(), p, 0)
}

/// Extracts a structured query request from one inbound HTTP request,
/// exactly as `spec_extract` describes, enforcing the given limits.
pub fn extract(req: HttpRequestModel, opts: &ExtractOpts) -> (r: Result<
    QueryRequest,
    ExtractionError,
>)
    requires
        forall|j: int| 0 <= j < req.params@.len() ==> (#[trigger] req.params@[j].1)@.len()
            < usize::MAX,
        match req.body {
            RequestBody::Text(ref s) => s@.len() < usize::MAX,
            RequestBody::Parts(ref form) => (match form.operations {
                Some(ref s) => s@.len() < usize::MAX,
                None => true,
            }) && (match form.map {
                Some(ref s) => s@.len() < usize::MAX,
                None => true,
            }),
        },
    ensures
        match spec_extract(req, *opts) {
            Ok(rv) => r matches Ok(q) && q@ == rv,
            Err(e) => r matches Err(e2) && e2 == e,
        },
{
    if matches!(req.method, HttpMethod::Get) {
        return extract_params(&req.params);
    }
    let json_like = match &req.content_type {
        None => match &req.body {
            RequestBody::Text(s) => {
                let slice = s.as_str();
                let k = crate::json::exec_ws_end(slice, 0);
                k < slice.unicode_len() && slice.get_char(k) == '{'
            },
            RequestBody::Parts(_) => false,
        },
        Some(ct) => has_prefix_lit(ct, "application/json"),
    };
    let multi = match &req.content_type {
        None => false,
        Some(ct) => has_prefix_lit(ct, "multipart/form-data"),
    };
    if json_like {
        match req.body {
            RequestBody::Text(s) => {
                if let Some(m) = opts.max_body_size_bytes {
                    if crate::json::utf8_len(s.as_str()) > m {
                        return Err(ExtractionError::LimitExceeded);
                    }
                }
                match parse_json(s.as_str()) {
                    Some(v) => {
                        let rr = request_from_json(&v);
                        proof {
                            match &rr {
                                Ok(req2) => {
                                    assert(req2@.uploads =~= Seq::<UploadedFileV>::empty());
                                },
                                Err(_) => {},
                            }
                        }
                        rr
                    },
                    None => Err(ExtractionError::MalformedBody),
                }
            },
            RequestBody::Parts(_) => Err(ExtractionError::MalformedBody),
        }
    } else if multi {
        match req.body {
            RequestBody::Parts(form) => extract_multipart(form, opts),
            RequestBody::Text(_) => Err(ExtractionError::MalformedBody),
        }
    } else {
        Err(ExtractionError::UnsupportedContentType)
    }
}

} // verus!
