//! Package manifests (`baller.toml` / `baller.json`): the documented nested
//! layout rewritten into the flat shape a [`Package`](crate::package::Package)
//! is read from, and the checks made on the result.
//!
//! A manifest reaches this module already decoded into a [`Json`] tree; the
//! decoding itself (TOML or JSON text into a tree, and the flat tree into a
//! package) is done by the serde-based front end.

use vstd::prelude::*;
use vstd::string::*;

use crate::error::{BallError, ErrorView};
use crate::package::Package;
use crate::text::{
    ascii_lower, chars_of, concat, is_ascii_text, lemma_trim_ends, concat3, ends_with, ends_with_str, eq_str, lemma_chars_deep_view, pair_prefix_len, spec_to_lowercase, split_chars,
    split_on, split_once, split_once_str, string_of, sub_vec, to_lowercase, trim, trim_str, trimmed,
};

verus! {

/// A decoded manifest value. Numbers are carried as their text; an object
/// keeps its entries in the decoder's order, each key once.
#[derive(Debug)]
pub enum Json {
    Null,
    Bool(bool),
    Number(String),
    Str(String),
    Array(Vec<Json>),
    Object(Vec<Member>),
}

/// One key and its value in a decoded object.
#[derive(Debug)]
pub struct Member {
    pub key: String,
    pub value: Json,
}

/// A [`Json`] as a mathematical value.
pub enum JsonV {
    Null,
    Bool(bool),
    Number(Seq<char>),
    Str(Seq<char>),
    Array(Seq<JsonV>),
    Object(Seq<(Seq<char>, JsonV)>),
}

/// Keys and values paired up, index by index.
pub open spec fn zip_members(ks: Seq<Seq<char>>, vs: Seq<JsonV>) -> Seq<(Seq<char>, JsonV)> {
    Seq::new(vs.len(), |i: int| (ks[i], vs[i]))
}

impl View for Json {
    type V = JsonV;

    open spec fn view(&self) -> JsonV
        decreases self,
    {
        match self {
            Json::Null => JsonV::Null,
            Json::Bool(b) => JsonV::Bool(*b),
            Json::Number(n) => JsonV::Number(n@),
            Json::Str(s) => JsonV::Str(s@),
            Json::Array(a) => JsonV::Array(
                Seq::new(
                    a.len() as nat,
                    |i: int|
                        if 0 <= i < a.len() {
                            a@[i].view()
                        } else {
                            JsonV::Null
                        },
                ),
            ),
            Json::Object(m) => JsonV::Object(
                zip_members(
                    Seq::new(m.len() as nat, |i: int| m@[i].key@),
                    Seq::new(
                        m.len() as nat,
                        |i: int|
                            if 0 <= i < m.len() {
                                m@[i].value.view()
                            } else {
                                JsonV::Null
                            },
                    ),
                ),
            ),
        }
    }
}


/// The entries of an object, each value taken by its view.
pub type Obj = Seq<(Seq<char>, JsonV)>;

pub open spec fn obj_view(m: Seq<Member>) -> Obj {
    Seq::new(m.len(), |i: int| (m[i].key@, m[i].value@))
}

/// `i` is where key `k` first occurs in `m`.
pub open spec fn key_at(m: Obj, k: Seq<char>, i: int) -> bool {
    &&& 0 <= i < m.len()
    &&& m[i].0 == k
    &&& forall|j: int| 0 <= j < i ==> m[j].0 != k
}

pub open spec fn has_key(m: Obj, k: Seq<char>) -> bool {
    exists|i: int| key_at(m, k, i)
}

pub open spec fn key_index(m: Obj, k: Seq<char>) -> int {
    choose|i: int| key_at(m, k, i)
}

/// The value under key `k`.
pub open spec fn obj_get(m: Obj, k: Seq<char>) -> Option<JsonV> {
    if has_key(m, k) {
        Some(m[key_index(m, k)].1)
    } else {
        None
    }
}

/// `m` with key `k` set to `v`: in place when the key is there, appended
/// when it is not.
pub open spec fn obj_insert(m: Obj, k: Seq<char>, v: JsonV) -> Obj {
    if has_key(m, k) {
        m.update(key_index(m, k), (k, v))
    } else {
        m.push((k, v))
    }
}

/// `m` without key `k`.
pub open spec fn obj_remove(m: Obj, k: Seq<char>) -> Obj {
    if has_key(m, k) {
        m.remove(key_index(m, k))
    } else {
        m
    }
}

/// The first index of key `k` is unique.
pub proof fn lemma_key_at_unique(m: Obj, k: Seq<char>, i: int, j: int)
    requires
        key_at(m, k, i),
        key_at(m, k, j),
    ensures
        i == j,
{
    if i < j {
        assert(m[i].0 == k);
    } else if j < i {
        assert(m[j].0 == k);
    }
}

/// Where key `k` first occurs in `m`.
fn find_key(m: &Vec<Member>, k: &str) -> (r: Option<usize>)
    ensures
        match r {
            Some(i) => key_at(obj_view(m@), k@, i as int) && key_index(obj_view(m@), k@) == i,
            None => !has_key(obj_view(m@), k@),
        },
{
    let ghost mv = obj_view(m@);
    let key = String::from_str(k);
    let mut i: usize = 0;
    while i < m.len()
        invariant
            mv == obj_view(m@),
            key@ == k@,
            i <= m.len(),
            forall|j: int| 0 <= j < i ==> mv[j].0 != k@,
        decreases m.len() - i,
    {
        if m[i].key == key {
            proof {
                assert(key_at(mv, k@, i as int));
                lemma_key_at_unique(mv, k@, i as int, key_index(mv, k@));
            }
            return Some(i);
        }
        proof {
            assert(mv[i as int].0 == m@[i as int].key@);
        }
        i = i + 1;
    }
    proof {
        if has_key(mv, k@) {
            let w = choose|w: int| key_at(mv, k@, w);
            assert(mv[w].0 == k@);
        }
    }
    None
}

/// Sets key `k` of `m` to `v`.
fn obj_set(m: &mut Vec<Member>, k: &str, v: Json)
    ensures
        obj_view(final(m)@) == obj_insert(obj_view(old(m)@), k@, v@),
{
    let ghost mv = obj_view(m@);
    match find_key(m, k) {
        Some(i) => {
            m.set(i, Member { key: String::from_str(k), value: v });
            proof {
                assert(obj_view(m@) =~= mv.update(i as int, (k@, v@)));
            }
        },
        None => {
            m.push(Member { key: String::from_str(k), value: v });
            proof {
                assert(obj_view(m@) =~= mv.push((k@, v@)));
            }
        },
    }
}

/// Removes key `k` from `m`, handing back its value.
fn obj_take(m: &mut Vec<Member>, k: &str) -> (r: Option<Json>)
    ensures
        obj_view(final(m)@) == obj_remove(obj_view(old(m)@), k@),
        match r {
            Some(v) => obj_get(obj_view(old(m)@), k@) == Some(v@),
            None => obj_get(obj_view(old(m)@), k@) is None,
        },
{
    let ghost mv = obj_view(m@);
    match find_key(m, k) {
        Some(i) => {
            let e = m.remove(i);
            proof {
                assert(obj_view(m@) =~= mv.remove(i as int));
            }
            Some(e.value)
        },
        None => None,
    }
}

/// The text under `key` in `m`, trimmed, when it is a string that is not
/// blank.
pub open spec fn string_field(m: Obj, key: Seq<char>) -> Option<Seq<char>> {
    match obj_get(m, key) {
        Some(JsonV::Str(v)) => if trim(v).len() > 0 {
            Some(trim(v))
        } else {
            None
        },
        _ => None,
    }
}

/// The string under `key` in `m`, as it stands.
pub open spec fn str_value(m: Obj, key: Seq<char>) -> Option<Seq<char>> {
    match obj_get(m, key) {
        Some(JsonV::Str(v)) => Some(v),
        _ => None,
    }
}

fn string_field_exec(m: &Vec<Member>, key: &str) -> (r: Option<String>)
    ensures
        match r {
            Some(s) => string_field(obj_view(m@), key@) == Some(s@),
            None => string_field(obj_view(m@), key@) is None,
        },
{
    match find_key(m, key) {
        Some(i) => match &m[i].value {
            Json::Str(v) => {
                let t = trimmed(chars_of(v.as_str()).as_slice());
                if t.len() > 0 {
                    Some(string_of(t.as_slice()))
                } else {
                    None
                }
            },
            _ => None,
        },
        None => None,
    }
}

fn str_value_exec(m: &Vec<Member>, key: &str) -> (r: Option<String>)
    ensures
        match r {
            Some(s) => str_value(obj_view(m@), key@) == Some(s@),
            None => str_value(obj_view(m@), key@) is None,
        },
{
    match find_key(m, key) {
        Some(i) => match &m[i].value {
            Json::Str(v) => Some(v.clone()),
            _ => None,
        },
        None => None,
    }
}

// ---------------------------------------------------------------------------
// github.com URLs
// ---------------------------------------------------------------------------

/// `str::trim_start_matches` with the characters `:` and `/`.
pub open spec fn trim_lead_seps(s: Seq<char>) -> Seq<char> {
    s.subrange(pair_prefix_len(s, ':', '/') as int, s.len() as int)
}

/// `str::trim_end_matches(".git")`: every trailing `.git` dropped.
pub open spec fn trim_git(s: Seq<char>) -> Seq<char>
    decreases s.len(),
{
    if s.len() >= 4 && ends_with(s, ".git"@) {
        trim_git(s.subrange(0, s.len() - 4))
    } else {
        s
    }
}

/// The parts that are not empty, in order.
pub open spec fn nonempty_parts(ps: Seq<Seq<char>>) -> Seq<Seq<char>>
    decreases ps.len(),
{
    if ps.len() == 0 {
        Seq::empty()
    } else if ps.last().len() == 0 {
        nonempty_parts(ps.drop_last())
    } else {
        nonempty_parts(ps.drop_last()).push(ps.last())
    }
}

/// The owner and repository a github.com URL names: the first two non-empty
/// path segments after `github.com`, the second without `.git`.
pub open spec fn spec_parse_github_url(url: Seq<char>) -> Option<(Seq<char>, Seq<char>)> {
    match split_once(url, "github.com"@) {
        None => None,
        Some((_, rest)) => {
            let parts = nonempty_parts(split_on(trim_lead_seps(rest), '/'));
            if parts.len() < 2 {
                None
            } else {
                let owner = trim(parts[0]);
                let repo = trim_git(trim(parts[1]));
                if owner.len() == 0 || repo.len() == 0 {
                    None
                } else {
                    Some((owner, repo))
                }
            }
        },
    }
}

fn trim_lead_seps_exec(v: &[char]) -> (r: Vec<char>)
    ensures
        r@ == trim_lead_seps(v@),
{
    let n = v.len();
    let mut i: usize = 0;
    proof {
        assert(v@.subrange(0, n as int) =~= v@);
    }
    while i < n && (v[i] == ':' || v[i] == '/')
        invariant
            0 <= i <= n,
            n == v@.len(),
            pair_prefix_len(v@, ':', '/') == i + pair_prefix_len(v@.subrange(i as int, n as int), ':', '/'),
        decreases n - i,
    {
        proof {
            let t = v@.subrange(i as int, n as int);
            assert(t.subrange(1, t.len() as int) =~= v@.subrange(i + 1, n as int));
        }
        i = i + 1;
    }
    proof {
        let t = v@.subrange(i as int, n as int);
        if i < n {
            assert(t[0] == v@[i as int]);
        }
        assert(pair_prefix_len(t, ':', '/') == 0);
    }
    sub_vec(v, i, n)
}

fn trim_git_exec(v: &[char]) -> (r: Vec<char>)
    ensures
        r@ == trim_git(v@),
{
    let mut j: usize = v.len();
    proof {
        assert(v@.subrange(0, j as int) =~= v@);
    }
    while j >= 4 && v[j - 4] == '.' && v[j - 3] == 'g' && v[j - 2] == 'i' && v[j - 1] == 't'
        invariant
            j <= v@.len(),
            trim_git(v@) == trim_git(v@.subrange(0, j as int)),
        decreases j,
    {
        proof {
            reveal_strlit(".git");
            let t = v@.subrange(0, j as int);
            assert(t.subrange(t.len() - 4, t.len() as int) =~= ".git"@);
            assert(t.subrange(0, t.len() - 4) =~= v@.subrange(0, j - 4));
        }
        j = j - 4;
    }
    proof {
        reveal_strlit(".git");
        let t = v@.subrange(0, j as int);
        if j >= 4 && ends_with(t, ".git"@) {
            assert(t[j - 4] == t.subrange(t.len() - 4, t.len() as int)[0]);
            assert(t[j - 3] == t.subrange(t.len() - 4, t.len() as int)[1]);
            assert(t[j - 2] == t.subrange(t.len() - 4, t.len() as int)[2]);
            assert(t[j - 1] == t.subrange(t.len() - 4, t.len() as int)[3]);
        }
    }
    sub_vec(v, 0, j)
}

fn nonempty_parts_exec(ps: Vec<Vec<char>>) -> (r: Vec<Vec<char>>)
    ensures
        r.deep_view() == nonempty_parts(ps.deep_view()),
{
    let ghost pv = ps.deep_view();
    let mut out: Vec<Vec<char>> = Vec::new();
    let mut i: usize = 0;
    proof {
        assert(pv.subrange(0, 0) =~= Seq::<Seq<char>>::empty());
        assert(out.deep_view() =~= Seq::<Seq<char>>::empty());
    }
    while i < ps.len()
        invariant
            pv == ps.deep_view(),
            i <= ps.len(),
            out.deep_view() == nonempty_parts(pv.subrange(0, i as int)),
        decreases ps.len() - i,
    {
        let ghost prev = pv.subrange(0, i as int);
        let ghost next = pv.subrange(0, i + 1);
        let ghost ov = out.deep_view();
        proof {
            assert(next.drop_last() =~= prev);
            lemma_chars_deep_view(&ps@[i as int]);
        }
        if ps[i].len() > 0 {
            out.push(ps[i].clone());
            proof {
                assert(out.deep_view() =~= ov.push(pv[i as int]));
            }
        }
        i = i + 1;
    }
    proof {
        assert(pv.subrange(0, pv.len() as int) =~= pv);
    }
    out
}

/// The owner and repository a github.com URL names, if it names both.
pub fn parse_github_url(url: &str) -> (r: Option<(String, String)>)
    ensures
        match r {
            Some((o, p)) => spec_parse_github_url(url@) == Some((o@, p@)),
            None => spec_parse_github_url(url@) is None,
        },
{
    let v = chars_of(url);
    let rest = match split_once_str(v.as_slice(), "github.com") {
        Some((_, r)) => r,
        None => {
            return None;
        },
    };
    let t = trim_lead_seps_exec(rest.as_slice());
    let parts = nonempty_parts_exec(split_chars(t.as_slice(), '/'));
    if parts.len() < 2 {
        return None;
    }
    proof {
        lemma_chars_deep_view(&parts@[0]);
        lemma_chars_deep_view(&parts@[1]);
    }
    let owner = trimmed(parts[0].as_slice());
    let repo = trim_git_exec(trimmed(parts[1].as_slice()).as_slice());
    if owner.len() == 0 || repo.len() == 0 {
        return None;
    }
    Some((string_of(owner.as_slice()), string_of(repo.as_slice())))
}

// ---------------------------------------------------------------------------
// Views of nested values
// ---------------------------------------------------------------------------

pub open spec fn arr_view(a: Seq<Json>) -> Seq<JsonV> {
    Seq::new(a.len(), |i: int| a[i]@)
}

pub proof fn lemma_object_view(j: Json)
    requires
        j is Object,
    ensures
        j@ == JsonV::Object(obj_view(j->Object_0@)),
{
    let m = j->Object_0;
    if let JsonV::Object(s) = j@ {
        assert forall|i: int| 0 <= i < s.len() implies s[i] == obj_view(m@)[i] by {
            assert(s[i] == (m@[i].key@, m@[i].value@));
        }
        assert(s =~= obj_view(m@));
    }
}

pub proof fn lemma_array_view(j: Json)
    requires
        j is Array,
    ensures
        j@ == JsonV::Array(arr_view(j->Array_0@)),
{
    let a = j->Array_0;
    assert(j@->Array_0.len() == a@.len());
    if let JsonV::Array(s) = j@ {
        assert(s =~= arr_view(a@));
    }
}

pub fn object_of(m: Vec<Member>) -> (r: Json)
    ensures
        r@ == JsonV::Object(obj_view(m@)),
{
    let r = Json::Object(m);
    proof {
        lemma_object_view(r);
    }
    r
}

pub fn array_of(a: Vec<Json>) -> (r: Json)
    ensures
        r@ == JsonV::Array(arr_view(a@)),
{
    let r = Json::Array(a);
    proof {
        lemma_array_view(r);
    }
    r
}

// ---------------------------------------------------------------------------
// The nested layout, rewritten
// ---------------------------------------------------------------------------

pub open spec fn invalid(msg: Seq<char>) -> ErrorView {
    ErrorView::InvalidConfig(msg)
}

/// `[checksum] sha256 = ".."` (and `algorithm` or `hash_algorithm`) become
/// the top-level `sha256` and `hash_algorithm`, unless those are already
/// set; the table goes.
pub open spec fn norm_checksum(m: Obj) -> Obj {
    match obj_get(m, "checksum"@) {
        Some(JsonV::Object(t)) => {
            let m1 = match obj_get(t, "sha256"@) {
                Some(JsonV::Str(h)) => if has_key(m, "sha256"@) {
                    m
                } else {
                    obj_insert(m, "sha256"@, JsonV::Str(h))
                },
                _ => m,
            };
            let alg = match obj_get(t, "algorithm"@) {
                Some(a) => Some(a),
                None => obj_get(t, "hash_algorithm"@),
            };
            let m2 = match alg {
                Some(JsonV::Str(a)) => if has_key(m1, "hash_algorithm"@) {
                    m1
                } else {
                    obj_insert(m1, "hash_algorithm"@, JsonV::Str(a))
                },
                _ => m1,
            };
            obj_remove(m2, "checksum"@)
        },
        _ => m,
    }
}

fn normalize_checksum(map: &mut Vec<Member>)
    ensures
        obj_view(final(map)@) == norm_checksum(obj_view(old(map)@)),
{
    let ghost m = obj_view(map@);
    let i = match find_key(map, "checksum") {
        Some(i) => i,
        None => {
            return;
        },
    };
    let (sha, alg): (Option<String>, Option<String>) = match &map[i].value {
        Json::Object(t) => {
            proof {
                lemma_object_view(map@[i as int].value);
            }
            let alg = match find_key(t, "algorithm") {
                Some(j) => match &t[j].value {
                    Json::Str(a) => Some(a.clone()),
                    _ => None,
                },
                None => str_value_exec(t, "hash_algorithm"),
            };
            (str_value_exec(t, "sha256"), alg)
        },
        _ => {
            return;
        },
    };
    if find_key(map, "sha256").is_none() {
        match sha {
            Some(h) => obj_set(map, "sha256", Json::Str(h)),
            None => {},
        }
    }
    let ghost m1 = obj_view(map@);
    if find_key(map, "hash_algorithm").is_none() {
        match alg {
            Some(a) => obj_set(map, "hash_algorithm", Json::Str(a)),
            None => {},
        }
    }
    let _ = obj_take(map, "checksum");
}

/// `[architectures] supported = [..]` becomes the top-level list; a table
/// without such a list is dropped.
pub open spec fn norm_arch(m: Obj) -> Obj {
    match obj_get(m, "architectures"@) {
        Some(JsonV::Object(t)) => match obj_get(t, "supported"@) {
            Some(JsonV::Array(l)) => obj_insert(m, "architectures"@, JsonV::Array(l)),
            _ => obj_remove(m, "architectures"@),
        },
        _ => m,
    }
}

fn normalize_architectures(map: &mut Vec<Member>)
    ensures
        obj_view(final(map)@) == norm_arch(obj_view(old(map)@)),
{
    let ghost m = obj_view(map@);
    let i = match find_key(map, "architectures") {
        Some(i) => i,
        None => {
            return;
        },
    };
    let is_table = match &map[i].value {
        Json::Object(_) => true,
        _ => false,
    };
    if !is_table {
        return;
    }
    let e = map.remove(i);
    let k = e.key;
    let v = e.value;
    proof {
        assert(obj_view(map@) =~= m.remove(i as int));
        assert(m[i as int] == (k@, v@));
        lemma_object_view(v);
    }
    match v {
        Json::Object(t) => {
            let mut t = t;
            let taken = obj_take(&mut t, "supported");
            proof {
                if taken is Some && taken->Some_0 is Array {
                    lemma_array_view(taken->Some_0);
                }
            }
            match taken {
                Some(Json::Array(l)) => {
                    let list = array_of(l);
                    map.insert(i, Member { key: k, value: list });
                    proof {
                        assert(obj_view(map@) =~= m.update(i as int, ("architectures"@, list@)));
                    }
                },
                _ => {},
            }
        },
        _ => {},
    }
}

/// A `[dependencies]` entry as a line of the flat list: the name, then the
/// constraint when there is one that is not `*`.
pub open spec fn dep_entry(name: Seq<char>, c: JsonV) -> Result<JsonV, ErrorView> {
    let n = trim(name);
    if n.len() == 0 {
        Err(invalid("dependency name cannot be empty"@))
    } else {
        match c {
            JsonV::Str(s) => if trim(s).len() == 0 || trim(s) == "*"@ {
                Ok(JsonV::Str(n))
            } else {
                Ok(JsonV::Str(n + " "@ + trim(s)))
            },
            JsonV::Null => Ok(JsonV::Str(n)),
            _ => Err(invalid("dependency '"@ + n + "' must map to a version constraint string"@)),
        }
    }
}

/// The flat list for a table of entries; the first bad entry is the error.
pub open spec fn dep_entries(t: Obj) -> Result<Seq<JsonV>, ErrorView>
    decreases t.len(),
{
    if t.len() == 0 {
        Ok(Seq::empty())
    } else {
        match dep_entries(t.drop_last()) {
            Err(e) => Err(e),
            Ok(l) => match dep_entry(t.last().0, t.last().1) {
                Ok(x) => Ok(l.push(x)),
                Err(e) => Err(e),
            },
        }
    }
}

pub open spec fn norm_deps(m: Obj) -> Result<Obj, ErrorView> {
    match obj_get(m, "dependencies"@) {
        Some(JsonV::Object(t)) => match dep_entries(t) {
            Ok(l) => Ok(obj_insert(m, "dependencies"@, JsonV::Array(l))),
            Err(e) => Err(e),
        },
        _ => Ok(m),
    }
}

/// An error among the first entries is the error of the whole table.
pub proof fn lemma_dep_entries_err(t: Obj, i: int)
    requires
        0 <= i <= t.len(),
        dep_entries(t.subrange(0, i)) is Err,
    ensures
        dep_entries(t) == dep_entries(t.subrange(0, i)),
    decreases t.len() - i,
{
    if i < t.len() {
        let next = t.subrange(0, i + 1);
        assert(next.drop_last() =~= t.subrange(0, i));
        lemma_dep_entries_err(t, i + 1);
    } else {
        assert(t.subrange(0, i) =~= t);
    }
}

fn dep_entry_exec(name: &String, c: &Json) -> (r: Result<Json, BallError>)
    ensures
        match r {
            Ok(v) => dep_entry(name@, c@) == Ok::<JsonV, ErrorView>(v@),
            Err(e) => dep_entry(name@, c@) == Err::<JsonV, ErrorView>(e@),
        },
{
    let n = trim_str(name.as_str());
    if n.unicode_len() == 0 {
        return Err(BallError::InvalidConfig(String::from_str("dependency name cannot be empty")));
    }
    match c {
        Json::Str(s) => {
            let cs = trim_str(s.as_str());
            if cs.unicode_len() == 0 || eq_str(chars_of(cs.as_str()).as_slice(), "*") {
                Ok(Json::Str(n))
            } else {
                Ok(Json::Str(concat3(n.as_str(), " ", cs.as_str())))
            }
        },
        Json::Null => Ok(Json::Str(n)),
        _ => Err(
            BallError::InvalidConfig(
                concat3("dependency '", n.as_str(), "' must map to a version constraint string"),
            ),
        ),
    }
}

fn dep_list(t: &Vec<Member>) -> (r: Result<Vec<Json>, BallError>)
    ensures
        match r {
            Ok(l) => dep_entries(obj_view(t@)) == Ok::<Seq<JsonV>, ErrorView>(arr_view(l@)),
            Err(e) => dep_entries(obj_view(t@)) == Err::<Seq<JsonV>, ErrorView>(e@),
        },
{
    let ghost tv = obj_view(t@);
    let mut out: Vec<Json> = Vec::new();
    let mut i: usize = 0;
    proof {
        assert(tv.subrange(0, 0) =~= Seq::<(Seq<char>, JsonV)>::empty());
        assert(arr_view(out@) =~= Seq::<JsonV>::empty());
    }
    while i < t.len()
        invariant
            tv == obj_view(t@),
            i <= t.len(),
            dep_entries(tv.subrange(0, i as int)) == Ok::<Seq<JsonV>, ErrorView>(arr_view(out@)),
        decreases t.len() - i,
    {
        let ghost prev = tv.subrange(0, i as int);
        let ghost next = tv.subrange(0, i + 1);
        let ghost ov = arr_view(out@);
        proof {
            assert(next.drop_last() =~= prev);
            assert(next.last() == (t@[i as int].key@, t@[i as int].value@));
        }
        match dep_entry_exec(&t[i].key, &t[i].value) {
            Ok(x) => {
                out.push(x);
                proof {
                    assert(arr_view(out@) =~= ov.push(out@.last()@));
                }
            },
            Err(e) => {
                proof {
                    lemma_dep_entries_err(tv, i + 1);
                }
                return Err(e);
            },
        }
        i = i + 1;
    }
    proof {
        assert(tv.subrange(0, t.len() as int) =~= tv);
    }
    Ok(out)
}

fn normalize_dependencies(map: &mut Vec<Member>) -> (r: Result<(), BallError>)
    ensures
        match r {
            Ok(()) => norm_deps(obj_view(old(map)@)) == Ok::<Obj, ErrorView>(obj_view(final(map)@)),
            Err(e) => norm_deps(obj_view(old(map)@)) == Err::<Obj, ErrorView>(e@),
        },
{
    let i = match find_key(map, "dependencies") {
        Some(i) => i,
        None => {
            return Ok(());
        },
    };
    let list = match &map[i].value {
        Json::Object(t) => {
            proof {
                lemma_object_view(map@[i as int].value);
            }
            dep_list(t)
        },
        _ => {
            return Ok(());
        },
    };
    match list {
        Ok(l) => {
            let v = array_of(l);
            obj_set(map, "dependencies", v);
            Ok(())
        },
        Err(e) => Err(e),
    }
}

// ---------------------------------------------------------------------------
// [source]
// ---------------------------------------------------------------------------

/// The feed a chocolatey source uses when the manifest names none.
pub const DEFAULT_CHOCOLATEY_FEED: &'static str = "https://community.chocolatey.org/api/v2";

/// `{ tag: { field: v } }`: a source in its tagged form.
pub open spec fn tagged(tag: Seq<char>, field: Seq<char>, v: Seq<char>) -> JsonV {
    JsonV::Object(seq![(tag, JsonV::Object(seq![(field, JsonV::Str(v))]))])
}

/// The first of the candidates that is there.
pub open spec fn first_some(a: Option<Seq<char>>, b: Option<Seq<char>>) -> Option<Seq<char>> {
    match a {
        Some(x) => Some(x),
        None => b,
    }
}

/// The owner and repository of a github source: its own `owner`/`repo`,
/// then those a github.com URL names (the source's `url`, else the
/// manifest's `repository`), then the package name for the repository.
pub open spec fn spec_github_owner_repo(src: Obj, root: Obj) -> Result<(Seq<char>, Seq<char>), ErrorView> {
    let owner0 = string_field(src, "owner"@);
    let repo0 = string_field(src, "repo"@);
    let from_url = if owner0 is None || repo0 is None {
        match first_some(string_field(src, "url"@), string_field(root, "repository"@)) {
            Some(u) => spec_parse_github_url(u),
            None => None,
        }
    } else {
        None
    };
    let owner1 = match from_url {
        Some((o, _)) => first_some(owner0, Some(o)),
        None => owner0,
    };
    let repo1 = match from_url {
        Some((_, r)) => first_some(repo0, Some(r)),
        None => repo0,
    };
    let repo2 = if repo1 is None {
        string_field(root, "name"@)
    } else {
        repo1
    };
    match (owner1, repo2) {
        (Some(o), Some(r)) => Ok((o, r)),
        _ => Err(invalid("github source requires 'owner' and 'repo' (or a github.com repository URL)"@)),
    }
}

/// The tagged source for a `[source]` table whose type (trimmed and
/// lowercased) is `ty`; `root` is the whole manifest.
pub open spec fn spec_source_for_type(ty: Seq<char>, src: Obj, root: Obj) -> Result<JsonV, ErrorView> {
    if ty == "github"@ {
        match spec_github_owner_repo(src, root) {
            Ok((o, r)) => Ok(
                JsonV::Object(
                    seq![("GitHub"@, JsonV::Object(seq![("owner"@, JsonV::Str(o)), ("repo"@, JsonV::Str(r))]))],
                ),
            ),
            Err(e) => Err(e),
        }
    } else if ty == "baller"@ || ty == "baller-registry"@ || ty == "registry"@ {
        match string_field(src, "url"@) {
            Some(u) => Ok(tagged("BallerRegistry"@, "url"@, u)),
            None => Err(invalid("baller registry source requires a 'url' field"@)),
        }
    } else if ty == "chocolatey"@ || ty == "choco"@ {
        Ok(
            tagged(
                "Chocolatey"@,
                "feed_url"@,
                match first_some(string_field(src, "feed_url"@), string_field(src, "url"@)) {
                    Some(f) => f,
                    None => DEFAULT_CHOCOLATEY_FEED@,
                },
            ),
        )
    } else if ty == "system"@ {
        match string_field(src, "manager"@) {
            Some(m) => Ok(tagged("System"@, "manager"@, m)),
            None => Err(invalid("system source requires a 'manager' field (apt, dnf, or pacman)"@)),
        }
    } else if ty == "cargo"@ || ty == "crate"@ {
        match first_some(
            first_some(string_field(src, "crate_name"@), string_field(src, "name"@)),
            str_value(root, "name"@),
        ) {
            Some(c) => Ok(tagged("Cargo"@, "crate_name"@, c)),
            None => Err(invalid("cargo source requires a 'crate_name' field"@)),
        }
    } else {
        Err(invalid("unknown source type '"@ + ty + "': expected github, baller, chocolatey, system, or cargo"@))
    }
}

/// `[source] type = ".."` rewritten into the tagged form; a `source` that is
/// a table without `type` is already in that form.
/// An ASCII text lies within ASCII after trimming.
proof fn lemma_trim_ascii(t: Seq<char>)
    requires
        is_ascii_text(t),
    ensures
        is_ascii_text(trim(t)),
        spec_to_lowercase(trim(t)) == ascii_lower(trim(t)),
{
    lemma_trim_ends(t);
    assert forall|j: int| 0 <= j < trim(t).len() implies (#[trigger] trim(t)[j] as u32) < 128 by {
        let i = choose|i: int| 0 <= i < t.len() && trim(t)[j] == t[i];
    }
}

/// Source kinds are matched without regard to case or surrounding
/// whitespace: two ASCII `type` texts that are equal once trimmed and
/// lowercased (`GitHub`, ` github `, `GITHUB`) give the same source.
pub proof fn law_source_type_case_insensitive(t1: Seq<char>, t2: Seq<char>, src: Obj, root: Obj)
    requires
        is_ascii_text(t1),
        is_ascii_text(t2),
        ascii_lower(trim(t1)) == ascii_lower(trim(t2)),
    ensures
        spec_source_for_type(spec_to_lowercase(trim(t1)), src, root) == spec_source_for_type(
            spec_to_lowercase(trim(t2)),
            src,
            root,
        ),
{
    lemma_trim_ascii(t1);
    lemma_trim_ascii(t2);
}

pub open spec fn norm_source(m: Obj) -> Result<Obj, ErrorView> {
    match obj_get(m, "source"@) {
        None => Ok(m),
        Some(JsonV::Object(src)) => match obj_get(src, "type"@) {
            None => Ok(m),
            Some(JsonV::Str(t)) => match spec_source_for_type(spec_to_lowercase(trim(t)), src, m) {
                Ok(v) => Ok(obj_insert(m, "source"@, v)),
                Err(e) => Err(e),
            },
            Some(_) => Err(invalid("source 'type' must be a string"@)),
        },
        Some(_) => Err(invalid("manifest 'source' must be a table"@)),
    }
}

fn github_owner_repo(src: &Vec<Member>, root: &Vec<Member>) -> (r: Result<(String, String), BallError>)
    ensures
        match r {
            Ok((o, p)) => spec_github_owner_repo(obj_view(src@), obj_view(root@)) == Ok::<
                (Seq<char>, Seq<char>),
                ErrorView,
            >((o@, p@)),
            Err(e) => spec_github_owner_repo(obj_view(src@), obj_view(root@)) == Err::<
                (Seq<char>, Seq<char>),
                ErrorView,
            >(e@),
        },
{
    let mut owner = string_field_exec(src, "owner");
    let mut repo = string_field_exec(src, "repo");
    if owner.is_none() || repo.is_none() {
        let url = match string_field_exec(src, "url") {
            Some(u) => Some(u),
            None => string_field_exec(root, "repository"),
        };
        match url {
            Some(u) => match parse_github_url(u.as_str()) {
                Some((uo, ur)) => {
                    if owner.is_none() {
                        owner = Some(uo);
                    }
                    if repo.is_none() {
                        repo = Some(ur);
                    }
                },
                None => {},
            },
            None => {},
        }
    }
    if repo.is_none() {
        repo = string_field_exec(root, "name");
    }
    match (owner, repo) {
        (Some(o), Some(p)) => Ok((o, p)),
        _ => Err(
            BallError::InvalidConfig(
                String::from_str("github source requires 'owner' and 'repo' (or a github.com repository URL)"),
            ),
        ),
    }
}

fn tagged_exec(tag: &str, field: &str, v: String) -> (r: Json)
    ensures
        r@ == tagged(tag@, field@, v@),
{
    let mut inner: Vec<Member> = Vec::new();
    inner.push(Member { key: String::from_str(field), value: Json::Str(v) });
    let inner_obj = object_of(inner);
    let mut outer: Vec<Member> = Vec::new();
    outer.push(Member { key: String::from_str(tag), value: inner_obj });
    let r = object_of(outer);
    proof {
        assert(obj_view(inner@) =~= seq![(field@, JsonV::Str(v@))]);
        assert(obj_view(outer@) =~= seq![(tag@, inner_obj@)]);
    }
    r
}

/// The tagged source for a `[source]` table whose type, trimmed and
/// lowercased, is `ty`; `root` is the whole manifest.
pub fn source_for_type(ty: &str, src: &Vec<Member>, root: &Vec<Member>) -> (r: Result<Json, BallError>)
    ensures
        match r {
            Ok(v) => spec_source_for_type(ty@, obj_view(src@), obj_view(root@)) == Ok::<JsonV, ErrorView>(v@),
            Err(e) => spec_source_for_type(ty@, obj_view(src@), obj_view(root@)) == Err::<JsonV, ErrorView>(e@),
        },
{
    let t = chars_of(ty);
    if eq_str(t.as_slice(), "github") {
        match github_owner_repo(src, root) {
            Ok((o, p)) => {
                let mut inner: Vec<Member> = Vec::new();
                inner.push(Member { key: String::from_str("owner"), value: Json::Str(o) });
                inner.push(Member { key: String::from_str("repo"), value: Json::Str(p) });
                let inner_obj = object_of(inner);
                let mut outer: Vec<Member> = Vec::new();
                outer.push(Member { key: String::from_str("GitHub"), value: inner_obj });
                let r = object_of(outer);
                proof {
                    assert(obj_view(inner@) =~= seq![("owner"@, JsonV::Str(o@)), ("repo"@, JsonV::Str(p@))]);
                    assert(obj_view(outer@) =~= seq![("GitHub"@, inner_obj@)]);
                }
                Ok(r)
            },
            Err(e) => Err(e),
        }
    } else if eq_str(t.as_slice(), "baller") || eq_str(t.as_slice(), "baller-registry") || eq_str(
        t.as_slice(),
        "registry",
    ) {
        match string_field_exec(src, "url") {
            Some(u) => Ok(tagged_exec("BallerRegistry", "url", u)),
            None => Err(BallError::InvalidConfig(String::from_str("baller registry source requires a 'url' field"))),
        }
    } else if eq_str(t.as_slice(), "chocolatey") || eq_str(t.as_slice(), "choco") {
        let feed = match string_field_exec(src, "feed_url") {
            Some(f) => f,
            None => match string_field_exec(src, "url") {
                Some(u) => u,
                None => String::from_str(DEFAULT_CHOCOLATEY_FEED),
            },
        };
        Ok(tagged_exec("Chocolatey", "feed_url", feed))
    } else if eq_str(t.as_slice(), "system") {
        match string_field_exec(src, "manager") {
            Some(m) => Ok(tagged_exec("System", "manager", m)),
            None => Err(
                BallError::InvalidConfig(
                    String::from_str("system source requires a 'manager' field (apt, dnf, or pacman)"),
                ),
            ),
        }
    } else if eq_str(t.as_slice(), "cargo") || eq_str(t.as_slice(), "crate") {
        let name = match string_field_exec(src, "crate_name") {
            Some(c) => Some(c),
            None => match string_field_exec(src, "name") {
                Some(c) => Some(c),
                None => str_value_exec(root, "name"),
            },
        };
        match name {
            Some(c) => Ok(tagged_exec("Cargo", "crate_name", c)),
            None => Err(BallError::InvalidConfig(String::from_str("cargo source requires a 'crate_name' field"))),
        }
    } else {
        Err(
            BallError::InvalidConfig(
                concat3("unknown source type '", ty, "': expected github, baller, chocolatey, system, or cargo"),
            ),
        )
    }
}

fn normalize_source(map: &mut Vec<Member>) -> (r: Result<(), BallError>)
    ensures
        match r {
            Ok(()) => norm_source(obj_view(old(map)@)) == Ok::<Obj, ErrorView>(obj_view(final(map)@)),
            Err(e) => norm_source(obj_view(old(map)@)) == Err::<Obj, ErrorView>(e@),
        },
{
    let i = match find_key(map, "source") {
        Some(i) => i,
        None => {
            return Ok(());
        },
    };
    let outcome: Option<Result<Json, BallError>> = match &map[i].value {
        Json::Object(src) => {
            proof {
                lemma_object_view(map@[i as int].value);
            }
            match find_key(src, "type") {
                None => None,
                Some(j) => match &src[j].value {
                    Json::Str(t) => {
                        let ty = to_lowercase(trim_str(t.as_str()).as_str());
                        Some(source_for_type(ty.as_str(), src, map))
                    },
                    _ => Some(Err(BallError::InvalidConfig(String::from_str("source 'type' must be a string")))),
                },
            }
        },
        _ => Some(Err(BallError::InvalidConfig(String::from_str("manifest 'source' must be a table")))),
    };
    match outcome {
        None => Ok(()),
        Some(Ok(v)) => {
            obj_set(map, "source", v);
            Ok(())
        },
        Some(Err(e)) => Err(e),
    }
}

// ---------------------------------------------------------------------------
// The whole manifest
// ---------------------------------------------------------------------------

/// A decoded manifest in the flat shape: checksum, architectures,
/// dependencies and source rewritten in that order; a manifest that is not
/// a table is refused.
pub open spec fn spec_normalize_manifest(v: JsonV) -> Result<JsonV, ErrorView> {
    match v {
        JsonV::Object(m) => match norm_deps(norm_arch(norm_checksum(m))) {
            Err(e) => Err(e),
            Ok(m3) => match norm_source(m3) {
                Err(e) => Err(e),
                Ok(m4) => Ok(JsonV::Object(m4)),
            },
        },
        _ => Err(invalid("manifest must be a table of key/value pairs"@)),
    }
}

/// Rewrites the documented nested layout into the flat shape; a manifest
/// already written flat passes through untouched.
pub fn normalize_manifest(value: Json) -> (r: Result<Json, BallError>)
    ensures
        match r {
            Ok(v) => spec_normalize_manifest(value@) == Ok::<JsonV, ErrorView>(v@),
            Err(e) => spec_normalize_manifest(value@) == Err::<JsonV, ErrorView>(e@),
        },
{
    proof {
        if value is Object {
            lemma_object_view(value);
        }
    }
    let mut map = match value {
        Json::Object(map) => map,
        _ => {
            return Err(BallError::InvalidConfig(String::from_str("manifest must be a table of key/value pairs")));
        },
    };
    normalize_checksum(&mut map);
    normalize_architectures(&mut map);
    match normalize_dependencies(&mut map) {
        Ok(()) => {},
        Err(e) => {
            return Err(e);
        },
    }
    match normalize_source(&mut map) {
        Ok(()) => {},
        Err(e) => {
            return Err(e);
        },
    }
    Ok(object_of(map))
}

// ---------------------------------------------------------------------------
// The parser's own checks and choices
// ---------------------------------------------------------------------------

/// Reads and checks package manifests.
pub struct ManifestParser;

/// The two manifest formats.
#[derive(Debug, Clone, Copy, PartialEq, Eq, Structural)]
pub enum ManifestFormat {
    Toml,
    Json,
}

impl ManifestParser {
    /// The format a manifest file is read as: by its extension, TOML when
    /// the extension is neither.
    pub fn format_for_path(path: &str) -> (r: ManifestFormat)
        ensures
            r == (if ends_with(path@, ".json"@) && !ends_with(path@, ".toml"@) {
                ManifestFormat::Json
            } else {
                ManifestFormat::Toml
            }),
    {
        let v = chars_of(path);
        if ends_with_str(v.as_slice(), ".toml") {
            ManifestFormat::Toml
        } else if ends_with_str(v.as_slice(), ".json") {
            ManifestFormat::Json
        } else {
            ManifestFormat::Toml
        }
    }

    /// Name and version are required.
    pub fn validate(package: &Package) -> (r: Result<(), BallError>)
        ensures
            package.name@.len() == 0 ==> (r matches Err(e) && e@ == ErrorView::InvalidConfig(
                "Package name is required"@,
            )),
            package.name@.len() > 0 && package.version@.len() == 0 ==> (r matches Err(e) && e@
                == ErrorView::InvalidConfig("Package version is required"@)),
            r is Ok <==> package.name@.len() > 0 && package.version@.len() > 0,
    {
        if package.name.unicode_len() == 0 {
            return Err(BallError::InvalidConfig(String::from_str("Package name is required")));
        }
        if package.version.unicode_len() == 0 {
            return Err(BallError::InvalidConfig(String::from_str("Package version is required")));
        }
        Ok(())
    }

    /// The output format named by `lowered`, the requested format already
    /// lowercased; `format` as requested goes into the error.
    pub fn serialize_format_lowered(lowered: &str, format: &str) -> (r: Result<ManifestFormat, BallError>)
        ensures
            lowered@ == "json"@ ==> r == Ok::<ManifestFormat, BallError>(ManifestFormat::Json),
            lowered@ == "toml"@ ==> r == Ok::<ManifestFormat, BallError>(ManifestFormat::Toml),
            lowered@ != "json"@ && lowered@ != "toml"@ ==> (r matches Err(e) && e@ == ErrorView::InvalidConfig(
                "Unsupported format: "@ + format@,
            )),
    {
        let l = chars_of(lowered);
        proof {
            reveal_strlit("json");
            reveal_strlit("toml");
            assert("toml"@[0] != "json"@[0]);
        }
        if eq_str(l.as_slice(), "json") {
            Ok(ManifestFormat::Json)
        } else if eq_str(l.as_slice(), "toml") {
            Ok(ManifestFormat::Toml)
        } else {
            Err(BallError::InvalidConfig(concat("Unsupported format: ", format)))
        }
    }

    /// The output format a serialisation request names, case aside.
    pub fn serialize_format(format: &str) -> (r: Result<ManifestFormat, BallError>)
        ensures
            spec_to_lowercase(format@) == "json"@ ==> r == Ok::<ManifestFormat, BallError>(ManifestFormat::Json),
            spec_to_lowercase(format@) == "toml"@ ==> r == Ok::<ManifestFormat, BallError>(ManifestFormat::Toml),
            spec_to_lowercase(format@) != "json"@ && spec_to_lowercase(format@) != "toml"@ ==> (r matches Err(e)
                && e@ == ErrorView::InvalidConfig("Unsupported format: "@ + format@)),
    {
        let lowered = to_lowercase(format);
        Self::serialize_format_lowered(lowered.as_str(), format)
    }

    /// What a failed read of `path` becomes: a missing or unreadable file is
    /// reported as such, any other error stays.
    pub fn read_error(e: BallError, path: &str) -> (r: BallError)
        ensures
            e is FileIoErr ==> r@ == ErrorView::InvalidConfig("Manifest file not found: "@ + path@),
            !(e is FileIoErr) ==> r == e,
    {
        match e {
            BallError::FileIoErr(_) => BallError::InvalidConfig(concat("Manifest file not found: ", path)),
            other => other,
        }
    }
}

// ---------------------------------------------------------------------------
// Laws
// ---------------------------------------------------------------------------

/// No key occurs twice (what a decoder's map gives).
pub open spec fn keys_distinct(m: Obj) -> bool {
    forall|i: int, j: int| 0 <= i < j < m.len() ==> m[i].0 != m[j].0
}

pub open spec fn is_table(v: Option<JsonV>) -> bool {
    match v {
        Some(JsonV::Object(_)) => true,
        _ => false,
    }
}

/// The flat layout: no `checksum`, `architectures` or `dependencies` table,
/// and a `source` that is absent or a table without `type`.
pub open spec fn is_flat(m: Obj) -> bool {
    &&& !is_table(obj_get(m, "checksum"@))
    &&& !is_table(obj_get(m, "architectures"@))
    &&& !is_table(obj_get(m, "dependencies"@))
    &&& match obj_get(m, "source"@) {
        None => true,
        Some(JsonV::Object(src)) => obj_get(src, "type"@) is None,
        Some(_) => false,
    }
}

/// A key that occurs has a first occurrence.
pub proof fn lemma_occurs_has_key(m: Obj, k: Seq<char>, j: int)
    requires
        0 <= j < m.len(),
        m[j].0 == k,
    ensures
        has_key(m, k),
    decreases j,
{
    if exists|i: int| 0 <= i < j && m[i].0 == k {
        let i = choose|i: int| 0 <= i < j && m[i].0 == k;
        lemma_occurs_has_key(m, k, i);
    } else {
        assert(key_at(m, k, j));
    }
}

proof fn lemma_get_at(m: Obj, k: Seq<char>, i: int)
    requires
        key_at(m, k, i),
    ensures
        obj_get(m, k) == Some(m[i].1),
{
    lemma_key_at_unique(m, k, i, key_index(m, k));
}

/// What `obj_insert` does to a lookup.
pub proof fn lemma_get_insert(m: Obj, k: Seq<char>, v: JsonV, k2: Seq<char>)
    ensures
        obj_get(obj_insert(m, k, v), k2) == if k2 == k {
            Some(v)
        } else {
            obj_get(m, k2)
        },
{
    let n = obj_insert(m, k, v);
    if has_key(m, k) {
        let x = key_index(m, k);
        assert(key_at(m, k, x));
        if k2 == k {
            assert(key_at(n, k, x));
            lemma_get_at(n, k, x);
        } else {
            if has_key(m, k2) {
                let y = key_index(m, k2);
                assert(key_at(m, k2, y));
                assert(key_at(n, k2, y));
                lemma_get_at(n, k2, y);
            } else if has_key(n, k2) {
                let y = key_index(n, k2);
                assert(key_at(n, k2, y));
                if y < m.len() {
                    lemma_occurs_has_key(m, k2, y);
                }
            }
        }
    } else {
        if k2 == k {
            assert forall|j: int| 0 <= j < m.len() implies m[j].0 != k by {
                if m[j].0 == k {
                    lemma_occurs_has_key(m, k, j);
                }
            }
            assert(key_at(n, k, m.len() as int));
            lemma_get_at(n, k, m.len() as int);
        } else {
            if has_key(m, k2) {
                let y = key_index(m, k2);
                assert(key_at(m, k2, y));
                assert(key_at(n, k2, y));
                lemma_get_at(n, k2, y);
            } else if has_key(n, k2) {
                let y = key_index(n, k2);
                assert(key_at(n, k2, y));
                if y < m.len() {
                    lemma_occurs_has_key(m, k2, y);
                }
            }
        }
    }
}

/// What `obj_remove` does to a lookup of another key, and, when no key
/// occurs twice, to a lookup of the removed one.
pub proof fn lemma_get_remove(m: Obj, k: Seq<char>, k2: Seq<char>)
    ensures
        k2 != k ==> obj_get(obj_remove(m, k), k2) == obj_get(m, k2),
        keys_distinct(m) ==> obj_get(obj_remove(m, k), k) is None,
        keys_distinct(m) ==> keys_distinct(obj_remove(m, k)),
{
    let n = obj_remove(m, k);
    if has_key(m, k) {
        let x = key_index(m, k);
        assert(key_at(m, k, x));
        assert(n == m.remove(x));
        if k2 != k {
            if has_key(m, k2) {
                let y = key_index(m, k2);
                assert(key_at(m, k2, y));
                if y < x {
                    assert(key_at(n, k2, y));
                    lemma_get_at(n, k2, y);
                } else {
                    assert(y != x);
                    assert(key_at(n, k2, y - 1));
                    lemma_get_at(n, k2, y - 1);
                }
            } else if has_key(n, k2) {
                let y = key_index(n, k2);
                assert(key_at(n, k2, y));
                if y < x {
                    lemma_occurs_has_key(m, k2, y);
                } else {
                    assert(m[y + 1].0 == k2);
                    lemma_occurs_has_key(m, k2, y + 1);
                }
            }
        }
        if keys_distinct(m) {
            if has_key(n, k) {
                let y = key_index(n, k);
                assert(key_at(n, k, y));
                if y < x {
                    assert(m[y].0 == k);
                } else {
                    assert(m[y + 1].0 == k);
                }
            }
            assert forall|i: int, j: int| 0 <= i < j < n.len() implies n[i].0 != n[j].0 by {
                let a = if i < x { i } else { i + 1 };
                let b = if j < x { j } else { j + 1 };
                assert(n[i] == m[a]);
                assert(n[j] == m[b]);
            }
        }
    } else {
        if keys_distinct(m) && has_key(n, k) {
            assert(key_at(m, k, key_index(n, k)));
        }
    }
}

/// Setting a key keeps the keys distinct.
pub proof fn lemma_insert_distinct(m: Obj, k: Seq<char>, v: JsonV)
    requires
        keys_distinct(m),
    ensures
        keys_distinct(obj_insert(m, k, v)),
{
    let n = obj_insert(m, k, v);
    if has_key(m, k) {
        let x = key_index(m, k);
        assert(key_at(m, k, x));
        assert forall|i: int, j: int| 0 <= i < j < n.len() implies n[i].0 != n[j].0 by {
            assert(n[i].0 == m[i].0);
            assert(n[j].0 == m[j].0);
        }
    } else {
        assert forall|i: int, j: int| 0 <= i < j < n.len() implies n[i].0 != n[j].0 by {
            if j == m.len() {
                if m[i].0 == k {
                    lemma_occurs_has_key(m, k, i);
                }
            }
        }
    }
}

/// A manifest already written in the flat layout passes through untouched.
pub proof fn law_flat_manifest_is_untouched(m: Obj)
    requires
        is_flat(m),
    ensures
        spec_normalize_manifest(JsonV::Object(m)) == Ok::<JsonV, ErrorView>(JsonV::Object(m)),
{
}

/// The rewritten manifest is in the flat layout.
pub proof fn lemma_normalized_is_flat(m: Obj)
    requires
        keys_distinct(m),
        spec_normalize_manifest(JsonV::Object(m)) is Ok,
    ensures
        spec_normalize_manifest(JsonV::Object(m)) matches Ok(JsonV::Object(r)) && is_flat(r) && keys_distinct(r),
{
    let c = "checksum"@;
    let a = "architectures"@;
    let d = "dependencies"@;
    let s = "source"@;
    reveal_strlit("checksum");
    reveal_strlit("architectures");
    reveal_strlit("dependencies");
    reveal_strlit("source");
    reveal_strlit("sha256");
    reveal_strlit("hash_algorithm");
    // checksum
    let m1 = norm_checksum(m);
    if is_table(obj_get(m, c)) {
        let t = obj_get(m, c)->Some_0->Object_0;
        let ma = match obj_get(t, "sha256"@) {
            Some(JsonV::Str(h)) => if has_key(m, "sha256"@) {
                m
            } else {
                obj_insert(m, "sha256"@, JsonV::Str(h))
            },
            _ => m,
        };
        let alg = match obj_get(t, "algorithm"@) {
            Some(x) => Some(x),
            None => obj_get(t, "hash_algorithm"@),
        };
        let mb = match alg {
            Some(JsonV::Str(x)) => if has_key(ma, "hash_algorithm"@) {
                ma
            } else {
                obj_insert(ma, "hash_algorithm"@, JsonV::Str(x))
            },
            _ => ma,
        };
        if let Some(JsonV::Str(h)) = obj_get(t, "sha256"@) {
            if !has_key(m, "sha256"@) {
                lemma_insert_distinct(m, "sha256"@, JsonV::Str(h));
                lemma_get_insert(m, "sha256"@, JsonV::Str(h), c);
                lemma_get_insert(m, "sha256"@, JsonV::Str(h), a);
                lemma_get_insert(m, "sha256"@, JsonV::Str(h), d);
                lemma_get_insert(m, "sha256"@, JsonV::Str(h), s);
            }
        }
        if let Some(JsonV::Str(x)) = alg {
            if !has_key(ma, "hash_algorithm"@) {
                lemma_insert_distinct(ma, "hash_algorithm"@, JsonV::Str(x));
                lemma_get_insert(ma, "hash_algorithm"@, JsonV::Str(x), c);
                lemma_get_insert(ma, "hash_algorithm"@, JsonV::Str(x), a);
                lemma_get_insert(ma, "hash_algorithm"@, JsonV::Str(x), d);
                lemma_get_insert(ma, "hash_algorithm"@, JsonV::Str(x), s);
            }
        }
        assert(m1 == obj_remove(mb, c));
        lemma_get_remove(mb, c, c);
        lemma_get_remove(mb, c, a);
        lemma_get_remove(mb, c, d);
        lemma_get_remove(mb, c, s);
    }
    assert(keys_distinct(m1));
    assert(!is_table(obj_get(m1, c)));
    // architectures
    let m2 = norm_arch(m1);
    if is_table(obj_get(m1, a)) {
        let t = obj_get(m1, a)->Some_0->Object_0;
        match obj_get(t, "supported"@) {
            Some(JsonV::Array(l)) => {
                lemma_insert_distinct(m1, a, JsonV::Array(l));
                lemma_get_insert(m1, a, JsonV::Array(l), c);
                lemma_get_insert(m1, a, JsonV::Array(l), a);
                lemma_get_insert(m1, a, JsonV::Array(l), d);
                lemma_get_insert(m1, a, JsonV::Array(l), s);
            },
            _ => {
                lemma_get_remove(m1, a, c);
                lemma_get_remove(m1, a, a);
                lemma_get_remove(m1, a, d);
                lemma_get_remove(m1, a, s);
            },
        }
    }
    assert(keys_distinct(m2));
    assert(!is_table(obj_get(m2, c)));
    assert(!is_table(obj_get(m2, a)));
    // dependencies
    let m3 = norm_deps(m2)->Ok_0;
    if is_table(obj_get(m2, d)) {
        let t = obj_get(m2, d)->Some_0->Object_0;
        let l = dep_entries(t)->Ok_0;
        lemma_insert_distinct(m2, d, JsonV::Array(l));
        lemma_get_insert(m2, d, JsonV::Array(l), c);
        lemma_get_insert(m2, d, JsonV::Array(l), a);
        lemma_get_insert(m2, d, JsonV::Array(l), d);
        lemma_get_insert(m2, d, JsonV::Array(l), s);
    }
    assert(keys_distinct(m3));
    assert(!is_table(obj_get(m3, c)));
    assert(!is_table(obj_get(m3, a)));
    assert(!is_table(obj_get(m3, d)));
    // source
    let m4 = norm_source(m3)->Ok_0;
    match obj_get(m3, s) {
        Some(JsonV::Object(src)) => match obj_get(src, "type"@) {
            Some(JsonV::Str(ty)) => {
                let v = spec_source_for_type(spec_to_lowercase(trim(ty)), src, m3)->Ok_0;
                lemma_insert_distinct(m3, s, v);
                lemma_get_insert(m3, s, v, c);
                lemma_get_insert(m3, s, v, a);
                lemma_get_insert(m3, s, v, d);
                lemma_get_insert(m3, s, v, s);
                lemma_tagged_has_no_type(spec_to_lowercase(trim(ty)), src, m3);
            },
            _ => {},
        },
        _ => {},
    }
}

/// A rewritten source is a table with no `type`.
proof fn lemma_tagged_has_no_type(ty: Seq<char>, src: Obj, root: Obj)
    requires
        spec_source_for_type(ty, src, root) is Ok,
    ensures
        spec_source_for_type(ty, src, root) matches Ok(JsonV::Object(t)) && obj_get(t, "type"@) is None,
{
    reveal_strlit("type");
    reveal_strlit("GitHub");
    reveal_strlit("BallerRegistry");
    reveal_strlit("Chocolatey");
    reveal_strlit("System");
    reveal_strlit("Cargo");
    let v = spec_source_for_type(ty, src, root)->Ok_0;
    let t = v->Object_0;
    assert(t.len() == 1);
    assert(t[0].0 == "GitHub"@ || t[0].0 == "BallerRegistry"@ || t[0].0 == "Chocolatey"@ || t[0].0 == "System"@
        || t[0].0 == "Cargo"@);
    assert(t[0].0.len() != 4);
    assert(t[0].0 != "type"@);
    if has_key(t, "type"@) {
        assert(key_at(t, "type"@, key_index(t, "type"@)));
    }
}

/// Rewriting twice is rewriting once: what comes out is already flat.
pub proof fn law_normalize_idempotent(m: Obj)
    requires
        keys_distinct(m),
        spec_normalize_manifest(JsonV::Object(m)) is Ok,
    ensures
        spec_normalize_manifest(spec_normalize_manifest(JsonV::Object(m))->Ok_0) == spec_normalize_manifest(
            JsonV::Object(m),
        ),
{
    lemma_normalized_is_flat(m);
    let r = spec_normalize_manifest(JsonV::Object(m))->Ok_0->Object_0;
    law_flat_manifest_is_untouched(r);
}

// ---------------------------------------------------------------------------
// Decoding manifest text
// ---------------------------------------------------------------------------

/// The value the `toml` crate decodes from `text` (as `toml::Value`, carried
/// over to JSON's shape), or its error message.
pub uninterp spec fn spec_toml_decode(text: Seq<char>) -> Result<JsonV, Seq<char>>;

/// The value `serde_json::from_str` decodes from `text`, or its error
/// message.
pub uninterp spec fn spec_json_decode(text: Seq<char>) -> Result<JsonV, Seq<char>>;

/// `serde_json`'s decoded value, carried through opaquely.
#[verifier::external_type_specification]
#[verifier::external_body]
pub struct ExJsonValue(serde_json::Value);

/// Carries a decoded `serde_json::Value` over into [`Json`], node by node:
/// numbers as their text, objects in the map's order.
#[verifier::external_body]
fn json_of_value(v: serde_json::Value) -> Json {
    match v {
        serde_json::Value::Null => Json::Null,
        serde_json::Value::Bool(b) => Json::Bool(b),
        serde_json::Value::Number(n) => Json::Number(n.to_string()),
        serde_json::Value::String(s) => Json::Str(s),
        serde_json::Value::Array(a) => Json::Array(a.into_iter().map(json_of_value).collect()),
        serde_json::Value::Object(m) => Json::Object(
            m.into_iter().map(|(key, value)| Member { key, value: json_of_value(value) }).collect(),
        ),
    }
}

/// `toml::from_str` into a `toml::Value`, turned into JSON's shape with
/// `serde_json::to_value`: the decoded value, or the decoder's message.
/// What the TOML grammar accepts is not restated; the result is named
/// `spec_toml_decode`.
#[verifier::external_body]
fn decode_toml(text: &str) -> (r: Result<Json, String>)
    ensures
        match r {
            Ok(j) => spec_toml_decode(text@) == Ok::<JsonV, Seq<char>>(j@),
            Err(m) => spec_toml_decode(text@) == Err::<JsonV, Seq<char>>(m@),
        },
{
    match toml::from_str::<toml::Value>(text) {
        Ok(raw) => match serde_json::to_value(raw) {
            Ok(v) => Ok(json_of_value(v)),
            Err(e) => Err(e.to_string()),
        },
        Err(e) => Err(e.to_string()),
    }
}

/// `serde_json::from_str` into a `serde_json::Value`: the decoded value, or
/// the decoder's message. The JSON grammar is not restated; the result is
/// named `spec_json_decode`.
#[verifier::external_body]
fn decode_json(text: &str) -> (r: Result<Json, String>)
    ensures
        match r {
            Ok(j) => spec_json_decode(text@) == Ok::<JsonV, Seq<char>>(j@),
            Err(m) => spec_json_decode(text@) == Err::<JsonV, Seq<char>>(m@),
        },
{
    match serde_json::from_str::<serde_json::Value>(text) {
        Ok(v) => Ok(json_of_value(v)),
        Err(e) => Err(e.to_string()),
    }
}

/// The field a package cannot be read without that a flat manifest lacks:
/// `name` first, then `version`.
pub open spec fn missing_field(v: JsonV) -> Option<Seq<char>> {
    match v {
        JsonV::Object(m) => if !has_key(m, "name"@) {
            Some("name"@)
        } else if !has_key(m, "version"@) {
            Some("version"@)
        } else {
            None
        },
        _ => None,
    }
}

/// A manifest decoded with `decode` and normalized; a decoding failure, or
/// a flat manifest without a `name` or a `version`, is reported under the
/// format's name.
pub open spec fn spec_parse_manifest(decoded: Result<JsonV, Seq<char>>, format: Seq<char>) -> Result<
    JsonV,
    ErrorView,
> {
    match decoded {
        Err(m) => Err(ErrorView::InvalidConfig("Failed to parse "@ + format + " manifest: "@ + m)),
        Ok(v) => match spec_normalize_manifest(v) {
            Err(e) => Err(e),
            Ok(n) => match missing_field(n) {
                Some(f) => Err(
                    ErrorView::InvalidConfig("Failed to parse "@ + format + " manifest: missing field `"@ + f + "`"@),
                ),
                None => Ok(n),
            },
        },
    }
}

/// Refuses a flat manifest without a `name` or a `version`.
fn check_required(n: &Json, format: &str) -> (r: Result<(), BallError>)
    ensures
        match missing_field(n@) {
            Some(f) => r matches Err(e) && e@ == ErrorView::InvalidConfig(
                "Failed to parse "@ + format@ + " manifest: missing field `"@ + f + "`"@,
            ),
            None => r is Ok,
        },
{
    match n {
        Json::Object(m) => {
            proof {
                lemma_object_view(*n);
            }
            let field = if find_key(m, "name").is_none() {
                "name"
            } else if find_key(m, "version").is_none() {
                "version"
            } else {
                return Ok(());
            };
            let mut msg = concat3("Failed to parse ", format, " manifest: missing field `");
            msg.append(field);
            msg.append("`");
            Err(BallError::InvalidConfig(msg))
        },
        _ => Ok(()),
    }
}

fn parse_decoded(decoded: Result<Json, String>, format: &str) -> (r: Result<Json, BallError>)
    ensures
        match r {
            Ok(v) => spec_parse_manifest(decoded_view(decoded), format@) == Ok::<JsonV, ErrorView>(v@),
            Err(e) => spec_parse_manifest(decoded_view(decoded), format@) == Err::<JsonV, ErrorView>(e@),
        },
{
    match decoded {
        Err(m) => {
            let mut msg = concat3("Failed to parse ", format, " manifest: ");
            msg.append(m.as_str());
            Err(BallError::InvalidConfig(msg))
        },
        Ok(v) => match normalize_manifest(v) {
            Err(e) => Err(e),
            Ok(n) => match check_required(&n, format) {
                Err(e) => Err(e),
                Ok(()) => Ok(n),
            },
        },
    }
}

pub open spec fn decoded_view(d: Result<Json, String>) -> Result<JsonV, Seq<char>> {
    match d {
        Ok(j) => Ok(j@),
        Err(m) => Err(m@),
    }
}

impl ManifestParser {
    /// A TOML manifest, flat or nested, as the flat value a package is read
    /// from.
    pub fn parse_toml(content: &str) -> (r: Result<Json, BallError>)
        ensures
            match r {
                Ok(v) => spec_parse_manifest(spec_toml_decode(content@), "TOML"@) == Ok::<JsonV, ErrorView>(v@),
                Err(e) => spec_parse_manifest(spec_toml_decode(content@), "TOML"@) == Err::<JsonV, ErrorView>(e@),
            },
    {
        parse_decoded(decode_toml(content), "TOML")
    }

    /// A JSON manifest, flat or nested, as the flat value a package is read
    /// from.
    pub fn parse_json(content: &str) -> (r: Result<Json, BallError>)
        ensures
            match r {
                Ok(v) => spec_parse_manifest(spec_json_decode(content@), "JSON"@) == Ok::<JsonV, ErrorView>(v@),
                Err(e) => spec_parse_manifest(spec_json_decode(content@), "JSON"@) == Err::<JsonV, ErrorView>(e@),
            },
    {
        parse_decoded(decode_json(content), "JSON")
    }
}

} // verus!
