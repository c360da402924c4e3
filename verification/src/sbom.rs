//! The roster as a CycloneDX 1.5 inventory: one component per installed
//! package, built from what the roster recorded at install time (name,
//! version, source, checksum, download and repository URLs), and the
//! dependency edges recorded for each. Nothing is fetched.

use vstd::prelude::*;

use crate::commands::{source_label, spec_source_label, InstalledPackage};
use crate::manifest::{array_of, arr_view, obj_view, object_of, Json, JsonV, Member};
use crate::package::{PackageSource, SourceView};
use crate::text::{ascii_lower, ascii_lowercase, chars_of, concat, concat3, find_char, first_index_of, string_of, sub_vec};

verus! {

/// The source a roster row records, read back from its `source` and
/// `source_detail` columns; none when the columns name no known source.
pub open spec fn row_source(source: Seq<char>, detail: Option<Seq<char>>) -> Option<SourceView> {
    match detail {
        None => None,
        Some(d) => if source == "github"@ {
            match first_index_of(d, '/') {
                Some(k) => Some(SourceView::GitHub { owner: d.subrange(0, k), repo: d.subrange(k + 1, d.len() as int) }),
                None => None,
            }
        } else if source == "baller_registry"@ {
            Some(SourceView::BallerRegistry { url: d })
        } else if source == "chocolatey"@ {
            Some(SourceView::Chocolatey { feed_url: d })
        } else if source == "system"@ {
            Some(SourceView::System { manager: d })
        } else if source == "cargo"@ {
            Some(SourceView::Cargo { crate_name: d })
        } else {
            None
        },
    }
}

/// How a row's source is shown: as the package's source label, or the raw
/// `source` column when it names no known source.
pub open spec fn row_label(row: InstalledPackage) -> Seq<char> {
    match row_source(row.source@, row.source_detail.deep_view()) {
        Some(s) => spec_source_label(s),
        None => row.source@,
    }
}

/// A package URL, for the sources that have a registered purl type.
pub open spec fn spec_purl(s: Option<SourceView>, version: Seq<char>) -> Option<Seq<char>> {
    match s {
        Some(SourceView::Cargo { crate_name }) => Some("pkg:cargo/"@ + crate_name + "@"@ + version),
        Some(SourceView::GitHub { owner, repo }) => Some(
            "pkg:github/"@ + ascii_lower(owner) + "/"@ + ascii_lower(repo) + "@"@ + version,
        ),
        _ => None,
    }
}

pub open spec fn is_hex_char(c: char) -> bool {
    ('0' <= c && c <= '9') || ('a' <= c && c <= 'f') || ('A' <= c && c <= 'F')
}

/// A SHA-256 as CycloneDX requires it: 64 hex digits.
pub open spec fn is_sha256_text(v: Seq<char>) -> bool {
    v.len() == 64 && forall|i: int| 0 <= i < v.len() ==> is_hex_char(#[trigger] v[i])
}

pub open spec fn bom_ref(row: InstalledPackage) -> Seq<char> {
    row.name@ + "@"@ + row.version@
}

pub open spec fn str_pair(k: Seq<char>, v: Seq<char>) -> (Seq<char>, JsonV) {
    (k, JsonV::Str(v))
}

pub open spec fn spec_properties(row: InstalledPackage) -> JsonV {
    JsonV::Array(
        seq![
            JsonV::Object(seq![str_pair("name"@, "baller:source"@), str_pair("value"@, row_label(row))]),
            JsonV::Object(
                seq![
                    str_pair("name"@, "baller:user_installed"@),
                    str_pair("value"@, if row.user_installed { "true"@ } else { "false"@ }),
                ],
            ),
        ],
    )
}

/// One external reference of `kind` to a non-empty `url`.
pub open spec fn reference(kind: Seq<char>, url: Option<Seq<char>>) -> Seq<JsonV> {
    match url {
        Some(u) => if u.len() > 0 {
            seq![JsonV::Object(seq![str_pair("type"@, kind), str_pair("url"@, u)])]
        } else {
            Seq::empty()
        },
        None => Seq::empty(),
    }
}

/// A roster row as a CycloneDX component: its reference, name, version and
/// properties, then its description (when not empty), package URL (for the
/// sources that have one), SHA-256 (only when it is 64 hex digits, in lower
/// case) and external references (download, then repository, those not
/// empty).
pub open spec fn spec_component(row: InstalledPackage) -> JsonV {
    let m0 = seq![
        str_pair("type"@, "application"@),
        str_pair("bom-ref"@, bom_ref(row)),
        str_pair("name"@, row.name@),
        str_pair("version"@, row.version@),
        ("properties"@, spec_properties(row)),
    ];
    let m1 = match row.description.deep_view() {
        Some(d) => if d.len() > 0 {
            m0.push(str_pair("description"@, d))
        } else {
            m0
        },
        None => m0,
    };
    let m2 = match spec_purl(row_source(row.source@, row.source_detail.deep_view()), row.version@) {
        Some(p) => m1.push(str_pair("purl"@, p)),
        None => m1,
    };
    let m3 = match row.sha256.deep_view() {
        Some(h) => if is_sha256_text(h) {
            m2.push(
                (
                    "hashes"@,
                    JsonV::Array(
                        seq![JsonV::Object(seq![str_pair("alg"@, "SHA-256"@), str_pair("content"@, ascii_lower(h))])],
                    ),
                ),
            )
        } else {
            m2
        },
        None => m2,
    };
    let refs = reference("distribution"@, row.download_url.deep_view()) + reference(
        "vcs"@,
        row.repository.deep_view(),
    );
    JsonV::Object(
        if refs.len() > 0 {
            m3.push(("externalReferences"@, JsonV::Array(refs)))
        } else {
            m3
        },
    )
}

/// The first roster entry from the `i`-th on named `name`.
pub open spec fn first_named(es: Seq<(InstalledPackage, Vec<(String, String)>)>, name: Seq<char>, i: int) -> Option<
    int,
>
    decreases es.len() - i,
{
    if i < 0 || i >= es.len() {
        None
    } else if es[i].0.name@ == name {
        Some(i)
    } else {
        first_named(es, name, i + 1)
    }
}

/// The references of the rostered packages among `deps` (an edge to a
/// package that is not on the roster has no component and is left out).
pub open spec fn depends_refs(es: Seq<(InstalledPackage, Vec<(String, String)>)>, deps: Seq<(String, String)>) -> Seq<
    JsonV,
>
    decreases deps.len(),
{
    if deps.len() == 0 {
        Seq::empty()
    } else {
        let pre = depends_refs(es, deps.drop_last());
        match first_named(es, deps.last().0@, 0) {
            Some(k) => pre.push(JsonV::Str(bom_ref(es[k].0))),
            None => pre,
        }
    }
}

pub open spec fn spec_dependency(es: Seq<(InstalledPackage, Vec<(String, String)>)>, j: int) -> JsonV {
    JsonV::Object(seq![str_pair("ref"@, bom_ref(es[j].0)), ("dependsOn"@, JsonV::Array(depends_refs(es, es[j].1@)))])
}

pub open spec fn tool_metadata() -> JsonV {
    JsonV::Object(
        seq![
            (
                "tools"@,
                JsonV::Object(
                    seq![
                        (
                            "components"@,
                            JsonV::Array(
                                seq![
                                    JsonV::Object(
                                        seq![
                                            str_pair("type"@, "application"@),
                                            str_pair("name"@, "baller"@),
                                            str_pair("version"@, "0.1.0"@),
                                        ],
                                    ),
                                ],
                            ),
                        ),
                    ],
                ),
            ),
        ],
    )
}

/// The CycloneDX 1.5 document for a roster: every package a component, and
/// every package listed under `dependencies` (with no edges when it has
/// none, so that it is told apart from one whose edges are unknown).
pub open spec fn spec_cyclonedx(es: Seq<(InstalledPackage, Vec<(String, String)>)>) -> JsonV {
    JsonV::Object(
        seq![
            str_pair("bomFormat"@, "CycloneDX"@),
            str_pair("specVersion"@, "1.5"@),
            ("version"@, JsonV::Number("1"@)),
            ("metadata"@, tool_metadata()),
            ("components"@, JsonV::Array(Seq::new(es.len(), |j: int| spec_component(es[j].0)))),
            ("dependencies"@, JsonV::Array(Seq::new(es.len(), |j: int| spec_dependency(es, j)))),
        ],
    )
}

fn push_member(m: &mut Vec<Member>, key: &str, value: Json)
    ensures
        obj_view(final(m)@) == obj_view(old(m)@).push((key@, value@)),
{
    let ghost m0 = obj_view(m@);
    let ghost vv = value@;
    m.push(Member { key: String::from_str(key), value });
    proof {
        assert(obj_view(m@) =~= m0.push((key@, vv)));
    }
}

fn str_json(s: String) -> (r: Json)
    ensures
        r@ == JsonV::Str(s@),
{
    Json::Str(s)
}

fn pair_object(k1: &str, v1: String, k2: &str, v2: String) -> (r: Json)
    ensures
        r@ == JsonV::Object(seq![str_pair(k1@, v1@), str_pair(k2@, v2@)]),
{
    let mut m: Vec<Member> = Vec::new();
    proof {
        assert(obj_view(m@) =~= Seq::<(Seq<char>, JsonV)>::empty());
    }
    push_member(&mut m, k1, str_json(v1));
    push_member(&mut m, k2, str_json(v2));
    let r = object_of(m);
    proof {
        assert(obj_view(m@) =~= seq![str_pair(k1@, v1@), str_pair(k2@, v2@)]);
    }
    r
}

fn is_word(s: &String, w: &str) -> (r: bool)
    ensures
        r == (s@ == w@),
{
    *s == String::from_str(w)
}

fn row_source_exec(source: &String, detail: &Option<String>) -> (r: Option<PackageSource>)
    ensures
        match r {
            Some(s) => row_source(source@, detail.deep_view()) == Some(s@),
            None => row_source(source@, detail.deep_view()) is None,
        },
{
    let d = match detail {
        Some(d) => d,
        None => {
            return None;
        },
    };
    if is_word(source, "github") {
        let v = chars_of(d.as_str());
        let n = v.len();
        match find_char(v.as_slice(), '/') {
            Some(k) => {
                let owner = string_of(sub_vec(v.as_slice(), 0, k).as_slice());
                let repo = string_of(sub_vec(v.as_slice(), k + 1, n).as_slice());
                Some(PackageSource::GitHub { owner, repo })
            },
            None => None,
        }
    } else if is_word(source, "baller_registry") {
        Some(PackageSource::BallerRegistry { url: d.clone() })
    } else if is_word(source, "chocolatey") {
        Some(PackageSource::Chocolatey { feed_url: d.clone() })
    } else if is_word(source, "system") {
        Some(PackageSource::System { manager: d.clone() })
    } else if is_word(source, "cargo") {
        Some(PackageSource::Cargo { crate_name: d.clone() })
    } else {
        None
    }
}

fn purl(source: &Option<PackageSource>, version: &String) -> (r: Option<String>)
    ensures
        match source {
            Some(s) => spec_purl(Some(s@), version@),
            None => spec_purl(None, version@),
        } == match r {
            Some(p) => Some(p@),
            None => None::<Seq<char>>,
        },
{
    match source {
        Some(PackageSource::Cargo { crate_name }) => {
            let mut p = concat3("pkg:cargo/", crate_name.as_str(), "@");
            p.append(version.as_str());
            Some(p)
        },
        Some(PackageSource::GitHub { owner, repo }) => {
            let o = ascii_lowercase(owner.as_str());
            let rp = ascii_lowercase(repo.as_str());
            let mut p = concat3("pkg:github/", o.as_str(), "/");
            p.append(rp.as_str());
            p.append("@");
            p.append(version.as_str());
            Some(p)
        },
        _ => None,
    }
}

fn is_hex_exec(c: char) -> (r: bool)
    ensures
        r == is_hex_char(c),
{
    ('0' <= c && c <= '9') || ('a' <= c && c <= 'f') || ('A' <= c && c <= 'F')
}

fn is_sha256(value: &String) -> (r: bool)
    ensures
        r == is_sha256_text(value@),
{
    let v = chars_of(value.as_str());
    if v.len() != 64 {
        return false;
    }
    let mut i: usize = 0;
    while i < v.len()
        invariant
            v@ == value@,
            i <= v@.len(),
            forall|j: int| 0 <= j < i ==> is_hex_char(#[trigger] v@[j]),
        decreases v@.len() - i,
    {
        if !is_hex_exec(v[i]) {
            return false;
        }
        i = i + 1;
    }
    true
}

fn bom_ref_exec(row: &InstalledPackage) -> (r: String)
    ensures
        r@ == bom_ref(*row),
{
    concat3(row.name.as_str(), "@", row.version.as_str())
}

fn push_reference(refs: &mut Vec<Json>, kind: &str, url: &Option<String>)
    ensures
        arr_view(final(refs)@) == arr_view(old(refs)@) + reference(kind@, url.deep_view()),
{
    let ghost a0 = arr_view(refs@);
    match url {
        Some(u) => {
            if u.unicode_len() > 0 {
                let o = pair_object("type", String::from_str(kind), "url", u.clone());
                let ghost ov = o@;
                refs.push(o);
                proof {
                    assert(arr_view(refs@) =~= a0 + seq![ov]);
                }
                return;
            }
        },
        None => {},
    }
    proof {
        assert(a0 + reference(kind@, url.deep_view()) =~= a0);
    }
}

/// One roster row as a CycloneDX component (see `spec_component`).
pub fn component(row: &InstalledPackage) -> (r: Json)
    ensures
        r@ == spec_component(*row),
{
    let src = row_source_exec(&row.source, &row.source_detail);
    let label = match &src {
        Some(s) => source_label(s),
        None => row.source.clone(),
    };
    let mut props: Vec<Json> = Vec::new();
    props.push(pair_object("name", String::from_str("baller:source"), "value", label));
    let installed_word = if row.user_installed {
        String::from_str("true")
    } else {
        String::from_str("false")
    };
    props.push(pair_object("name", String::from_str("baller:user_installed"), "value", installed_word));
    let ghost pv = props@;
    let props_json = array_of(props);
    proof {
        assert(arr_view(pv) =~= spec_properties(*row)->Array_0);
    }
    let mut m: Vec<Member> = Vec::new();
    proof {
        assert(obj_view(m@) =~= Seq::<(Seq<char>, JsonV)>::empty());
    }
    push_member(&mut m, "type", str_json(String::from_str("application")));
    push_member(&mut m, "bom-ref", str_json(bom_ref_exec(row)));
    push_member(&mut m, "name", str_json(row.name.clone()));
    push_member(&mut m, "version", str_json(row.version.clone()));
    push_member(&mut m, "properties", props_json);
    proof {
        assert(obj_view(m@) =~= seq![
            str_pair("type"@, "application"@),
            str_pair("bom-ref"@, bom_ref(*row)),
            str_pair("name"@, row.name@),
            str_pair("version"@, row.version@),
            ("properties"@, spec_properties(*row)),
        ]);
    }
    match &row.description {
        Some(d) => {
            if d.unicode_len() > 0 {
                push_member(&mut m, "description", str_json(d.clone()));
            }
        },
        None => {},
    }
    match purl(&src, &row.version) {
        Some(p) => {
            push_member(&mut m, "purl", str_json(p));
        },
        None => {},
    }
    match &row.sha256 {
        Some(h) => {
            if is_sha256(h) {
                let hash = pair_object("alg", String::from_str("SHA-256"), "content", ascii_lowercase(h.as_str()));
                let ghost hv = hash@;
                let mut hs: Vec<Json> = Vec::new();
                hs.push(hash);
                proof {
                    assert(arr_view(hs@) =~= seq![hv]);
                }
                push_member(&mut m, "hashes", array_of(hs));
            }
        },
        None => {},
    }
    let mut refs: Vec<Json> = Vec::new();
    proof {
        assert(arr_view(refs@) =~= Seq::<JsonV>::empty());
    }
    push_reference(&mut refs, "distribution", &row.download_url);
    push_reference(&mut refs, "vcs", &row.repository);
    proof {
        assert(arr_view(refs@) =~= reference("distribution"@, row.download_url.deep_view()) + reference(
            "vcs"@,
            row.repository.deep_view(),
        ));
    }
    if refs.len() > 0 {
        push_member(&mut m, "externalReferences", array_of(refs));
    }
    object_of(m)
}

fn find_named(es: &Vec<(InstalledPackage, Vec<(String, String)>)>, name: &String) -> (r: Option<usize>)
    ensures
        first_named(es@, name@, 0) == match r {
            Some(k) => Some(k as int),
            None => None::<int>,
        },
        r matches Some(k) ==> k < es@.len(),
{
    let mut i: usize = 0;
    while i < es.len()
        invariant
            i <= es@.len(),
            first_named(es@, name@, 0) == first_named(es@, name@, i as int),
        decreases es@.len() - i,
    {
        if es[i].0.name == *name {
            return Some(i);
        }
        i = i + 1;
    }
    None
}

fn dependency(es: &Vec<(InstalledPackage, Vec<(String, String)>)>, j: usize) -> (r: Json)
    requires
        j < es@.len(),
    ensures
        r@ == spec_dependency(es@, j as int),
{
    let deps = &es[j].1;
    let mut refs: Vec<Json> = Vec::new();
    let mut t: usize = 0;
    while t < deps.len()
        invariant
            j < es@.len(),
            deps@ == es@[j as int].1@,
            t <= deps@.len(),
            arr_view(refs@) == depends_refs(es@, deps@.subrange(0, t as int)),
        decreases deps@.len() - t,
    {
        let ghost a0 = arr_view(refs@);
        proof {
            assert(deps@.subrange(0, t + 1).drop_last() =~= deps@.subrange(0, t as int));
            assert(deps@.subrange(0, t + 1).last() == deps@[t as int]);
        }
        match find_named(es, &deps[t].0) {
            Some(k) => {
                let s = str_json(bom_ref_exec(&es[k].0));
                let ghost sv = s@;
                refs.push(s);
                proof {
                    assert(arr_view(refs@) =~= a0.push(sv));
                }
            },
            None => {},
        }
        t = t + 1;
    }
    proof {
        assert(deps@.subrange(0, deps@.len() as int) =~= deps@);
    }
    let arr = array_of(refs);
    let mut m: Vec<Member> = Vec::new();
    proof {
        assert(obj_view(m@) =~= Seq::<(Seq<char>, JsonV)>::empty());
    }
    push_member(&mut m, "ref", str_json(bom_ref_exec(&es[j].0)));
    push_member(&mut m, "dependsOn", arr);
    proof {
        assert(obj_view(m@) =~= seq![
            str_pair("ref"@, bom_ref(es@[j as int].0)),
            ("dependsOn"@, JsonV::Array(depends_refs(es@, es@[j as int].1@))),
        ]);
    }
    object_of(m)
}

fn tool_metadata_exec() -> (r: Json)
    ensures
        r@ == tool_metadata(),
{
    let mut tool: Vec<Member> = Vec::new();
    proof {
        assert(obj_view(tool@) =~= Seq::<(Seq<char>, JsonV)>::empty());
    }
    push_member(&mut tool, "type", str_json(String::from_str("application")));
    push_member(&mut tool, "name", str_json(String::from_str("baller")));
    push_member(&mut tool, "version", str_json(String::from_str("0.1.0")));
    proof {
        assert(obj_view(tool@) =~= seq![
            str_pair("type"@, "application"@),
            str_pair("name"@, "baller"@),
            str_pair("version"@, "0.1.0"@),
        ]);
    }
    let tool_json = object_of(tool);
    let ghost tv = tool_json@;
    let mut list: Vec<Json> = Vec::new();
    list.push(tool_json);
    proof {
        assert(arr_view(list@) =~= seq![tv]);
    }
    let mut tools: Vec<Member> = Vec::new();
    proof {
        assert(obj_view(tools@) =~= Seq::<(Seq<char>, JsonV)>::empty());
    }
    let list_json = array_of(list);
    let ghost lv = list_json@;
    push_member(&mut tools, "components", list_json);
    proof {
        assert(obj_view(tools@) =~= seq![("components"@, lv)]);
    }
    let tools_json = object_of(tools);
    let ghost tsv = tools_json@;
    let mut meta: Vec<Member> = Vec::new();
    proof {
        assert(obj_view(meta@) =~= Seq::<(Seq<char>, JsonV)>::empty());
    }
    push_member(&mut meta, "tools", tools_json);
    proof {
        assert(obj_view(meta@) =~= seq![("tools"@, tsv)]);
    }
    object_of(meta)
}

/// The CycloneDX 1.5 JSON document for a roster: each entry is a roster row
/// and the `(name, version)` dependency rows recorded for it.
pub fn cyclonedx(entries: &Vec<(InstalledPackage, Vec<(String, String)>)>) -> (r: Json)
    ensures
        r@ == spec_cyclonedx(entries@),
{
    let mut comps: Vec<Json> = Vec::new();
    let mut deps: Vec<Json> = Vec::new();
    let mut j: usize = 0;
    while j < entries.len()
        invariant
            j <= entries@.len(),
            arr_view(comps@) == Seq::new(j as nat, |k: int| spec_component(entries@[k].0)),
            arr_view(deps@) == Seq::new(j as nat, |k: int| spec_dependency(entries@, k)),
        decreases entries@.len() - j,
    {
        let ghost c0 = arr_view(comps@);
        let ghost d0 = arr_view(deps@);
        let c = component(&entries[j].0);
        let d = dependency(entries, j);
        let ghost cv = c@;
        let ghost dv = d@;
        comps.push(c);
        deps.push(d);
        proof {
            assert(arr_view(comps@) =~= c0.push(cv));
            assert(arr_view(deps@) =~= d0.push(dv));
        }
        j = j + 1;
        proof {
            assert(arr_view(comps@) =~= Seq::new(j as nat, |k: int| spec_component(entries@[k].0)));
            assert(arr_view(deps@) =~= Seq::new(j as nat, |k: int| spec_dependency(entries@, k)));
        }
    }
    let mut m: Vec<Member> = Vec::new();
    proof {
        assert(obj_view(m@) =~= Seq::<(Seq<char>, JsonV)>::empty());
    }
    push_member(&mut m, "bomFormat", str_json(String::from_str("CycloneDX")));
    push_member(&mut m, "specVersion", str_json(String::from_str("1.5")));
    push_member(&mut m, "version", Json::Number(String::from_str("1")));
    push_member(&mut m, "metadata", tool_metadata_exec());
    push_member(&mut m, "components", array_of(comps));
    push_member(&mut m, "dependencies", array_of(deps));
    proof {
        assert(obj_view(m@) =~= spec_cyclonedx(entries@)->Object_0);
    }
    object_of(m)
}

} // verus!
