//! Schema derivation for tool arguments.
//!
//! A tool's argument record is described by a list of fields, each with a
//! type and declarative overrides: a description to attach, a renamed wire
//! name, a skip flag, and an explicit required override.  From such a list
//! the library derives the JSON schema the tool advertises, and checks
//! incoming arguments against the list before a typed handler runs.

use vstd::prelude::*;
use crate::json::{Json, JsonVal, jview, jview_members, jview_seq};
use crate::codec::{lookup, obj_push, obj_get, lemma_lookup_push};
use crate::types::Tool;

verus! {

/// The type of one argument field.
pub enum ArgType {
    /// A string.
    Str,
    /// An integer of any width.
    Int,
    /// A floating-point number.
    Num,
    /// A boolean.
    Bool,
    /// An ordered sequence of elements of one type.
    List(Box<ArgType>),
    /// A nested argument record with its own fields.
    Record(Vec<ArgField>),
}

/// One field of an argument record.
pub struct ArgField {
    /// The field's name in the record.
    pub name: String,
    /// The field's type.
    pub ty: ArgType,
    /// Whether the field is optional in the record (wraps its type).
    pub optional: bool,
    /// A description to attach to the field's schema.
    pub desc: Option<String>,
    /// A wire name replacing the field's own.
    pub rename: Option<String>,
    /// Excludes the field from the schema entirely.
    pub skip: bool,
    /// Overrides whether the field is required.
    pub required: Option<bool>,
}

pub enum ArgTypeV {
    Str,
    Int,
    Num,
    Bool,
    List(Box<ArgTypeV>),
    Record(Seq<ArgFieldV>),
}

pub struct ArgFieldV {
    pub name: Seq<char>,
    pub ty: ArgTypeV,
    pub optional: bool,
    pub desc: Option<Seq<char>>,
    pub rename: Option<Seq<char>>,
    pub skip: bool,
    pub required: Option<bool>,
}

pub open spec fn aview(t: ArgType) -> ArgTypeV
    decreases t,
{
    match t {
        ArgType::Str => ArgTypeV::Str,
        ArgType::Int => ArgTypeV::Int,
        ArgType::Num => ArgTypeV::Num,
        ArgType::Bool => ArgTypeV::Bool,
        ArgType::List(inner) => ArgTypeV::List(Box::new(aview(*inner))),
        ArgType::Record(fs) => ArgTypeV::Record(fview_seq(fs@)),
    }
}

pub open spec fn fview(f: ArgField) -> ArgFieldV
    decreases f,
{
    ArgFieldV {
        name: f.name@,
        ty: aview(f.ty),
        optional: f.optional,
        desc: f.desc.deep_view(),
        rename: f.rename.deep_view(),
        skip: f.skip,
        required: f.required,
    }
}

pub open spec fn fview_seq(fs: Seq<ArgField>) -> Seq<ArgFieldV>
    decreases fs,
{
    if fs.len() == 0 {
        Seq::empty()
    } else {
        fview_seq(fs.drop_last()).push(fview(fs.last()))
    }
}

impl DeepView for ArgType {
    type V = ArgTypeV;

    open spec fn deep_view(&self) -> ArgTypeV {
        aview(*self)
    }
}

impl DeepView for ArgField {
    type V = ArgFieldV;

    open spec fn deep_view(&self) -> ArgFieldV {
        fview(*self)
    }
}

pub broadcast proof fn lemma_fview_seq_len(fs: Seq<ArgField>)
    ensures
        #[trigger] fview_seq(fs).len() == fs.len(),
    decreases fs,
{
    if fs.len() > 0 {
        lemma_fview_seq_len(fs.drop_last());
    }
}

pub broadcast proof fn lemma_fview_seq_index(fs: Seq<ArgField>, i: int)
    requires
        0 <= i < fs.len(),
    ensures
        #[trigger] fview_seq(fs)[i] == fview(fs[i]),
    decreases fs,
{
    lemma_fview_seq_len(fs.drop_last());
    if i < fs.len() - 1 {
        lemma_fview_seq_index(fs.drop_last(), i);
    }
}

// --- Effective name and requiredness ---

/// The name a field carries on the wire: its rename where given.
pub open spec fn eff_name(f: ArgFieldV) -> Seq<char> {
    match f.rename {
        Some(r) => r,
        None => f.name,
    }
}

/// Whether a field is required: the explicit override where given, else
/// required exactly when it is not optional.
pub open spec fn eff_required(f: ArgFieldV) -> bool {
    match f.required {
        Some(r) => r,
        None => !f.optional,
    }
}

// --- The derived schema, in specification ---

pub open spec fn spec_type_schema(t: ArgTypeV) -> JsonVal
    decreases t, 0int,
{
    match t {
        ArgTypeV::Str => JsonVal::Obj(seq![("type"@, JsonVal::Str("string"@))]),
        ArgTypeV::Int => JsonVal::Obj(seq![("type"@, JsonVal::Str("integer"@))]),
        ArgTypeV::Num => JsonVal::Obj(seq![("type"@, JsonVal::Str("number"@))]),
        ArgTypeV::Bool => JsonVal::Obj(seq![("type"@, JsonVal::Str("boolean"@))]),
        ArgTypeV::List(inner) => JsonVal::Obj(
            seq![("type"@, JsonVal::Str("array"@))].push(("items"@, spec_type_schema(*inner))),
        ),
        ArgTypeV::Record(fs) => spec_schema_of(fs),
    }
}

/// A field's schema: the schema of its type (of the inner type where the
/// field is optional), with the description attached where given.
pub open spec fn spec_field_schema(f: ArgFieldV) -> JsonVal
    decreases f, 0int,
{
    let base = spec_type_schema(f.ty);
    match f.desc {
        Some(d) => match base {
            JsonVal::Obj(ms) => JsonVal::Obj(ms.push(("description"@, JsonVal::Str(d)))),
            _ => base,
        },
        None => base,
    }
}

/// The members of the `properties` object: one per field not skipped, in
/// declaration order, under the effective name.
pub open spec fn spec_props(fs: Seq<ArgFieldV>) -> Seq<(Seq<char>, JsonVal)>
    decreases fs, 1int,
{
    if fs.len() == 0 {
        Seq::empty()
    } else {
        let rest = spec_props(fs.drop_last());
        if fs.last().skip {
            rest
        } else {
            rest.push((eff_name(fs.last()), spec_field_schema(fs.last())))
        }
    }
}

/// The `required` array: the effective names of the required fields that
/// are not skipped, in declaration order.
pub open spec fn spec_required(fs: Seq<ArgFieldV>) -> Seq<JsonVal>
    decreases fs, 0int,
{
    if fs.len() == 0 {
        Seq::empty()
    } else {
        let rest = spec_required(fs.drop_last());
        if !fs.last().skip && eff_required(fs.last()) {
            rest.push(JsonVal::Str(eff_name(fs.last())))
        } else {
            rest
        }
    }
}

/// The derived schema: an object schema with `properties`, and `required`
/// exactly where some field is required.
pub open spec fn spec_schema_of(fs: Seq<ArgFieldV>) -> JsonVal
    decreases fs, 2int,
{
    let base = seq![("type"@, JsonVal::Str("object"@))].push(
        ("properties"@, JsonVal::Obj(spec_props(fs))),
    );
    if spec_required(fs).len() > 0 {
        JsonVal::Obj(base.push(("required"@, JsonVal::Arr(spec_required(fs)))))
    } else {
        JsonVal::Obj(base)
    }
}

// --- The executable derivation ---

pub fn type_schema(t: &ArgType) -> (out: Json)
    ensures
        out.deep_view() == spec_type_schema(t.deep_view()),
    decreases *t,
{
    match t {
        ArgType::Str => {
            let mut m: Vec<(String, Json)> = Vec::new();
            obj_push(&mut m, "type", Json::Str("string".to_owned()));
            let out = Json::Obj(m);
            proof {
                assert(jview_members(m@) =~= spec_type_schema(t.deep_view())->Obj_0);
            }
            out
        },
        ArgType::Int => {
            let mut m: Vec<(String, Json)> = Vec::new();
            obj_push(&mut m, "type", Json::Str("integer".to_owned()));
            let out = Json::Obj(m);
            proof {
                assert(jview_members(m@) =~= spec_type_schema(t.deep_view())->Obj_0);
            }
            out
        },
        ArgType::Num => {
            let mut m: Vec<(String, Json)> = Vec::new();
            obj_push(&mut m, "type", Json::Str("number".to_owned()));
            let out = Json::Obj(m);
            proof {
                assert(jview_members(m@) =~= spec_type_schema(t.deep_view())->Obj_0);
            }
            out
        },
        ArgType::Bool => {
            let mut m: Vec<(String, Json)> = Vec::new();
            obj_push(&mut m, "type", Json::Str("boolean".to_owned()));
            let out = Json::Obj(m);
            proof {
                assert(jview_members(m@) =~= spec_type_schema(t.deep_view())->Obj_0);
            }
            out
        },
        ArgType::List(inner) => {
            proof {
                assert(decreases_to!(*t => (*t)->List_0));
            }
            let items = type_schema(inner);
            let mut m: Vec<(String, Json)> = Vec::new();
            obj_push(&mut m, "type", Json::Str("array".to_owned()));
            obj_push(&mut m, "items", items);
            let out = Json::Obj(m);
            proof {
                assert(jview_members(m@) =~= spec_type_schema(t.deep_view())->Obj_0);
            }
            out
        },
        ArgType::Record(fs) => {
            proof {
                assert(decreases_to!(*t => (*t)->Record_0));
            }
            let out = derive_schema(fs);
            proof {
                lemma_fview_seq_len(fs@);
                assert forall|k: int| 0 <= k < fs@.len() implies #[trigger] fview_seq(fs@)[k]
                    == fview(fs@[k]) by {
                    lemma_fview_seq_index(fs@, k);
                }
                assert(fs.deep_view() =~= fview_seq(fs@));
            }
            out
        },
    }
}

fn field_schema(f: &ArgField) -> (out: Json)
    ensures
        out.deep_view() == spec_field_schema(f.deep_view()),
    decreases *f,
{
    proof {
        assert(decreases_to!(*f => f.ty));
    }
    let base = type_schema(&f.ty);
    match &f.desc {
        Some(d) => {
            match base {
                Json::Obj(mut m) => {
                    let ghost prev = m@;
                    obj_push(&mut m, "description", Json::Str(d.clone()));
                    let out = Json::Obj(m);
                    proof {
                        assert(out.deep_view() == spec_field_schema(f.deep_view()));
                    }
                    out
                },
                other => other,
            }
        },
        None => base,
    }
}

/// Derives the JSON schema of an argument record from its field list.
///
/// The schema is an object schema whose `properties` holds each field that
/// is not skipped, under its effective name, and whose `required` array —
/// present exactly when non-empty — holds the effective names of the
/// required fields.
pub fn derive_schema(fields: &Vec<ArgField>) -> (out: Json)
    ensures
        out.deep_view() == spec_schema_of(fields.deep_view()),
    decreases fields@,
{
    let n = fields.len();
    let mut props: Vec<(String, Json)> = Vec::new();
    let mut required: Vec<Json> = Vec::new();
    let mut i: usize = 0;
    proof {
        lemma_fview_seq_len(fields@);
        assert forall|k: int| 0 <= k < fields@.len() implies #[trigger] fview_seq(fields@)[k]
            == fview(fields@[k]) by {
            lemma_fview_seq_index(fields@, k);
        }
        assert(fields.deep_view() =~= fview_seq(fields@));
        assert(jview_members(props@) =~= spec_props(fview_seq(fields@).take(0)));
        assert(jview_seq(required@) =~= spec_required(fview_seq(fields@).take(0)));
    }
    while i < n
        invariant
            n == fields@.len(),
            i <= n,
            fields.deep_view() == fview_seq(fields@),
            fview_seq(fields@).len() == n,
            jview_members(props@) == spec_props(fview_seq(fields@).take(i as int)),
            jview_seq(required@) == spec_required(fview_seq(fields@).take(i as int)),
            forall|k: int| 0 <= k < n ==> #[trigger] fview_seq(fields@)[k] == fview(fields@[k]),
        decreases n - i,
    {
        proof {
            lemma_fview_seq_len(fields@);
            lemma_fview_seq_index(fields@, i as int);
            assert(fview_seq(fields@).take(i + 1).drop_last() =~= fview_seq(fields@).take(
                i as int,
            ));
        }
        let f = &fields[i];
        if !f.skip {
            proof {
                assert(decreases_to!(fields@ => fields@[i as int]));
            }
            let schema = field_schema(f);
            let wire_name = match &f.rename {
                Some(r) => r.clone(),
                None => f.name.clone(),
            };
            let is_required = match f.required {
                Some(r) => r,
                None => !f.optional,
            };
            let ghost prev_props = props@;
            props.push((wire_name.clone(), schema));
            proof {
                assert(props@.drop_last() =~= prev_props);
                assert(jview_members(props@) =~= spec_props(fview_seq(fields@).take(i + 1)));
            }
            if is_required {
                let ghost prev_req = required@;
                required.push(Json::Str(wire_name));
                proof {
                    let fv = fview_seq(fields@);
                    assert(fv.take(i + 1).last() == fv[i as int]);
                    assert(fv[i as int] == fview(fields@[i as int]));
                    assert(eff_required(fv.take(i + 1).last()));
                    assert(!fv.take(i + 1).last().skip);
                    assert(wire_name@ == eff_name(fv.take(i + 1).last()));
                    assert(required@.drop_last() =~= prev_req);
                    assert(jview_seq(required@) == jview_seq(required@.drop_last()).push(
                        jview(required@.last()),
                    ));
                    assert(jview_seq(required@.drop_last()) == jview_seq(prev_req));
                    assert(jview(required@.last()) == JsonVal::Str(wire_name@));
                    assert(jview_seq(required@) == spec_required(fv.take(i as int)).push(
                        JsonVal::Str(wire_name@),
                    ));
                    assert(fv.take(i + 1).drop_last() == fv.take(i as int));
                    assert(spec_required(fv.take(i + 1)) == spec_required(fv.take(i as int)).push(
                        JsonVal::Str(eff_name(fv.take(i + 1).last())),
                    ));
                    assert(jview_seq(required@) == spec_required(
                        fview_seq(fields@).take(i + 1),
                    ));
                }
            } else {
                proof {
                    let fv = fview_seq(fields@);
                    assert(fv.take(i + 1).last() == fv[i as int]);
                    assert(fv[i as int] == fview(fields@[i as int]));
                    assert(!eff_required(fv.take(i + 1).last()));
                    assert(fv.take(i + 1).drop_last() == fv.take(i as int));
                    assert(spec_required(fv.take(i + 1)) == spec_required(fv.take(i + 1).drop_last()));
                    assert(spec_required(fv.take(i + 1)) == spec_required(fv.take(i as int)));
                    assert(jview_seq(required@) == spec_required(
                        fview_seq(fields@).take(i + 1),
                    ));
                }
            }
        } else {
            proof {
                assert(jview_members(props@) =~= spec_props(fview_seq(fields@).take(i + 1)));
                assert(jview_seq(required@) =~= spec_required(fview_seq(fields@).take(i + 1)));
            }
        }
        i = i + 1;
    }
    proof {
        assert(fview_seq(fields@).take(n as int) =~= fview_seq(fields@));
    }
    let mut m: Vec<(String, Json)> = Vec::new();
    obj_push(&mut m, "type", Json::Str("object".to_owned()));
    obj_push(&mut m, "properties", Json::Obj(props));
    if required.len() > 0 {
        proof {
            crate::json::lemma_jview_seq_len(required@);
        }
        obj_push(&mut m, "required", Json::Arr(required));
        let out = Json::Obj(m);
        proof {
            assert(jview_members(m@) =~= spec_schema_of(fields.deep_view())->Obj_0);
        }
        out
    } else {
        proof {
            crate::json::lemma_jview_seq_len(required@);
        }
        let out = Json::Obj(m);
        proof {
            assert(jview_members(m@) =~= spec_schema_of(fields.deep_view())->Obj_0);
        }
        out
    }
}

// --- Laws of the derived schema ---

/// Whether a required-names array holds the given name.
pub open spec fn required_has(names: Seq<JsonVal>, n: Seq<char>) -> bool {
    exists|i: int| 0 <= i < names.len() && names[i] == JsonVal::Str(n)
}

proof fn lemma_required_has_push(names: Seq<JsonVal>, x: JsonVal, n: Seq<char>)
    ensures
        required_has(names.push(x), n) <==> (required_has(names, n) || x == JsonVal::Str(n)),
{
    if required_has(names, n) {
        let i = choose|i: int| 0 <= i < names.len() && names[i] == JsonVal::Str(n);
        assert(names.push(x)[i] == JsonVal::Str(n));
    }
    if x == JsonVal::Str(n) {
        assert(names.push(x)[names.len() as int] == x);
    }
    if required_has(names.push(x), n) {
        let i = choose|i: int|
            0 <= i < names.push(x).len() && names.push(x)[i] == JsonVal::Str(n);
        if i < names.len() {
            assert(names[i] == JsonVal::Str(n));
        }
    }
}

/// No field of the list carries the given wire name without being skipped.
pub open spec fn name_only_skipped(fs: Seq<ArgFieldV>, n: Seq<char>) -> bool {
    forall|j: int| 0 <= j < fs.len() && eff_name(#[trigger] fs[j]) == n ==> fs[j].skip
}

/// A name all of whose fields are skipped appears neither among the
/// properties nor among the required names.
pub proof fn lemma_schema_skip(fs: Seq<ArgFieldV>, n: Seq<char>)
    requires
        name_only_skipped(fs, n),
    ensures
        lookup(spec_props(fs), n) is None,
        !required_has(spec_required(fs), n),
    decreases fs,
{
    broadcast use lemma_lookup_push;

    if fs.len() == 0 {
    } else {
        let rest = fs.drop_last();
        assert forall|j: int| 0 <= j < rest.len() && eff_name(#[trigger] rest[j]) == n
            implies rest[j].skip by {
            assert(rest[j] == fs[j]);
        }
        lemma_schema_skip(rest, n);
        let last = fs.last();
        if !last.skip {
            assert(eff_name(last) != n);
            if eff_required(last) {
                lemma_required_has_push(spec_required(rest), JsonVal::Str(eff_name(last)), n);
            }
        }
    }
}

/// The wire names of the fields that are not skipped are pairwise distinct.
pub open spec fn distinct_wire_names(fs: Seq<ArgFieldV>) -> bool {
    forall|i: int, j: int|
        0 <= i < j < fs.len() && !(#[trigger] fs[i]).skip && !(#[trigger] fs[j]).skip
            ==> eff_name(fs[i]) != eff_name(fs[j])
}

/// Any field that is not skipped stands in `properties` under its
/// effective name with its own schema, and stands among the required
/// names exactly when it is required.
pub proof fn lemma_schema_field(fs: Seq<ArgFieldV>, i: int)
    requires
        distinct_wire_names(fs),
        0 <= i < fs.len(),
        !fs[i].skip,
    ensures
        lookup(spec_props(fs), eff_name(fs[i])) == Some(spec_field_schema(fs[i])),
        required_has(spec_required(fs), eff_name(fs[i])) <==> eff_required(fs[i]),
    decreases fs,
{
    broadcast use lemma_lookup_push;

    let n = eff_name(fs[i]);
    let rest = fs.drop_last();
    let last = fs.last();
    assert forall|a: int, b: int|
        0 <= a < b < rest.len() && !(#[trigger] rest[a]).skip && !(#[trigger] rest[b]).skip
        implies eff_name(rest[a]) != eff_name(rest[b]) by {
        assert(rest[a] == fs[a] && rest[b] == fs[b]);
    }
    if i == fs.len() - 1 {
        assert forall|j: int| 0 <= j < rest.len() && eff_name(#[trigger] rest[j]) == n
            implies rest[j].skip by {
            assert(rest[j] == fs[j]);
            if !fs[j].skip {
                assert(eff_name(fs[j]) != eff_name(fs[i]));
            }
        }
        lemma_schema_skip(rest, n);
        assert(spec_props(fs) == spec_props(rest).push((n, spec_field_schema(last))));
        if eff_required(last) {
            lemma_required_has_push(spec_required(rest), JsonVal::Str(n), n);
        } else {
            assert(spec_required(fs) == spec_required(rest));
        }
    } else {
        assert(rest[i] == fs[i]);
        lemma_schema_field(rest, i);
        if !last.skip {
            assert(eff_name(last) != n);
            if eff_required(last) {
                lemma_required_has_push(spec_required(rest), JsonVal::Str(eff_name(last)), n);
            }
        }
    }
}

// --- Conformance of arguments to a field list ---

/// Whether a JSON value can be read as the given field type.
pub open spec fn spec_value_matches(v: JsonVal, t: ArgTypeV) -> bool
    decreases t, 0int,
{
    match t {
        ArgTypeV::Str => v is Str,
        ArgTypeV::Int => v is Int,
        ArgTypeV::Num => v is Int,
        ArgTypeV::Bool => v is Bool,
        ArgTypeV::List(inner) => v is Arr && (forall|k: int|
            0 <= k < v->Arr_0.len() ==> spec_value_matches(#[trigger] v->Arr_0[k], *inner)),
        ArgTypeV::Record(fs) => spec_args_conform(fs, v),
    }
}

/// Whether a JSON value deserialises as the argument record the fields
/// describe: it is an object; every non-optional field is present; and
/// every present field's value can be read at the field's type, where an
/// optional field also accepts null.
pub open spec fn spec_args_conform(fs: Seq<ArgFieldV>, v: JsonVal) -> bool
    decreases fs, 1int,
{
    v is Obj && (forall|j: int|
        0 <= j < fs.len() && !(#[trigger] fs[j]).skip ==> match lookup(
            v->Obj_0,
            eff_name(fs[j]),
        ) {
            Some(x) => spec_value_matches(x, fs[j].ty) || (fs[j].optional && x is Null),
            None => fs[j].optional,
        })
}

/// Checks one value against one field type.
pub fn value_matches(v: &Json, t: &ArgType) -> (r: bool)
    ensures
        r == spec_value_matches(v.deep_view(), t.deep_view()),
    decreases *t, 1int,
{
    match t {
        ArgType::Str => {
            let r = matches!(v, Json::Str(_));
            proof {
                assert(r == spec_value_matches(v.deep_view(), t.deep_view()));
            }
            r
        },
        ArgType::Int => {
            let r = matches!(v, Json::Int(_));
            proof {
                assert(r == spec_value_matches(v.deep_view(), t.deep_view()));
            }
            r
        },
        ArgType::Num => {
            let r = matches!(v, Json::Int(_));
            proof {
                assert(r == spec_value_matches(v.deep_view(), t.deep_view()));
            }
            r
        },
        ArgType::Bool => {
            let r = matches!(v, Json::Bool(_));
            proof {
                assert(r == spec_value_matches(v.deep_view(), t.deep_view()));
            }
            r
        },
        ArgType::List(inner) => {
            match v {
                Json::Arr(items) => {
                    proof {
                        crate::json::lemma_jview_seq_len(items@);
                    }
                    let n = items.len();
                    let mut k: usize = 0;
                    let mut ok = true;
                    while k < n
                        invariant
                            n == items@.len(),
                            k <= n,
                            jview_seq(items@).len() == n,
                            *v == Json::Arr(*items),
                            *t == ArgType::List(*inner),
                            ok == (forall|x: int|
                                0 <= x < k ==> spec_value_matches(
                                    #[trigger] jview_seq(items@)[x],
                                    aview(**inner),
                                )),
                        decreases n - k,
                    {
                        proof {
                            crate::json::lemma_jview_seq_index(items@, k as int);
                            assert(decreases_to!(*t => (*t)->List_0));
                        }
                        let m = value_matches(&items[k], inner);
                        proof {
                            if !m {
                                assert(!spec_value_matches(jview_seq(items@)[k as int], aview(
                                    **inner,
                                )));
                            }
                        }
                        ok = ok && m;
                        k = k + 1;
                    }
                    proof {
                        assert(v.deep_view() == JsonVal::Arr(jview_seq(items@)));
                        assert(t.deep_view() == ArgTypeV::List(Box::new(aview(**inner))));
                        let bx = t.deep_view()->List_0;
                        assert(*bx == aview(**inner));
                        if ok {
                            assert forall|x: int| 0 <= x < v.deep_view()->Arr_0.len()
                                implies spec_value_matches(
                                #[trigger] v.deep_view()->Arr_0[x],
                                *bx,
                            ) by {
                                assert(v.deep_view()->Arr_0[x] == jview_seq(items@)[x]);
                                assert(spec_value_matches(jview_seq(items@)[x], aview(**inner)));
                            }
                        } else {
                            let x0 = choose|x: int|
                                0 <= x < n && !spec_value_matches(
                                    #[trigger] jview_seq(items@)[x],
                                    aview(**inner),
                                );
                            assert(!spec_value_matches(v.deep_view()->Arr_0[x0], *bx));
                        }
                        assert(ok == spec_value_matches(v.deep_view(), t.deep_view()));
                    }
                    ok
                },
                _ => {
                    proof {
                        assert(!spec_value_matches(v.deep_view(), t.deep_view()));
                    }
                    false
                },
            }
        },
        ArgType::Record(fs) => {
            proof {
                assert(decreases_to!(*t => (*t)->Record_0));
            }
            let r = args_conform(fs, v);
            proof {
                lemma_fview_seq_len(fs@);
                assert forall|k: int| 0 <= k < fs@.len() implies #[trigger] fview_seq(fs@)[k]
                    == fview(fs@[k]) by {
                    lemma_fview_seq_index(fs@, k);
                }
                assert(fs.deep_view() =~= fview_seq(fs@));
            }
            r
        },
    }
}

/// Checks incoming tool arguments against the field list, as a typed
/// handler's deserialisation would.
pub fn args_conform(fields: &Vec<ArgField>, v: &Json) -> (r: bool)
    ensures
        r == spec_args_conform(fields.deep_view(), v.deep_view()),
    decreases fields@, 2int,
{
    proof {
        lemma_fview_seq_len(fields@);
        assert forall|k: int| 0 <= k < fields@.len() implies #[trigger] fview_seq(fields@)[k]
            == fview(fields@[k]) by {
            lemma_fview_seq_index(fields@, k);
        }
        assert(fields.deep_view() =~= fview_seq(fields@));
    }
    let members = match v {
        Json::Obj(ms) => ms,
        _ => {
            return false;
        },
    };
    let n = fields.len();
    let mut j: usize = 0;
    let mut ok = true;
    while j < n
        invariant
            n == fields@.len(),
            j <= n,
            fields.deep_view() == fview_seq(fields@),
            fview_seq(fields@).len() == n,
            *v == Json::Obj(*members),
            v.deep_view() == JsonVal::Obj(jview_members(members@)),
            forall|k: int| 0 <= k < n ==> #[trigger] fview_seq(fields@)[k] == fview(fields@[k]),
            ok == (forall|x: int|
                0 <= x < j && !(#[trigger] fview_seq(fields@)[x]).skip ==> match lookup(
                    jview_members(members@),
                    eff_name(fview_seq(fields@)[x]),
                ) {
                    Some(y) => spec_value_matches(y, fview_seq(fields@)[x].ty) || (fview_seq(
                        fields@,
                    )[x].optional && y is Null),
                    None => fview_seq(fields@)[x].optional,
                }),
        decreases n - j,
    {
        let f = &fields[j];
        let mut this_ok = true;
        if !f.skip {
            let wire_name = match &f.rename {
                Some(r) => r.as_str(),
                None => f.name.as_str(),
            };
            proof {
                assert(wire_name@ == eff_name(fview_seq(fields@)[j as int]));
                assert(decreases_to!(fields@ => fields@[j as int]));
                assert(decreases_to!(fields@[j as int] => fields@[j as int].ty));
            }
            match obj_get(members, wire_name) {
                Some(x) => {
                    let m = value_matches(x, &f.ty);
                    let is_null = matches!(x, Json::Null);
                    this_ok = m || (f.optional && is_null);
                },
                None => {
                    this_ok = f.optional;
                },
            }
        }
        ok = ok && this_ok;
        j = j + 1;
    }
    proof {
        if ok {
            assert(spec_args_conform(fields.deep_view(), v.deep_view()));
        } else {
            assert(!spec_args_conform(fields.deep_view(), v.deep_view()));
        }
    }
    ok
}

// --- Describing why arguments do not conform ---

/// The schema name of a JSON value's kind.
pub open spec fn spec_kind_name(v: JsonVal) -> Seq<char> {
    match v {
        JsonVal::Null => "null"@,
        JsonVal::Bool(_) => "boolean"@,
        JsonVal::Int(_) => "integer"@,
        JsonVal::Str(_) => "string"@,
        JsonVal::Arr(_) => "array"@,
        JsonVal::Obj(_) => "object"@,
    }
}

/// The schema name of a field type.
pub open spec fn spec_type_name(t: ArgTypeV) -> Seq<char> {
    match t {
        ArgTypeV::Str => "string"@,
        ArgTypeV::Int => "integer"@,
        ArgTypeV::Num => "number"@,
        ArgTypeV::Bool => "boolean"@,
        ArgTypeV::List(_) => "array"@,
        ArgTypeV::Record(_) => "object"@,
    }
}

/// Whether one field fails against the members of the arguments object.
pub open spec fn spec_field_fails(ms: Seq<(Seq<char>, JsonVal)>, f: ArgFieldV) -> bool {
    match lookup(ms, eff_name(f)) {
        None => !f.optional,
        Some(x) => !(spec_value_matches(x, f.ty) || (f.optional && x is Null)),
    }
}

/// What went wrong with one field: the field is missing, or its value has
/// the wrong kind.
pub open spec fn spec_field_error(ms: Seq<(Seq<char>, JsonVal)>, f: ArgFieldV) -> Seq<char> {
    match lookup(ms, eff_name(f)) {
        None => "missing field `"@ + eff_name(f) + "`"@,
        Some(x) => "invalid type for field `"@ + eff_name(f) + "`: expected "@ + spec_type_name(
            f.ty,
        ) + ", got "@ + spec_kind_name(x),
    }
}

/// The description of the first failure of the arguments against the
/// field list; empty where the arguments conform.
pub open spec fn spec_args_error(fs: Seq<ArgFieldV>, v: JsonVal) -> Seq<char>
    decreases fs,
{
    if !(v is Obj) {
        "arguments are not an object"@
    } else if fs.len() == 0 {
        Seq::empty()
    } else if !fs[0].skip && spec_field_fails(v->Obj_0, fs[0]) {
        spec_field_error(v->Obj_0, fs[0])
    } else {
        spec_args_error(fs.drop_first(), v)
    }
}

fn field_type_name(t: &ArgType) -> (r: &'static str)
    ensures
        r@ == spec_type_name(t.deep_view()),
{
    match t {
        ArgType::Str => "string",
        ArgType::Int => "integer",
        ArgType::Num => "number",
        ArgType::Bool => "boolean",
        ArgType::List(_) => "array",
        ArgType::Record(_) => "object",
    }
}

fn kind_name(v: &Json) -> (r: &'static str)
    ensures
        r@ == spec_kind_name(v.deep_view()),
{
    match v {
        Json::Null => "null",
        Json::Bool(_) => "boolean",
        Json::Int(_) => "integer",
        Json::Str(_) => "string",
        Json::Arr(_) => "array",
        Json::Obj(_) => "object",
    }
}

/// Describes the first reason the arguments fail to deserialise against
/// the field list: the missing field, or the field whose value has the
/// wrong kind.
pub fn args_error(fields: &Vec<ArgField>, v: &Json) -> (out: String)
    ensures
        out@ == spec_args_error(fields.deep_view(), v.deep_view()),
{
    proof {
        lemma_fview_seq_len(fields@);
        assert forall|k: int| 0 <= k < fields@.len() implies #[trigger] fview_seq(fields@)[k]
            == fview(fields@[k]) by {
            lemma_fview_seq_index(fields@, k);
        }
        assert(fields.deep_view() =~= fview_seq(fields@));
    }
    let members = match v {
        Json::Obj(ms) => ms,
        _ => {
            return "arguments are not an object".to_owned();
        },
    };
    let ghost fv = fview_seq(fields@);
    let n = fields.len();
    let mut j: usize = 0;
    proof {
        assert(fv.skip(0) =~= fv);
    }
    while j < n
        invariant
            n == fields@.len(),
            j <= n,
            fv == fview_seq(fields@),
            fields.deep_view() == fv,
            fv.len() == n,
            *v == Json::Obj(*members),
            v.deep_view() == JsonVal::Obj(jview_members(members@)),
            forall|k: int| 0 <= k < n ==> #[trigger] fv[k] == fview(fields@[k]),
            spec_args_error(fields.deep_view(), v.deep_view()) == spec_args_error(
                fv.skip(j as int),
                v.deep_view(),
            ),
        decreases n - j,
    {
        let f = &fields[j];
        proof {
            assert(fv.skip(j as int)[0] == fv[j as int]);
            assert(fv.skip(j as int).drop_first() =~= fv.skip(j + 1));
        }
        if !f.skip {
            let wire_name = match &f.rename {
                Some(r) => r.as_str(),
                None => f.name.as_str(),
            };
            proof {
                assert(wire_name@ == eff_name(fv[j as int]));
            }
            match obj_get(members, wire_name) {
                None => {
                    if !f.optional {
                        let mut out = "missing field `".to_owned();
                        out.append(wire_name);
                        out.append("`");
                        proof {
                            assert(spec_field_fails(
                                jview_members(members@),
                                fv[j as int],
                            ));
                            assert(out@ =~= spec_field_error(
                                jview_members(members@),
                                fv[j as int],
                            ));
                        }
                        return out;
                    }
                },
                Some(x) => {
                    let m = value_matches(x, &f.ty);
                    let is_null = matches!(x, Json::Null);
                    if !(m || (f.optional && is_null)) {
                        let mut out = "invalid type for field `".to_owned();
                        out.append(wire_name);
                        out.append("`: expected ");
                        out.append(field_type_name(&f.ty));
                        out.append(", got ");
                        out.append(kind_name(x));
                        proof {
                            assert(spec_field_fails(
                                jview_members(members@),
                                fv[j as int],
                            ));
                            assert(out@ =~= spec_field_error(
                                jview_members(members@),
                                fv[j as int],
                            ));
                        }
                        return out;
                    }
                },
            }
        }
        j = j + 1;
    }
    proof {
        assert(fv.skip(n as int) =~= Seq::<ArgFieldV>::empty());
    }
    String::new()
}

impl Tool {
    /// A tool whose argument schema is derived from the given field list.
    pub fn from_args(name: String, description: Option<String>, fields: &Vec<ArgField>) -> (t:
        Tool)
        ensures
            t.deep_view().name == name@,
            t.deep_view().description == description.deep_view(),
            t.deep_view().input_schema == spec_schema_of(fields.deep_view()),
            t.deep_view().annotations is None,
    {
        let input_schema = derive_schema(fields);
        Tool { name, description, input_schema, annotations: None }
    }
}

} // verus!
