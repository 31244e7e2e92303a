use vstd::prelude::*;

use crate::casing::{pascal, pascal_case};
use crate::types::{
    append_string, copy_text, has_explicit_lifetime, has_reference, lemma_normalized_uses_lifetime,
    lifetime_adjusted, normalized, render_type_into, rendered, uses_injected_lifetime,
    TransformError, TypeModel, TypeShape,
};

verus! {

/// One parameter of a function declaration.
pub enum FnInput {
    /// A `self` receiver, in any of its forms (`self`, `&self`, `mut self`, ...).
    Receiver,
    /// A parameter `name: Type` whose pattern is a plain identifier.
    Named { name: String, ty: TypeShape },
    /// A typed parameter whose pattern is not a plain identifier, such as
    /// `(a, b): (u8, u8)`; the rewrite passes over it.
    Destructured,
}

/// The mathematical model of a [`FnInput`].
pub enum InputModel {
    Receiver,
    Named { name: Seq<char>, ty: TypeModel },
    Destructured,
}

impl View for FnInput {
    type V = InputModel;

    open spec fn view(&self) -> InputModel {
        match self {
            FnInput::Receiver => InputModel::Receiver,
            FnInput::Named { name, ty } => InputModel::Named { name: name@, ty: ty@ },
            FnInput::Destructured => InputModel::Destructured,
        }
    }
}

/// One field of the generated record.
pub struct Field {
    pub name: String,
    pub ty: TypeShape,
}

impl View for Field {
    type V = (Seq<char>, TypeModel);

    open spec fn view(&self) -> (Seq<char>, TypeModel) {
        (self.name@, self.ty@)
    }
}

/// The generated record declaration: its name, whether it declares the
/// lifetime `'a`, and its fields in order.
pub struct RecordDecl {
    pub name: String,
    pub has_lifetime: bool,
    pub fields: Vec<Field>,
}

/// The mathematical model of a [`RecordDecl`].
pub struct RecordModel {
    pub name: Seq<char>,
    pub has_lifetime: bool,
    pub fields: Seq<(Seq<char>, TypeModel)>,
}

impl View for RecordDecl {
    type V = RecordModel;

    open spec fn view(&self) -> RecordModel {
        RecordModel {
            name: self.name@,
            has_lifetime: self.has_lifetime,
            fields: fields_model(self.fields@),
        }
    }
}

/// What the rewrite of one function produces: the record, the source text of
/// its declaration, and the source text of the single parameter that replaces
/// the function's parameter list.
pub struct Expansion {
    pub record: RecordDecl,
    pub record_text: String,
    pub param_text: String,
}

/// The models of the fields, in order.
pub open spec fn fields_model(fields: Seq<Field>) -> Seq<(Seq<char>, TypeModel)> {
    fields.map_values(|f: Field| f@)
}

/// The models of the inputs, in order.
pub open spec fn inputs_model(inputs: Seq<FnInput>) -> Seq<InputModel> {
    inputs.map_values(|x: FnInput| x@)
}

/// The name of the record generated for the function `fn_name`: its
/// PascalCase form followed by `Args`.
pub open spec fn record_name(fn_name: Seq<char>) -> Seq<char> {
    pascal(fn_name) + "Args"@
}

/// The error that a single input causes, if any.
pub open spec fn input_error(x: InputModel) -> Option<TransformError> {
    match x {
        InputModel::Receiver => Some(TransformError::SelfReceiver),
        InputModel::Named { ty, .. } => if has_explicit_lifetime(ty) {
            Some(TransformError::ExplicitLifetime)
        } else {
            None
        },
        InputModel::Destructured => None,
    }
}

/// The error of the first input that causes one, if any.
pub open spec fn first_error(s: Seq<InputModel>) -> Option<TransformError>
    decreases s.len(),
{
    if s.len() == 0 {
        None
    } else {
        match first_error(s.subrange(0, s.len() - 1)) {
            Some(e) => Some(e),
            None => input_error(s[s.len() - 1]),
        }
    }
}

/// One field per named input, in order: its name, and its type with `'a`
/// given to its references.
pub open spec fn record_fields(s: Seq<InputModel>) -> Seq<(Seq<char>, TypeModel)>
    decreases s.len(),
{
    if s.len() == 0 {
        Seq::empty()
    } else {
        let init = record_fields(s.subrange(0, s.len() - 1));
        match s[s.len() - 1] {
            InputModel::Named { name, ty } => init.push((name, normalized(ty))),
            _ => init,
        }
    }
}

/// Whether some named input's type holds a reference.
pub open spec fn needs_lifetime(s: Seq<InputModel>) -> bool
    decreases s.len(),
{
    if s.len() == 0 {
        false
    } else {
        needs_lifetime(s.subrange(0, s.len() - 1)) || match s[s.len() - 1] {
            InputModel::Named { ty, .. } => has_reference(ty),
            _ => false,
        }
    }
}

/// The record generated for the function `fn_name` with the given inputs.
pub open spec fn record_of(fn_name: Seq<char>, s: Seq<InputModel>) -> RecordModel {
    RecordModel {
        name: record_name(fn_name),
        has_lifetime: needs_lifetime(s),
        fields: record_fields(s),
    }
}

/// `name: Type`, for one field.
pub open spec fn field_text(f: (Seq<char>, TypeModel)) -> Seq<char> {
    f.0 + ": "@ + rendered(f.1)
}

/// The fields' texts, separated by `, `.
pub open spec fn fields_text(s: Seq<(Seq<char>, TypeModel)>) -> Seq<char>
    decreases s.len(),
{
    if s.len() == 0 {
        Seq::empty()
    } else if s.len() == 1 {
        field_text(s[0])
    } else {
        fields_text(s.subrange(0, s.len() - 1)) + ", "@ + field_text(s[s.len() - 1])
    }
}

/// The fields' names, separated by `, `.
pub open spec fn names_text(s: Seq<(Seq<char>, TypeModel)>) -> Seq<char>
    decreases s.len(),
{
    if s.len() == 0 {
        Seq::empty()
    } else if s.len() == 1 {
        s[0].0
    } else {
        names_text(s.subrange(0, s.len() - 1)) + ", "@ + s[s.len() - 1].0
    }
}

/// The source text of the record's declaration:
/// `struct Name<'a> { a: A, b: B }`, without `<'a>` when it declares no lifetime.
pub open spec fn record_text(r: RecordModel) -> Seq<char> {
    "struct "@ + r.name + (if r.has_lifetime {
        "<'a>"@
    } else {
        Seq::empty()
    }) + " { "@ + fields_text(r.fields) + " }"@
}

/// The source text of the parameter that destructures the record:
/// `Name { a, b }: Name`.
pub open spec fn param_text(r: RecordModel) -> Seq<char> {
    r.name + " { "@ + names_text(r.fields) + " }: "@ + r.name
}

proof fn lemma_needs_lifetime_fields(s: Seq<InputModel>)
    ensures
        needs_lifetime(s) <==> exists|j: int|
            0 <= j < record_fields(s).len() && uses_injected_lifetime(
                #[trigger] record_fields(s)[j].1,
            ),
    decreases s.len(),
{
    if s.len() > 0 {
        let init = s.subrange(0, s.len() - 1);
        let f = record_fields(s);
        let fi = record_fields(init);
        lemma_needs_lifetime_fields(init);
        assert(f.subrange(0, fi.len() as int) =~= fi);
        if needs_lifetime(init) {
            let j = choose|j: int| 0 <= j < fi.len() && uses_injected_lifetime(#[trigger] fi[j].1);
            assert(f[j] == fi[j]);
            assert(uses_injected_lifetime(f[j].1));
        }
        match s[s.len() - 1] {
            InputModel::Named { name, ty } => {
                lemma_normalized_uses_lifetime(ty);
                assert(f[f.len() - 1] == (name, normalized(ty)));
                assert(uses_injected_lifetime(f[f.len() - 1].1) == has_reference(ty));
                if exists|j: int| 0 <= j < f.len() && uses_injected_lifetime(#[trigger] f[j].1) {
                    let j = choose|j: int| 0 <= j < f.len() && uses_injected_lifetime(#[trigger] f[j].1);
                    if j < fi.len() {
                        assert(f[j] == fi[j]);
                    }
                }
            },
            _ => {
                assert(f == fi);
            },
        }
    }
}

/// The record declares the lifetime `'a` exactly when the type of one of its
/// fields uses it.
pub proof fn lemma_lifetime_declared_iff_used(fn_name: Seq<char>, s: Seq<InputModel>)
    ensures
        record_of(fn_name, s).has_lifetime <==> exists|j: int|
            0 <= j < record_of(fn_name, s).fields.len() && uses_injected_lifetime(
                #[trigger] record_of(fn_name, s).fields[j].1,
            ),
{
    let r = record_of(fn_name, s);
    let f = record_fields(s);
    lemma_needs_lifetime_fields(s);
    if r.has_lifetime {
        let j = choose|j: int| 0 <= j < f.len() && uses_injected_lifetime(#[trigger] f[j].1);
        assert(uses_injected_lifetime(r.fields[j].1));
    }
    if exists|j: int| 0 <= j < r.fields.len() && uses_injected_lifetime(#[trigger] r.fields[j].1) {
        let j = choose|j: int|
            0 <= j < r.fields.len() && uses_injected_lifetime(#[trigger] r.fields[j].1);
        assert(uses_injected_lifetime(f[j].1));
    }
}

/// How many of the inputs are named parameters.
pub open spec fn named_count(s: Seq<InputModel>) -> nat
    decreases s.len(),
{
    if s.len() == 0 {
        0
    } else {
        named_count(s.subrange(0, s.len() - 1)) + if s[s.len() - 1] is Named {
            1nat
        } else {
            0nat
        }
    }
}

/// How many named parameters come before position `i`.
pub open spec fn named_before(s: Seq<InputModel>, i: int) -> nat {
    named_count(s.subrange(0, i))
}

/// The record has exactly as many fields as there are named parameters.
pub proof fn lemma_field_count(fn_name: Seq<char>, s: Seq<InputModel>)
    ensures
        record_of(fn_name, s).fields.len() == named_count(s),
    decreases s.len(),
{
    if s.len() > 0 {
        lemma_field_count(fn_name, s.subrange(0, s.len() - 1));
    }
}

/// The named parameter at position `i` becomes the record's field at position
/// `named_before(s, i)`: same name, its type with `'a` given to its references.
/// With [`lemma_field_count`], fields and named parameters correspond one to
/// one, in the same order.
pub proof fn lemma_one_field_per_named_parameter(fn_name: Seq<char>, s: Seq<InputModel>, i: int)
    requires
        0 <= i < s.len(),
        s[i] is Named,
    ensures
        named_before(s, i) < record_of(fn_name, s).fields.len(),
        record_of(fn_name, s).fields[named_before(s, i) as int] == (
            s[i]->Named_name,
            normalized(s[i]->Named_ty),
        ),
    decreases s.len(),
{
    let init = s.subrange(0, s.len() - 1);
    lemma_field_count(fn_name, init);
    if i < s.len() - 1 {
        lemma_one_field_per_named_parameter(fn_name, init, i);
        assert(init[i] == s[i]);
        assert(init.subrange(0, i) =~= s.subrange(0, i));
    } else {
        assert(s.subrange(0, i) =~= init);
    }
}

proof fn lemma_first_error_prefix(s: Seq<InputModel>, k: int)
    requires
        0 <= k <= s.len(),
        first_error(s.subrange(0, k)) is Some,
    ensures
        first_error(s) == first_error(s.subrange(0, k)),
    decreases s.len() - k,
{
    if k < s.len() {
        let next = s.subrange(0, k + 1);
        assert(next.subrange(0, k) =~= s.subrange(0, k));
        lemma_first_error_prefix(s, k + 1);
    } else {
        assert(s.subrange(0, k) =~= s);
    }
}

/// Appends the fields' texts (see [`fields_text`]) to `out`.
fn render_fields_into(out: &mut String, fields: &Vec<Field>)
    ensures
        final(out)@ == old(out)@ + fields_text(fields_model(fields@)),
{
    let ghost start = out@;
    let ghost fm = fields_model(fields@);
    let mut i: usize = 0;
    while i < fields.len()
        invariant
            fm == fields_model(fields@),
            i <= fields@.len(),
            out@ == start + fields_text(fm.subrange(0, i as int)),
        decreases fields@.len() - i,
    {
        if i > 0 {
            out.append(", ");
        }
        append_string(out, &fields[i].name);
        out.append(": ");
        render_type_into(out, &fields[i].ty);
        proof {
            let next = fm.subrange(0, i + 1);
            assert(next.subrange(0, i as int) =~= fm.subrange(0, i as int));
            assert(next[i as int] == fields@[i as int]@);
            assert(out@ =~= start + fields_text(next));
        }
        i = i + 1;
    }
    assert(fm.subrange(0, fm.len() as int) =~= fm);
}

/// Appends the fields' names (see [`names_text`]) to `out`.
fn render_names_into(out: &mut String, fields: &Vec<Field>)
    ensures
        final(out)@ == old(out)@ + names_text(fields_model(fields@)),
{
    let ghost start = out@;
    let ghost fm = fields_model(fields@);
    let mut i: usize = 0;
    while i < fields.len()
        invariant
            fm == fields_model(fields@),
            i <= fields@.len(),
            out@ == start + names_text(fm.subrange(0, i as int)),
        decreases fields@.len() - i,
    {
        if i > 0 {
            out.append(", ");
        }
        append_string(out, &fields[i].name);
        proof {
            let next = fm.subrange(0, i + 1);
            assert(next.subrange(0, i as int) =~= fm.subrange(0, i as int));
            assert(next[i as int] == fields@[i as int]@);
            assert(out@ =~= start + names_text(next));
        }
        i = i + 1;
    }
    assert(fm.subrange(0, fm.len() as int) =~= fm);
}

/// The source text of the record's declaration (see [`record_text`]).
pub fn render_record(record: &RecordDecl) -> (r: String)
    ensures
        r@ == record_text(record@),
{
    let mut out = String::from_str("struct ");
    append_string(&mut out, &record.name);
    if record.has_lifetime {
        out.append("<'a>");
    }
    out.append(" { ");
    render_fields_into(&mut out, &record.fields);
    out.append(" }");
    assert(out@ =~= record_text(record@));
    out
}

/// The source text of the parameter that destructures the record (see
/// [`param_text`]).
pub fn render_param(record: &RecordDecl) -> (r: String)
    ensures
        r@ == param_text(record@),
{
    let mut out = copy_text(&record.name);
    out.append(" { ");
    render_names_into(&mut out, &record.fields);
    out.append(" }: ");
    append_string(&mut out, &record.name);
    assert(out@ =~= param_text(record@));
    out
}

/// Rewrites the function `fn_name` with parameters `inputs` to take a single
/// record: builds the record (one field per named parameter, in order, its
/// references given the lifetime `'a`, which the record declares exactly when
/// some field needed it) and the texts of its declaration and of the new
/// parameter. The first parameter that is a `self` receiver, or whose type
/// holds a reference with an explicit lifetime, makes the rewrite fail.
pub fn named_params(fn_name: &str, inputs: &Vec<FnInput>) -> (r: Result<Expansion, TransformError>)
    ensures
        match first_error(inputs_model(inputs@)) {
            Some(e) => r == Err::<Expansion, TransformError>(e),
            None => r is Ok,
        },
        r matches Ok(x) ==> {
            &&& x.record@ == record_of(fn_name@, inputs_model(inputs@))
            &&& x.record_text@ == record_text(x.record@)
            &&& x.param_text@ == param_text(x.record@)
        },
{
    let ghost im = inputs_model(inputs@);
    let mut fields: Vec<Field> = Vec::new();
    let mut did_adjust_lifetime = false;
    let mut i: usize = 0;
    while i < inputs.len()
        invariant
            im == inputs_model(inputs@),
            i <= inputs@.len(),
            first_error(im.subrange(0, i as int)) is None,
            fields_model(fields@) == record_fields(im.subrange(0, i as int)),
            did_adjust_lifetime == needs_lifetime(im.subrange(0, i as int)),
        decreases inputs@.len() - i,
    {
        let ghost next = im.subrange(0, i + 1);
        proof {
            assert(next.subrange(0, i as int) =~= im.subrange(0, i as int));
            assert(next[i as int] == inputs@[i as int]@);
        }
        match &inputs[i] {
            FnInput::Receiver => {
                proof {
                    lemma_first_error_prefix(im, i + 1);
                }
                return Err(TransformError::SelfReceiver);
            },
            FnInput::Named { name, ty } => {
                match lifetime_adjusted(ty) {
                    Err(e) => {
                        proof {
                            lemma_first_error_prefix(im, i + 1);
                        }
                        return Err(e);
                    },
                    Ok((t, adjusted)) => {
                        fields.push(Field { name: copy_text(name), ty: t });
                        if adjusted {
                            did_adjust_lifetime = true;
                        }
                        assert(fields_model(fields@) =~= record_fields(next));
                    },
                }
            },
            FnInput::Destructured => {
                assert(fields_model(fields@) =~= record_fields(next));
            },
        }
        i = i + 1;
    }
    assert(im.subrange(0, im.len() as int) =~= im);
    let mut name = pascal_case(fn_name);
    name.append("Args");
    let record = RecordDecl { name, has_lifetime: did_adjust_lifetime, fields };
    let record_text = render_record(&record);
    let param_text = render_param(&record);
    proof {
        assert(record@.fields =~= record_of(fn_name@, im).fields);
    }
    Ok(Expansion { record, record_text, param_text })
}

} // verus!
