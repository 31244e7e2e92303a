use vstd::prelude::*;

use crate::casing::push_char;

verus! {

/// The shape of a parameter's declared type, as far as the lifetime rewrite
/// needs to see it. Text held here is the type's source text.
pub enum TypeShape {
    /// A reference `&T`, `&mut T`, `&'l T` or `&'l mut T`; `elem` is the text of `T`.
    Reference { lifetime: Option<String>, mutable: bool, elem: String },
    /// A tuple of types, `(A, B, ...)`.
    Tuple(Vec<TypeShape>),
    /// Any other type, kept as its text.
    Other(String),
}

/// The mathematical model of a [`TypeShape`].
pub enum TypeModel {
    Reference { lifetime: Option<Seq<char>>, mutable: bool, elem: Seq<char> },
    Tuple(Seq<TypeModel>),
    Other(Seq<char>),
}

/// The model of an optional text.
pub open spec fn opt_view(o: Option<String>) -> Option<Seq<char>> {
    match o {
        Some(s) => Some(s@),
        None => None,
    }
}

/// The model of one type.
pub open spec fn shape_model(t: TypeShape) -> TypeModel
    decreases t,
{
    match t {
        TypeShape::Reference { lifetime, mutable, elem } => TypeModel::Reference {
            lifetime: opt_view(lifetime),
            mutable,
            elem: elem@,
        },
        TypeShape::Tuple(elems) => TypeModel::Tuple(shapes_model(elems@)),
        TypeShape::Other(text) => TypeModel::Other(text@),
    }
}

/// The models of a sequence of types, element by element.
pub open spec fn shapes_model(s: Seq<TypeShape>) -> Seq<TypeModel>
    decreases s,
{
    if s.len() == 0 {
        Seq::empty()
    } else {
        shapes_model(s.subrange(0, s.len() - 1)).push(shape_model(s[s.len() - 1]))
    }
}

/// [`shapes_model`] keeps the length and models each element.
pub proof fn lemma_shapes_model(s: Seq<TypeShape>)
    ensures
        shapes_model(s).len() == s.len(),
        forall|i: int| 0 <= i < s.len() ==> #[trigger] shapes_model(s)[i] == shape_model(s[i]),
    decreases s.len(),
{
    if s.len() > 0 {
        let init = s.subrange(0, s.len() - 1);
        lemma_shapes_model(init);
        assert forall|i: int| 0 <= i < s.len() implies #[trigger] shapes_model(s)[i] == shape_model(
            s[i],
        ) by {
            if i < s.len() - 1 {
                assert(init[i] == s[i]);
            }
        }
    }
}

impl View for TypeShape {
    type V = TypeModel;

    open spec fn view(&self) -> TypeModel {
        shape_model(*self)
    }
}

/// Why a function cannot be rewritten.
#[derive(PartialEq, Eq, Structural, Debug, Clone, Copy)]
pub enum TransformError {
    /// The function takes a `self` receiver.
    SelfReceiver,
    /// A parameter's type holds a reference that already names a lifetime.
    ExplicitLifetime,
}

/// The lifetime that the rewrite gives to every unannotated reference: `'a`.
pub open spec fn injected_lifetime() -> Seq<char> {
    seq!['\'', 'a']
}

/// The type with every reference that is not inside another reference given
/// the lifetime `'a`, through nested tuples; any other type is left unchanged.
pub open spec fn normalized(t: TypeModel) -> TypeModel
    decreases t,
{
    match t {
        TypeModel::Reference { lifetime: _, mutable, elem } => TypeModel::Reference {
            lifetime: Some(injected_lifetime()),
            mutable,
            elem,
        },
        TypeModel::Tuple(elems) => TypeModel::Tuple(normalized_all(elems)),
        TypeModel::Other(text) => TypeModel::Other(text),
    }
}

/// [`normalized`] applied to each element.
pub open spec fn normalized_all(s: Seq<TypeModel>) -> Seq<TypeModel>
    decreases s,
{
    if s.len() == 0 {
        Seq::empty()
    } else {
        normalized_all(s.subrange(0, s.len() - 1)).push(normalized(s[s.len() - 1]))
    }
}

/// [`normalized_all`] keeps the length and rewrites each element.
pub proof fn lemma_normalized_all(s: Seq<TypeModel>)
    ensures
        normalized_all(s).len() == s.len(),
        forall|i: int| 0 <= i < s.len() ==> #[trigger] normalized_all(s)[i] == normalized(s[i]),
    decreases s.len(),
{
    if s.len() > 0 {
        let init = s.subrange(0, s.len() - 1);
        lemma_normalized_all(init);
        assert forall|i: int| 0 <= i < s.len() implies #[trigger] normalized_all(s)[i]
            == normalized(s[i]) by {
            if i < s.len() - 1 {
                assert(init[i] == s[i]);
            }
        }
    }
}

/// Whether the type is a reference, or a tuple that holds one, at any depth
/// of tuple nesting.
pub open spec fn has_reference(t: TypeModel) -> bool
    decreases t,
{
    match t {
        TypeModel::Reference { .. } => true,
        TypeModel::Tuple(elems) => any_has_reference(elems),
        TypeModel::Other(_) => false,
    }
}

/// Whether some element satisfies [`has_reference`].
pub open spec fn any_has_reference(s: Seq<TypeModel>) -> bool
    decreases s,
{
    s.len() > 0 && (any_has_reference(s.subrange(0, s.len() - 1)) || has_reference(
        s[s.len() - 1],
    ))
}

/// Whether a reference that the rewrite would reach already names a lifetime.
pub open spec fn has_explicit_lifetime(t: TypeModel) -> bool
    decreases t,
{
    match t {
        TypeModel::Reference { lifetime, .. } => lifetime is Some,
        TypeModel::Tuple(elems) => any_has_explicit_lifetime(elems),
        TypeModel::Other(_) => false,
    }
}

/// Whether some element satisfies [`has_explicit_lifetime`].
pub open spec fn any_has_explicit_lifetime(s: Seq<TypeModel>) -> bool
    decreases s,
{
    s.len() > 0 && (any_has_explicit_lifetime(s.subrange(0, s.len() - 1))
        || has_explicit_lifetime(s[s.len() - 1]))
}

/// [`any_has_reference`] holds exactly when some element has a reference.
pub proof fn lemma_any_has_reference(s: Seq<TypeModel>)
    ensures
        any_has_reference(s) <==> exists|i: int| 0 <= i < s.len() && #[trigger] has_reference(s[i]),
    decreases s.len(),
{
    if s.len() > 0 {
        let init = s.subrange(0, s.len() - 1);
        lemma_any_has_reference(init);
        if any_has_reference(init) {
            let i = choose|i: int| 0 <= i < init.len() && #[trigger] has_reference(init[i]);
            assert(has_reference(s[i]));
        }
        if exists|i: int| 0 <= i < s.len() && #[trigger] has_reference(s[i]) {
            let i = choose|i: int| 0 <= i < s.len() && #[trigger] has_reference(s[i]);
            if i < s.len() - 1 {
                assert(has_reference(init[i]));
            }
        }
        assert(any_has_reference(s) == (any_has_reference(init) || has_reference(s[s.len() - 1])));
    }
}

/// [`any_has_explicit_lifetime`] holds exactly when some element has an
/// explicit lifetime.
pub proof fn lemma_any_has_explicit_lifetime(s: Seq<TypeModel>)
    ensures
        any_has_explicit_lifetime(s) <==> exists|i: int|
            0 <= i < s.len() && #[trigger] has_explicit_lifetime(s[i]),
    decreases s.len(),
{
    if s.len() > 0 {
        let init = s.subrange(0, s.len() - 1);
        lemma_any_has_explicit_lifetime(init);
        if any_has_explicit_lifetime(init) {
            let i = choose|i: int| 0 <= i < init.len() && #[trigger] has_explicit_lifetime(init[i]);
            assert(has_explicit_lifetime(s[i]));
        }
        if exists|i: int| 0 <= i < s.len() && #[trigger] has_explicit_lifetime(s[i]) {
            let i = choose|i: int| 0 <= i < s.len() && #[trigger] has_explicit_lifetime(s[i]);
            if i < s.len() - 1 {
                assert(has_explicit_lifetime(init[i]));
            }
        }
        assert(any_has_explicit_lifetime(s) == (any_has_explicit_lifetime(init) || has_explicit_lifetime(s[s.len() - 1])));
    }
}

/// A copy of `s`.
pub(crate) fn copy_text(s: &String) -> (r: String)
    ensures
        r@ == s@,
{
    s.clone()
}

/// The type with `'a` given to its references (see [`normalized`]), and
/// whether there was any.
pub fn lifetime_adjusted(ty: &TypeShape) -> (r: Result<(TypeShape, bool), TransformError>)
    ensures
        has_explicit_lifetime(ty@) <==> r is Err,
        r is Err ==> r == Err::<(TypeShape, bool), TransformError>(
            TransformError::ExplicitLifetime,
        ),
        r matches Ok((t, adjusted)) ==> t@ == normalized(ty@) && adjusted == has_reference(ty@),
    decreases ty,
{
    match ty {
        TypeShape::Reference { lifetime, mutable, elem } => {
            if lifetime.is_some() {
                return Err(TransformError::ExplicitLifetime);
            }
            let a = String::from_str("'a");
            proof {
                reveal_strlit("'a");
                assert(a@ =~= injected_lifetime());
            }
            let t = TypeShape::Reference { lifetime: Some(a), mutable: *mutable, elem: copy_text(elem) };
            assert(t@ == normalized(ty@));
            Ok((t, true))
        },
        TypeShape::Tuple(elems) => {
            proof {
                lemma_shapes_model(elems@);
            }
            let mut out: Vec<TypeShape> = Vec::new();
            let mut did_adjust = false;
            let mut i: usize = 0;
            while i < elems.len()
                invariant
                    *ty == TypeShape::Tuple(*elems),
                    i <= elems@.len(),
                    out@.len() == i,
                    forall|j: int| 0 <= j < i ==> (#[trigger] out@[j])@ == normalized(elems@[j]@),
                    forall|j: int| 0 <= j < i ==> !has_explicit_lifetime(#[trigger] elems@[j]@),
                    did_adjust <==> exists|j: int| 0 <= j < i && has_reference(#[trigger] elems@[j]@),
                decreases elems@.len() - i,
            {
                proof {
                    assert(decreases_to!(*ty => *elems));
                    assert(decreases_to!(*elems => elems@));
                    assert(decreases_to!(elems@ => elems@[i as int]));
                }
                match lifetime_adjusted(&elems[i]) {
                    Err(e) => {
                        proof {
                            lemma_shapes_model(elems@);
                            let m = shapes_model(elems@);
                            assert(ty@ == TypeModel::Tuple(m));
                            assert(has_explicit_lifetime(m[i as int]));
                            lemma_any_has_explicit_lifetime(m);
                        }
                        return Err(e);
                    },
                    Ok((t, adjusted)) => {
                        out.push(t);
                        if adjusted {
                            did_adjust = true;
                        }
                    },
                }
                i = i + 1;
            }
            let t = TypeShape::Tuple(out);
            proof {
                lemma_shapes_model(out@);
                lemma_normalized_all(ty@->Tuple_0);
                assert(t@->Tuple_0 =~= normalized(ty@)->Tuple_0);
                lemma_any_has_reference(ty@->Tuple_0);
                lemma_any_has_explicit_lifetime(ty@->Tuple_0);
                if has_reference(ty@) {
                    let j = choose|j: int|
                        0 <= j < ty@->Tuple_0.len() && has_reference(#[trigger] ty@->Tuple_0[j]);
                    assert(has_reference(elems@[j]@));
                }
                if did_adjust {
                    let j = choose|j: int| 0 <= j < elems@.len() && has_reference(#[trigger] elems@[j]@);
                    assert(has_reference(ty@->Tuple_0[j]));
                }
                if has_explicit_lifetime(ty@) {
                    let j = choose|j: int|
                        0 <= j < ty@->Tuple_0.len() && has_explicit_lifetime(
                            #[trigger] ty@->Tuple_0[j],
                        );
                    assert(!has_explicit_lifetime(elems@[j]@));
                }
            }
            Ok((t, did_adjust))
        },
        TypeShape::Other(text) => {
            let t = TypeShape::Other(copy_text(text));
            Ok((t, false))
        },
    }
}

/// Gives the lifetime `'a` to each reference in the parameter type `ty` (see
/// [`normalized`]) and tells whether there was any; an explicit lifetime is
/// refused.
pub fn replace_lifetimes_with_a(ty: &mut TypeShape) -> (r: Result<bool, TransformError>)
    ensures
        has_explicit_lifetime(old(ty)@) <==> r is Err,
        r is Err ==> r == Err::<bool, TransformError>(TransformError::ExplicitLifetime)
            && *final(ty) == *old(ty),
        r matches Ok(adjusted) ==> final(ty)@ == normalized(old(ty)@)
            && adjusted == has_reference(old(ty)@),
{
    match lifetime_adjusted(ty) {
        Ok((t, adjusted)) => {
            *ty = t;
            Ok(adjusted)
        },
        Err(e) => Err(e),
    }
}

/// Whether a reference that the rewrite reaches names the lifetime `'a`.
pub open spec fn uses_injected_lifetime(t: TypeModel) -> bool
    decreases t,
{
    match t {
        TypeModel::Reference { lifetime, .. } => lifetime == Some(injected_lifetime()),
        TypeModel::Tuple(elems) => any_uses_injected_lifetime(elems),
        TypeModel::Other(_) => false,
    }
}

/// Whether some element satisfies [`uses_injected_lifetime`].
pub open spec fn any_uses_injected_lifetime(s: Seq<TypeModel>) -> bool
    decreases s,
{
    s.len() > 0 && (any_uses_injected_lifetime(s.subrange(0, s.len() - 1))
        || uses_injected_lifetime(s[s.len() - 1]))
}

/// After the rewrite a type uses `'a` exactly when it held a reference.
pub proof fn lemma_normalized_uses_lifetime(t: TypeModel)
    ensures
        uses_injected_lifetime(normalized(t)) == has_reference(t),
    decreases t,
{
    if let TypeModel::Tuple(elems) = t {
        lemma_normalized_all_uses_lifetime(elems);
    }
}

/// [`lemma_normalized_uses_lifetime`], element by element.
pub proof fn lemma_normalized_all_uses_lifetime(s: Seq<TypeModel>)
    ensures
        any_uses_injected_lifetime(normalized_all(s)) == any_has_reference(s),
    decreases s,
{
    if s.len() > 0 {
        let init = s.subrange(0, s.len() - 1);
        let n = normalized_all(s);
        lemma_normalized_all(init);
        lemma_normalized_all(s);
        assert(n.subrange(0, n.len() - 1) =~= normalized_all(init));
        lemma_normalized_all_uses_lifetime(init);
        lemma_normalized_uses_lifetime(s[s.len() - 1]);
    }
}

/// The source text of a type: a reference as `&`, its lifetime and a space if
/// it has one, `mut ` if it is mutable, then the referenced type; a tuple as
/// its elements between parentheses, separated by `, `, with a trailing comma
/// when there is exactly one; any other type as its own text.
pub open spec fn rendered(t: TypeModel) -> Seq<char>
    decreases t,
{
    match t {
        TypeModel::Reference { lifetime, mutable, elem } => {
            let lt = match lifetime {
                Some(l) => l + seq![' '],
                None => Seq::empty(),
            };
            let m = if mutable {
                seq!['m', 'u', 't', ' ']
            } else {
                Seq::empty()
            };
            seq!['&'] + lt + m + elem
        },
        TypeModel::Tuple(elems) => {
            let trailing = if elems.len() == 1 {
                seq![',']
            } else {
                Seq::empty()
            };
            seq!['('] + rendered_list(elems) + trailing + seq![')']
        },
        TypeModel::Other(text) => text,
    }
}

/// The texts of the types, separated by `, `.
pub open spec fn rendered_list(s: Seq<TypeModel>) -> Seq<char>
    decreases s,
{
    if s.len() == 0 {
        Seq::empty()
    } else if s.len() == 1 {
        rendered(s[0])
    } else {
        rendered_list(s.subrange(0, s.len() - 1)) + seq![',', ' '] + rendered(s[s.len() - 1])
    }
}

/// Appends `s` to `out`.
pub(crate) fn append_string(out: &mut String, s: &String)
    ensures
        final(out)@ == old(out)@ + s@,
{
    out.append(s.as_str());
}

/// Appends the source text of `ty` (see [`rendered`]) to `out`.
pub fn render_type_into(out: &mut String, ty: &TypeShape)
    ensures
        final(out)@ == old(out)@ + rendered(ty@),
    decreases ty,
{
    let ghost start = out@;
    match ty {
        TypeShape::Reference { lifetime, mutable, elem } => {
            push_char(out, '&');
            match lifetime {
                Some(l) => {
                    append_string(out, l);
                    push_char(out, ' ');
                },
                None => {},
            }
            if *mutable {
                push_char(out, 'm');
                push_char(out, 'u');
                push_char(out, 't');
                push_char(out, ' ');
            }
            append_string(out, elem);
            assert(out@ =~= start + rendered(ty@));
        },
        TypeShape::Tuple(elems) => {
            proof {
                lemma_shapes_model(elems@);
            }
            let ghost m = ty@->Tuple_0;
            push_char(out, '(');
            let mut i: usize = 0;
            while i < elems.len()
                invariant
                    *ty == TypeShape::Tuple(*elems),
                    m == shapes_model(elems@),
                    m.len() == elems@.len(),
                    forall|j: int| 0 <= j < m.len() ==> #[trigger] m[j] == elems@[j]@,
                    i <= elems@.len(),
                    out@ == start + seq!['('] + rendered_list(m.subrange(0, i as int)),
                decreases elems@.len() - i,
            {
                proof {
                    assert(ty->Tuple_0 == *elems);
                    assert(decreases_to!(*ty => ty->Tuple_0));
                    assert(decreases_to!(*elems => elems@));
                    assert(decreases_to!(elems@ => elems@[i as int]));
                }
                let ghost before = out@;
                if i > 0 {
                    push_char(out, ',');
                    push_char(out, ' ');
                }
                render_type_into(out, &elems[i]);
                proof {
                    let next = m.subrange(0, i + 1);
                    assert(next.subrange(0, i as int) =~= m.subrange(0, i as int));
                    assert(next[i as int] == elems@[i as int]@);
                    if i == 0 {
                        assert(out@ =~= start + seq!['('] + rendered_list(next));
                    } else {
                        assert(out@ =~= start + seq!['('] + rendered_list(next));
                    }
                }
                i = i + 1;
            }
            assert(m.subrange(0, m.len() as int) =~= m);
            if elems.len() == 1 {
                push_char(out, ',');
            }
            push_char(out, ')');
            assert(out@ =~= start + rendered(ty@));
        },
        TypeShape::Other(text) => {
            append_string(out, text);
        },
    }
}

} // verus!
