use vstd::prelude::*;
use crate::datatypes::{Data, Value};

verus! {

/// im's persistent hash map, opaque here: what one holds is `bindings_of`.
#[verifier::external_type_specification]
#[verifier::external_body]
#[verifier::reject_recursive_types(K)]
#[verifier::reject_recursive_types(V)]
#[verifier::reject_recursive_types(S)]
pub struct ExHashMap<K, V, S>(im::HashMap<K, V, S>);

/// im's persistent vector, opaque here: what one holds is `frames_of`.
#[verifier::external_type_specification]
#[verifier::external_body]
#[verifier::reject_recursive_types(A)]
pub struct ExVector<A>(im::Vector<A>);

/// One scope: a map from names to values.
pub type Scope = im::HashMap<String, Data>;

/// The bindings that a scope map holds, by name.
pub uninterp spec fn bindings_of(m: Scope) -> Map<Seq<char>, Value>;

/// A stack of local scopes, innermost last.
pub type Frames = im::Vector<Scope>;

/// The bindings of each scope of a stack, innermost last.
pub uninterp spec fn frames_of(v: Frames) -> Seq<Map<Seq<char>, Value>>;

pub open spec fn no_frames() -> Seq<Map<Seq<char>, Value>> {
    Seq::empty()
}

pub open spec fn no_bindings() -> Map<Seq<char>, Value> {
    Map::empty()
}

/// Relies on im::HashMap::new: a new map holds no binding.
#[verifier::external_body]
pub(crate) fn scope_new() -> (r: Scope)
    ensures
        bindings_of(r) == no_bindings(),
{
    im::HashMap::new()
}

/// Relies on im::HashMap::insert: afterwards the key maps to the value, and
/// every other key is as before.
#[verifier::external_body]
pub(crate) fn scope_insert(m: &mut Scope, k: String, v: Data)
    ensures
        bindings_of(*final(m)) == bindings_of(*old(m)).insert(k@, v@),
{
    m.insert(k, v);
}

/// Relies on im::HashMap::get: the value bound to the key, if any.
#[verifier::external_body]
pub(crate) fn scope_get<'a>(m: &'a Scope, k: &String) -> (r: Option<&'a Data>)
    ensures
        r is Some == bindings_of(*m).contains_key(k@),
        r is Some ==> bindings_of(*m)[k@] == (*r->0)@,
{
    m.get(k)
}

/// Relies on im::HashMap::get_mut: the value bound to the key, for change in
/// place; what is written there becomes the key's value.
#[verifier::external_body]
pub(crate) fn scope_get_mut<'a>(m: &'a mut Scope, k: &String) -> (r: Option<&'a mut Data>)
    ensures
        r is Some == bindings_of(*old(m)).contains_key(k@),
        r is Some ==> bindings_of(*old(m))[k@] == (*r->0)@,
        r is Some ==> bindings_of(*final(m)) == bindings_of(*old(m)).insert(k@, (*final(r->0))@),
        r is None ==> bindings_of(*final(m)) == bindings_of(*old(m)),
{
    m.get_mut(k)
}

/// Relies on im::Vector::new: a new vector is empty.
#[verifier::external_body]
pub(crate) fn frames_new() -> (r: Frames)
    ensures
        frames_of(r) == no_frames(),
{
    im::Vector::new()
}

/// Relies on im::Vector::len: the number of elements.
#[verifier::external_body]
pub(crate) fn frames_len(v: &Frames) -> (r: usize)
    ensures
        r == frames_of(*v).len(),
{
    v.len()
}

/// Relies on im::Vector::get: the element at the index, if the index is in
/// bounds.
#[verifier::external_body]
pub(crate) fn frames_get<'a>(v: &'a Frames, i: usize) -> (r: Option<&'a Scope>)
    ensures
        r is Some == (i < frames_of(*v).len()),
        r is Some ==> bindings_of(*r->0) == frames_of(*v)[i as int],
{
    v.get(i)
}

/// Relies on im::Vector::get_mut: the element at the index, for change in
/// place; what is written there becomes that element.
#[verifier::external_body]
pub(crate) fn frames_get_mut<'a>(v: &'a mut Frames, i: usize) -> (r: Option<&'a mut Scope>)
    ensures
        r is Some == (i < frames_of(*old(v)).len()),
        r is Some ==> bindings_of(*r->0) == frames_of(*old(v))[i as int],
        r is Some ==> frames_of(*final(v)) == frames_of(*old(v)).update(
            i as int,
            bindings_of(*final(r->0)),
        ),
        r is None ==> frames_of(*final(v)) == frames_of(*old(v)),
{
    v.get_mut(i)
}

/// Relies on im::Vector::push_back: the element is appended.
#[verifier::external_body]
pub(crate) fn frames_push(v: &mut Frames, s: Scope)
    ensures
        frames_of(*final(v)) == frames_of(*old(v)).push(bindings_of(s)),
{
    v.push_back(s);
}

/// Relies on im::Vector::pop_back: the last element is removed and returned;
/// an empty vector stays empty.
#[verifier::external_body]
pub(crate) fn frames_pop(v: &mut Frames) -> (r: Option<Scope>)
    ensures
        frames_of(*old(v)).len() == 0 ==> r is None && frames_of(*final(v)) == frames_of(*old(v)),
        frames_of(*old(v)).len() > 0 ==> r is Some && bindings_of(r->0) == frames_of(*old(v)).last()
            && frames_of(*final(v)) == frames_of(*old(v)).drop_last(),
{
    v.pop_back()
}

} // verus!
