use vstd::prelude::*;

verus! {

#[verifier::external_type_specification]
#[verifier::external_body]
#[verifier::reject_recursive_types(K)]
#[verifier::reject_recursive_types(V)]
#[verifier::reject_recursive_types(S)]
pub struct ExImHashMap<K, V, S>(im::HashMap<K, V, S>);

/// What a map from variable ids to their assigned names holds.
pub uninterp spec fn id_names(m: im::HashMap<u64, String>) -> Map<u64, Seq<char>>;

/// What a map from type names to the module first printed for them holds.
pub uninterp spec fn name_modules(m: im::HashMap<String, String>) -> Map<Seq<char>, Seq<char>>;

/// Relies on im::HashMap::new: the map starts empty.
#[verifier::external_body]
pub(crate) fn new_id_names() -> (r: im::HashMap<u64, String>)
    ensures
        id_names(r).dom().is_empty(),
{
    im::HashMap::new()
}

/// Relies on im::HashMap::get: the value stored under the key, if any.
#[verifier::external_body]
pub(crate) fn get_id_name(m: &im::HashMap<u64, String>, id: u64) -> (r: Option<String>)
    ensures
        r.is_some() == id_names(*m).contains_key(id),
        r matches Some(v) ==> v@ == id_names(*m)[id],
{
    m.get(&id).cloned()
}

/// Relies on im::HashMap::insert: the key now maps to the value, and the
/// other entries stay.
#[verifier::external_body]
pub(crate) fn insert_id_name(m: &mut im::HashMap<u64, String>, id: u64, v: String)
    ensures
        id_names(*final(m)) == id_names(*old(m)).insert(id, v@),
{
    let _ = m.insert(id, v);
}

/// Relies on im::HashMap::new: the map starts empty.
#[verifier::external_body]
pub(crate) fn new_name_modules() -> (r: im::HashMap<String, String>)
    ensures
        name_modules(r).dom().is_empty(),
{
    im::HashMap::new()
}

/// Relies on im::HashMap::get: the value stored under the key, if any.
#[verifier::external_body]
pub(crate) fn get_name_module(m: &im::HashMap<String, String>, k: &String) -> (r: Option<String>)
    ensures
        r.is_some() == name_modules(*m).contains_key(k@),
        r matches Some(v) ==> v@ == name_modules(*m)[k@],
{
    m.get(k).cloned()
}

/// Relies on im::HashMap::insert: the key now maps to the value, and the
/// other entries stay.
#[verifier::external_body]
pub(crate) fn insert_name_module(m: &mut im::HashMap<String, String>, k: String, v: String)
    ensures
        name_modules(*final(m)) == name_modules(*old(m)).insert(k@, v@),
{
    let _ = m.insert(k, v);
}

} // verus!
