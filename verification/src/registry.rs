//! The connection registry: a bidirectional map between scout display
//! names and live connection handles, backed by `bimap`.

use vstd::prelude::*;

verus! {

/// Declares `bimap::BiHashMap` so that a registry can hold one.  Verus
/// sees nothing inside a value of it; the trusted wrappers below state
/// what each call does, over `registry_pairs`.
#[verifier::external_type_specification]
#[verifier::external_body]
#[verifier::reject_recursive_types(L)]
#[verifier::reject_recursive_types(R)]
#[verifier::reject_recursive_types(LS)]
#[verifier::reject_recursive_types(RS)]
pub struct ExBiHashMap<L, R, LS, RS>(bimap::BiHashMap<L, R, LS, RS>);

/// The backing table: scout display name on the left, connection handle
/// on the right.
pub type RegistryTable = bimap::BiMap<String, u64>;

/// The pairs that a name/handle bimap currently holds, read as a map from
/// name to handle.  The bimap keeps this map injective: a handle carries
/// at most one name.
pub uninterp spec fn registry_pairs(m: RegistryTable) -> Map<Seq<char>, u64>;

/// Relies on bimap::BiHashMap::new: a new bimap holds no pairs.
#[verifier::external_body]
fn bimap_new() -> (r: RegistryTable)
    ensures
        registry_pairs(r).dom() == Set::<Seq<char>>::empty(),
{
    bimap::BiMap::new()
}

/// Relies on bimap::BiHashMap::insert, which overwrites: any pair sharing
/// the name or the handle is removed, then the new pair is added.
#[verifier::external_body]
fn bimap_insert(m: &mut RegistryTable, name: String, id: u64)
    ensures
        registry_pairs(*final(m)) == Map::new(
            |k: Seq<char>|
                k == name@ || (registry_pairs(*old(m)).dom().contains(k) && k != name@
                    && registry_pairs(*old(m))[k] != id),
            |k: Seq<char>| if k == name@ { id } else { registry_pairs(*old(m))[k] },
        ),
{
    m.insert(name, id);
}

/// Relies on bimap::BiHashMap::get_by_left: `Some` exactly when the name
/// is present, carrying its handle.
#[verifier::external_body]
fn bimap_get_by_left(m: &RegistryTable, name: &String) -> (r: Option<u64>)
    ensures
        r == if registry_pairs(*m).dom().contains(name@) {
            Some(registry_pairs(*m)[name@])
        } else {
            None::<u64>
        },
{
    m.get_by_left(name).copied()
}

/// Relies on bimap::BiHashMap::remove_by_right: removes and returns the
/// pair carrying this handle, if one is present.
#[verifier::external_body]
fn bimap_remove_by_right(m: &mut RegistryTable, id: u64) -> (r: Option<String>)
    ensures
        r matches Some(n) ==> registry_pairs(*old(m)).dom().contains(n@) && registry_pairs(
            *old(m),
        )[n@] == id && registry_pairs(*final(m)) == registry_pairs(*old(m)).remove(n@),
        r is None ==> *final(m) == *old(m) && (forall|k: Seq<char>|
            registry_pairs(*old(m)).dom().contains(k) ==> registry_pairs(*old(m))[k] != id),
{
    m.remove_by_right(&id).map(|p| p.0)
}

/// Bidirectional lookup between scout display names and live connection
/// handles.  Re-registration under an existing name silently overwrites
/// (a reconnect without a clean disconnect wins), and a handle carries at
/// most one name.
pub struct ConnectionRegistry {
    map: RegistryTable,
}

impl View for ConnectionRegistry {
    type V = Map<Seq<char>, u64>;

    closed spec fn view(&self) -> Map<Seq<char>, u64> {
        registry_pairs(self.map)
    }
}

impl ConnectionRegistry {
    /// A registry with nobody connected.
    pub fn new() -> (r: ConnectionRegistry)
        ensures
            r@ == Map::<Seq<char>, u64>::empty(),
    {
        let r = ConnectionRegistry { map: bimap_new() };
        proof {
            assert(r@ =~= Map::<Seq<char>, u64>::empty());
        }
        r
    }

    /// Binds a name to a live connection handle.  An earlier binding of the
    /// same name, and an earlier name on the same handle, are dropped.
    pub fn register(&mut self, name: String, connection: u64)
        ensures
            final(self)@ == Map::new(
                |k: Seq<char>|
                    k == name@ || (old(self)@.dom().contains(k) && k != name@ && old(self)@[k]
                        != connection),
                |k: Seq<char>| if k == name@ { connection } else { old(self)@[k] },
            ),
            final(self)@.dom().contains(name@),
            final(self)@[name@] == connection,
    {
        bimap_insert(&mut self.map, name, connection);
        proof {
            assert(self@.dom().contains(name@));
        }
    }

    /// The connection handle bound to a name, if the scout is connected.
    pub fn resolve(&self, name: &String) -> (r: Option<u64>)
        ensures
            r == if self@.dom().contains(name@) {
                Some(self@[name@])
            } else {
                None::<u64>
            },
    {
        bimap_get_by_left(&self.map, name)
    }

    /// Drops whatever name is bound to a closed connection handle, and
    /// reports that name.  A handle nobody registered changes nothing.
    pub fn unregister(&mut self, connection: u64) -> (r: Option<String>)
        ensures
            r matches Some(n) ==> old(self)@.dom().contains(n@) && old(self)@[n@] == connection
                && final(self)@ == old(self)@.remove(n@),
            r is None ==> final(self)@ == old(self)@ && (forall|k: Seq<char>|
                old(self)@.dom().contains(k) ==> old(self)@[k] != connection),
    {
        bimap_remove_by_right(&mut self.map, connection)
    }
}

} // verus!
