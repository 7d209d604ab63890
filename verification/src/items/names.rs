//! Item names: which item has which name, one name for each item and one item for each name.
use vstd::prelude::*;

verus! {

/// A map between two kinds of values that can be read from either side.
#[verifier::external_type_specification]
#[verifier::external_body]
#[verifier::reject_recursive_types(L)]
#[verifier::reject_recursive_types(R)]
#[verifier::reject_recursive_types(LS)]
#[verifier::reject_recursive_types(RS)]
pub struct ExBiHashMap<L, R, LS, RS>(bimap::BiHashMap<L, R, LS, RS>);

/// The pairs that a two-sided map holds: the name of each item number in it.
pub uninterp spec fn pairs_of(map: bimap::BiHashMap<u32, String>) -> Map<u32, Seq<char>>;

/// No names at all.
pub open spec fn no_names() -> Map<u32, Seq<char>> {
    Map::empty()
}

/// `BiHashMap::new`: a map without pairs.
#[verifier::external_body]
fn bimap_new() -> (r: bimap::BiHashMap<u32, String>)
    ensures
        pairs_of(r) == no_names(),
{
    bimap::BiHashMap::new()
}

/// `BiHashMap::get_by_right`: the only item number that is paired with the name, if any is.
#[verifier::external_body]
fn bimap_get_by_right(map: &bimap::BiHashMap<u32, String>, name: &str) -> (r: Option<u32>)
    ensures
        match r {
            Some(id) => pairs_of(*map).contains_key(id) && pairs_of(*map)[id] == name@ && forall|
                k: u32,
            |
                #[trigger] pairs_of(*map).contains_key(k) && pairs_of(*map)[k] == name@ ==> k
                    == id,
            None => !has_name(pairs_of(*map), name@),
        },
{
    map.get_by_right(name).copied()
}

/// `BiHashMap::contains_left`: whether the item number is paired with a name.
#[verifier::external_body]
fn bimap_contains_left(map: &bimap::BiHashMap<u32, String>, id: u32) -> (r: bool)
    ensures
        r == pairs_of(*map).contains_key(id),
{
    map.contains_left(&id)
}

/// `BiHashMap::contains_right`: whether the name is paired with an item number.
#[verifier::external_body]
fn bimap_contains_right(map: &bimap::BiHashMap<u32, String>, name: &str) -> (r: bool)
    ensures
        r == has_name(pairs_of(*map), name@),
{
    map.contains_right(name)
}

/// `BiHashMap::insert`: adds the pair, in place of any pairs that have its item number or its
/// name.
#[verifier::external_body]
fn bimap_insert(map: &mut bimap::BiHashMap<u32, String>, id: u32, name: String)
    ensures
        pairs_of(*final(map)) == Map::new(
            |k: u32| k == id || (pairs_of(*old(map)).contains_key(k) && pairs_of(*old(map))[k]
                != name@),
            |k: u32|
                if k == id {
                    name@
                } else {
                    pairs_of(*old(map))[k]
                },
        ),
{
    let _ = map.insert(id, name);
}

/// `BiHashMap::iter`: every pair once, in an arbitrary order.
#[verifier::external_body]
fn bimap_pairs(map: &bimap::BiHashMap<u32, String>) -> (r: Vec<(u32, String)>)
    ensures
        forall|i: int, j: int|
            0 <= i < j < r@.len() ==> (#[trigger] r@[i]).0 != (#[trigger] r@[j]).0,
        forall|i: int|
            0 <= i < r@.len() ==> pairs_of(*map).contains_key((#[trigger] r@[i]).0)
                && pairs_of(*map)[r@[i].0] == r@[i].1@,
        forall|k: u32| #[trigger]
            pairs_of(*map).contains_key(k) ==> exists|i: int|
                0 <= i < r@.len() && (#[trigger] r@[i]).0 == k,
{
    map.iter().map(|(id, name)| (*id, name.clone())).collect()
}

/// Which item has which name.
pub struct ItemNames {
    pub map: bimap::BiHashMap<u32, String>,
}

impl View for ItemNames {
    type V = Map<u32, Seq<char>>;

    open spec fn view(&self) -> Map<u32, Seq<char>> {
        pairs_of(self.map)
    }
}

/// Whether no name belongs to two items.
pub open spec fn names_are_unique(names: Map<u32, Seq<char>>) -> bool {
    forall|a: u32, b: u32|
        #[trigger] names.contains_key(a) && #[trigger] names.contains_key(b) && names[a]
            == names[b] ==> a == b
}

/// Whether a name belongs to an item.
pub open spec fn has_name(names: Map<u32, Seq<char>>, name: Seq<char>) -> bool {
    exists|k: u32| #[trigger] names.contains_key(k) && names[k] == name
}

impl ItemNames {
    /// No names.
    pub fn new() -> (r: Self)
        ensures
            r@ == no_names(),
    {
        ItemNames { map: bimap_new() }
    }

    /// The item with a name.
    pub fn find(&self, name: &str) -> (r: Option<u32>)
        ensures
            match r {
                Some(id) => self@.contains_key(id) && self@[id] == name@ && forall|k: u32|
                    #[trigger] self@.contains_key(k) && self@[k] == name@ ==> k == id,
                None => !has_name(self@, name@),
            },
    {
        bimap_get_by_right(&self.map, name)
    }

    /// Whether an item or a name is known.
    pub fn knows(&self, id: u32, name: &str) -> (r: bool)
        ensures
            r == (self@.contains_key(id) || has_name(self@, name@)),
    {
        bimap_contains_left(&self.map, id) || bimap_contains_right(&self.map, name)
    }

    /// Names an item, where neither is known.
    pub fn insert(&mut self, id: u32, name: String)
        requires
            !old(self)@.contains_key(id),
            !has_name(old(self)@, name@),
        ensures
            final(self)@ == old(self)@.insert(id, name@),
            names_are_unique(old(self)@) ==> names_are_unique(final(self)@),
    {
        let ghost before = self@;
        let ghost text = name@;
        bimap_insert(&mut self.map, id, name);
        assert(self@ =~= before.insert(id, text));
    }

    /// All items with their names.
    pub fn pairs(&self) -> (r: Vec<(u32, String)>)
        ensures
            forall|i: int, j: int|
                0 <= i < j < r@.len() ==> (#[trigger] r@[i]).0 != (#[trigger] r@[j]).0,
            forall|i: int|
                0 <= i < r@.len() ==> self@.contains_key((#[trigger] r@[i]).0) && self@[r@[i].0]
                    == r@[i].1@,
            forall|k: u32| #[trigger]
                self@.contains_key(k) ==> exists|i: int|
                    0 <= i < r@.len() && (#[trigger] r@[i]).0 == k,
    {
        bimap_pairs(&self.map)
    }
}

} // verus!
