use vstd::prelude::*;

verus! {

/// An item as plain values.
pub struct ItemModel {
    pub inventory: u64,
    pub def_index: u32,
    pub level: u32,
    pub quality: u32,
    pub flags: u32,
    pub origin: u32,
    pub in_use: u32,
    pub rarity: u32,
    pub custom_name: Option<Seq<char>>,
    pub attributes: Seq<(u32, Seq<char>)>,
    pub equipped_state: Seq<(u32, Seq<char>)>,
}

/// One item of an inventory. `attributes` and `equipped_state` map an id to a
/// string; each id occurs once.
pub struct Item {
    pub inventory: u64,
    pub def_index: u32,
    pub level: u32,
    pub quality: u32,
    pub flags: u32,
    pub origin: u32,
    pub in_use: u32,
    pub rarity: u32,
    pub custom_name: Option<String>,
    pub attributes: Vec<(u32, String)>,
    pub equipped_state: Vec<(u32, String)>,
}

pub open spec fn pairs_view(ps: Seq<(u32, String)>) -> Seq<(u32, Seq<char>)> {
    ps.map_values(|p: (u32, String)| (p.0, p.1@))
}

pub open spec fn opt_view(o: Option<String>) -> Option<Seq<char>> {
    match o {
        Some(s) => Some(s@),
        None => None,
    }
}

/// Index of the pair with key `k`, searching from `i`; -1 when there is none.
pub open spec fn find_id<V>(ps: Seq<(u32, V)>, k: u32, i: int) -> int
    decreases ps.len() - i,
{
    if i < 0 || i >= ps.len() {
        -1
    } else if ps[i].0 == k {
        i
    } else {
        find_id(ps, k, i + 1)
    }
}

/// The value under `k`.
pub open spec fn id_lookup<V>(ps: Seq<(u32, V)>, k: u32) -> Option<V> {
    let i = find_id(ps, k, 0);
    if i >= 0 {
        Some(ps[i].1)
    } else {
        None
    }
}

/// Stores `v` under `k`, in place or at the end.
pub open spec fn put_id<V>(ps: Seq<(u32, V)>, k: u32, v: V) -> Seq<(u32, V)> {
    let i = find_id(ps, k, 0);
    if i >= 0 {
        ps.update(i, (k, v))
    } else {
        ps.push((k, v))
    }
}

/// Each key occurs once.
pub open spec fn unique_ids<V>(ps: Seq<(u32, V)>) -> bool {
    forall|i: int, j: int| 0 <= i < j < ps.len() ==> ps[i].0 != ps[j].0
}

impl ItemModel {
    pub open spec fn wf(self) -> bool {
        unique_ids(self.attributes) && unique_ids(self.equipped_state)
    }
}

impl View for Item {
    type V = ItemModel;

    open spec fn view(&self) -> ItemModel {
        ItemModel {
            inventory: self.inventory,
            def_index: self.def_index,
            level: self.level,
            quality: self.quality,
            flags: self.flags,
            origin: self.origin,
            in_use: self.in_use,
            rarity: self.rarity,
            custom_name: opt_view(self.custom_name),
            attributes: pairs_view(self.attributes@),
            equipped_state: pairs_view(self.equipped_state@),
        }
    }
}

impl Default for Item {
    fn default() -> (r: Self)
        ensures
            r@ == (ItemModel {
                inventory: 0,
                def_index: 0,
                level: 0,
                quality: 0,
                flags: 0,
                origin: 0,
                in_use: 0,
                rarity: 0,
                custom_name: None,
                attributes: Seq::empty(),
                equipped_state: Seq::empty(),
            }),
    {
        let r = Item {
            inventory: 0,
            def_index: 0,
            level: 0,
            quality: 0,
            flags: 0,
            origin: 0,
            in_use: 0,
            rarity: 0,
            custom_name: None,
            attributes: Vec::new(),
            equipped_state: Vec::new(),
        };
        proof {
            assert(pairs_view(r.attributes@) =~= Seq::empty());
            assert(pairs_view(r.equipped_state@) =~= Seq::empty());
        }
        r
    }
}

#[derive(Clone, Copy, PartialEq, Eq, Structural, Debug)]
pub struct DefaultEquip {
    pub class_id: u32,
    pub slot_id: u32,
}

/// An inventory as plain values.
pub struct InventoryModel {
    pub items: Seq<ItemModel>,
    pub default_equips: Seq<(u32, DefaultEquip)>,
}

impl InventoryModel {
    pub open spec fn wf(self) -> bool {
        &&& forall|i: int| 0 <= i < self.items.len() ==> (#[trigger] self.items[i]).wf()
        &&& unique_ids(self.default_equips)
    }
}

/// The items in load order, and the default equipment by class id (each id once).
pub struct Inventory {
    pub items: Vec<Item>,
    pub default_equips: Vec<(u32, DefaultEquip)>,
}

pub open spec fn items_view(items: Seq<Item>) -> Seq<ItemModel> {
    items.map_values(|it: Item| it@)
}

impl View for Inventory {
    type V = InventoryModel;

    open spec fn view(&self) -> InventoryModel {
        InventoryModel { items: items_view(self.items@), default_equips: self.default_equips@ }
    }
}

impl Default for Inventory {
    fn default() -> (r: Self)
        ensures
            r@.items.len() == 0,
            r@.default_equips.len() == 0,
    {
        Inventory { items: Vec::new(), default_equips: Vec::new() }
    }
}

/// Index of the pair with key `k`.
pub fn find_id_exec<V>(ps: &Vec<(u32, V)>, k: u32) -> (r: Option<usize>)
    ensures
        match r {
            Some(i) => i < ps.len() && find_id(ps@, k, 0) == i,
            None => find_id(ps@, k, 0) == -1,
        },
{
    let mut i: usize = 0;
    while i < ps.len()
        invariant
            i <= ps.len(),
            find_id(ps@, k, 0) == find_id(ps@, k, i as int),
        decreases ps.len() - i,
    {
        if ps[i].0 == k {
            return Some(i);
        }
        i = i + 1;
    }
    None
}

/// Stores a string under `k`, in place or at the end.
pub fn put_string_id(ps: &mut Vec<(u32, String)>, k: u32, v: String)
    ensures
        pairs_view(final(ps)@) == put_id(pairs_view(old(ps)@), k, v@),
{
    proof {
        lemma_find_id_view(ps@, k, 0);
    }
    match find_id_exec(ps, k) {
        Some(i) => {
            ps.set(i, (k, v));
            proof {
                assert(pairs_view(ps@) =~= pairs_view(old(ps)@).update(i as int, (k, v@)));
            }
        },
        None => {
            ps.push((k, v));
            proof {
                assert(pairs_view(ps@) =~= pairs_view(old(ps)@).push((k, v@)));
            }
        },
    }
}

/// Stores an equipment entry under `k`, in place or at the end.
pub fn put_equip_id(ps: &mut Vec<(u32, DefaultEquip)>, k: u32, v: DefaultEquip)
    ensures
        final(ps)@ == put_id(old(ps)@, k, v),
{
    match find_id_exec(ps, k) {
        Some(i) => ps.set(i, (k, v)),
        None => ps.push((k, v)),
    }
}

pub proof fn lemma_find_id_view(ps: Seq<(u32, String)>, k: u32, i: int)
    requires
        0 <= i,
    ensures
        find_id(pairs_view(ps), k, i) == find_id(ps, k, i),
    decreases ps.len() - i,
{
    if 0 <= i < ps.len() {
        lemma_find_id_view(ps, k, i + 1);
    }
}

} // verus!
