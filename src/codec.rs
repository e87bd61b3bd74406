use vstd::prelude::*;
use vstd::string::StringExecFns;

use crate::models::{
    find_id, items_view, pairs_view, put_equip_id, put_id, put_string_id, unique_ids, DefaultEquip, Inventory, InventoryModel, Item, ItemModel,
};
use crate::num::{decimal, decimal_exec, parse_unsigned, parse_unsigned_exec};
use crate::vdf::{parse_text, render, VdfParseError, VdfParser, entries_view, find_key, get_block, get_text, lemma_object_tree, lookup, VdfTree, VdfValue};

verus! {

/// A numeric field of an item or of a default-equipment entry.
#[derive(Clone, Copy, PartialEq, Eq, Structural, Debug)]
pub enum ItemField {
    Inventory,
    DefIndex,
    Level,
    Quality,
    Flags,
    Origin,
    InUse,
    Rarity,
    ClassId,
    SlotId,
}

/// Why a well-formed tree is not an inventory.
#[derive(Clone, Copy, PartialEq, Eq, Structural, Debug)]
pub enum InventoryDecodeError {
    MissingItems,
    MissingField(ItemField),
    InvalidField(ItemField),
    InvalidAttributeKey,
    InvalidEquippedStateKey,
    InvalidClassId,
}

pub open spec fn field_name(f: ItemField) -> Seq<char> {
    match f {
        ItemField::Inventory => "inventory"@,
        ItemField::DefIndex => "def_index"@,
        ItemField::Level => "level"@,
        ItemField::Quality => "quality"@,
        ItemField::Flags => "flags"@,
        ItemField::Origin => "origin"@,
        ItemField::InUse => "in_use"@,
        ItemField::Rarity => "rarity"@,
        ItemField::ClassId => "class_id"@,
        ItemField::SlotId => "slot_id"@,
    }
}

/// The largest value a field holds.
pub open spec fn field_max(f: ItemField) -> nat {
    match f {
        ItemField::Inventory => u64::MAX as nat,
        _ => u32::MAX as nat,
    }
}

pub open spec fn text_field(obj: Seq<(Seq<char>, VdfTree)>, name: Seq<char>) -> Option<Seq<char>> {
    match lookup(obj, name) {
        Some(VdfTree::Text(t)) => Some(t),
        _ => None,
    }
}

pub open spec fn block_field(obj: Seq<(Seq<char>, VdfTree)>, name: Seq<char>) -> Option<Seq<(Seq<char>, VdfTree)>> {
    match lookup(obj, name) {
        Some(VdfTree::Node(es)) => Some(es),
        _ => None,
    }
}

/// A required numeric field: missing unless it is a string, invalid unless that
/// string is an unsigned decimal number in range.
pub open spec fn number_field(obj: Seq<(Seq<char>, VdfTree)>, f: ItemField) -> Result<nat, InventoryDecodeError> {
    match text_field(obj, field_name(f)) {
        None => Err(InventoryDecodeError::MissingField(f)),
        Some(t) => match parse_unsigned(t, field_max(f)) {
            None => Err(InventoryDecodeError::InvalidField(f)),
            Some(n) => Ok(n),
        },
    }
}

/// The string entries of an id-keyed block, from the front, stored into `acc`;
/// a key that is not an id fails with `err`, entries that are blocks are passed over.
pub open spec fn decode_pairs(es: Seq<(Seq<char>, VdfTree)>, acc: Seq<(u32, Seq<char>)>, err: InventoryDecodeError) -> Result<Seq<(u32, Seq<char>)>, InventoryDecodeError>
    decreases es.len(),
{
    if es.len() == 0 {
        Ok(acc)
    } else {
        match parse_unsigned(es[0].0, u32::MAX as nat) {
            None => Err(err),
            Some(id) => decode_pairs(
                es.drop_first(),
                match es[0].1 {
                    VdfTree::Text(t) => put_id(acc, id as u32, t),
                    VdfTree::Node(_) => acc,
                },
                err,
            ),
        }
    }
}

/// An optional id-keyed block: empty when absent.
pub open spec fn optional_pairs(obj: Seq<(Seq<char>, VdfTree)>, name: Seq<char>, err: InventoryDecodeError) -> Result<Seq<(u32, Seq<char>)>, InventoryDecodeError> {
    match block_field(obj, name) {
        None => Ok(Seq::empty()),
        Some(b) => decode_pairs(b, Seq::empty(), err),
    }
}

/// One item from its block: the scalar fields in their order, then the name,
/// the attributes and the equipped state.
pub open spec fn decode_item(obj: Seq<(Seq<char>, VdfTree)>) -> Result<ItemModel, InventoryDecodeError> {
    match number_field(obj, ItemField::Inventory) {
        Err(e) => Err(e),
        Ok(inventory) => match number_field(obj, ItemField::DefIndex) {
            Err(e) => Err(e),
            Ok(def_index) => match number_field(obj, ItemField::Level) {
                Err(e) => Err(e),
                Ok(level) => match number_field(obj, ItemField::Quality) {
                    Err(e) => Err(e),
                    Ok(quality) => match number_field(obj, ItemField::Flags) {
                        Err(e) => Err(e),
                        Ok(flags) => match number_field(obj, ItemField::Origin) {
                            Err(e) => Err(e),
                            Ok(origin) => match number_field(obj, ItemField::InUse) {
                                Err(e) => Err(e),
                                Ok(in_use) => match number_field(obj, ItemField::Rarity) {
                                    Err(e) => Err(e),
                                    Ok(rarity) => match optional_pairs(obj, "attributes"@, InventoryDecodeError::InvalidAttributeKey) {
                                        Err(e) => Err(e),
                                        Ok(attributes) => match optional_pairs(obj, "equipped_state"@, InventoryDecodeError::InvalidEquippedStateKey) {
                                            Err(e) => Err(e),
                                            Ok(equipped_state) => Ok(ItemModel {
                                                inventory: inventory as u64,
                                                def_index: def_index as u32,
                                                level: level as u32,
                                                quality: quality as u32,
                                                flags: flags as u32,
                                                origin: origin as u32,
                                                in_use: in_use as u32,
                                                rarity: rarity as u32,
                                                custom_name: text_field(obj, "custom_name"@),
                                                attributes,
                                                equipped_state,
                                            }),
                                        },
                                    },
                                },
                            },
                        },
                    },
                },
            },
        },
    }
}

/// The items of the `items` block, in order, after `acc`; string entries are passed over.
pub open spec fn decode_items(es: Seq<(Seq<char>, VdfTree)>, acc: Seq<ItemModel>) -> Result<Seq<ItemModel>, InventoryDecodeError>
    decreases es.len(),
{
    if es.len() == 0 {
        Ok(acc)
    } else {
        match es[0].1 {
            VdfTree::Text(_) => decode_items(es.drop_first(), acc),
            VdfTree::Node(obj) => match decode_item(obj) {
                Err(e) => Err(e),
                Ok(it) => decode_items(es.drop_first(), acc.push(it)),
            },
        }
    }
}

/// The entries of the `default_equips` block, stored into `acc` by class id.
pub open spec fn decode_equips(es: Seq<(Seq<char>, VdfTree)>, acc: Seq<(u32, DefaultEquip)>) -> Result<Seq<(u32, DefaultEquip)>, InventoryDecodeError>
    decreases es.len(),
{
    if es.len() == 0 {
        Ok(acc)
    } else {
        match es[0].1 {
            VdfTree::Text(_) => decode_equips(es.drop_first(), acc),
            VdfTree::Node(obj) => match parse_unsigned(es[0].0, u32::MAX as nat) {
                None => Err(InventoryDecodeError::InvalidClassId),
                Some(id) => match number_field(obj, ItemField::ClassId) {
                    Err(e) => Err(e),
                    Ok(class_id) => match number_field(obj, ItemField::SlotId) {
                        Err(e) => Err(e),
                        Ok(slot_id) => decode_equips(
                            es.drop_first(),
                            put_id(acc, id as u32, DefaultEquip { class_id: class_id as u32, slot_id: slot_id as u32 }),
                        ),
                    },
                },
            },
        }
    }
}

/// The inventory that a tree describes.
pub open spec fn decode_inventory(root: Seq<(Seq<char>, VdfTree)>) -> Result<InventoryModel, InventoryDecodeError> {
    match block_field(root, "items"@) {
        None => Err(InventoryDecodeError::MissingItems),
        Some(items) => match decode_items(items, Seq::empty()) {
            Err(e) => Err(e),
            Ok(items) => match block_field(root, "default_equips"@) {
                None => Ok(InventoryModel { items, default_equips: Seq::empty() }),
                Some(b) => match decode_equips(b, Seq::empty()) {
                    Err(e) => Err(e),
                    Ok(default_equips) => Ok(InventoryModel { items, default_equips }),
                },
            },
        },
    }
}

pub open spec fn number_entry(f: ItemField, n: nat) -> (Seq<char>, VdfTree) {
    (field_name(f), VdfTree::Text(decimal(n)))
}

pub open spec fn encode_pairs(ps: Seq<(u32, Seq<char>)>) -> Seq<(Seq<char>, VdfTree)> {
    ps.map_values(|p: (u32, Seq<char>)| (decimal(p.0 as nat), VdfTree::Text(p.1)))
}

/// A block entry for an id-keyed map, left out when the map is empty.
pub open spec fn optional_block(name: Seq<char>, ps: Seq<(u32, Seq<char>)>) -> Seq<(Seq<char>, VdfTree)> {
    if ps.len() == 0 {
        Seq::empty()
    } else {
        seq![(name, VdfTree::Node(encode_pairs(ps)))]
    }
}

/// The block of one item: the scalar fields as decimal strings, then the name
/// when there is one, then the non-empty maps.
pub open spec fn encode_item(it: ItemModel) -> Seq<(Seq<char>, VdfTree)> {
    seq![
        number_entry(ItemField::Inventory, it.inventory as nat),
        number_entry(ItemField::DefIndex, it.def_index as nat),
        number_entry(ItemField::Level, it.level as nat),
        number_entry(ItemField::Quality, it.quality as nat),
        number_entry(ItemField::Flags, it.flags as nat),
        number_entry(ItemField::Origin, it.origin as nat),
        number_entry(ItemField::InUse, it.in_use as nat),
        number_entry(ItemField::Rarity, it.rarity as nat),
    ] + match it.custom_name {
        Some(n) => seq![("custom_name"@, VdfTree::Text(n))],
        None => Seq::empty(),
    } + optional_block("attributes"@, it.attributes) + optional_block("equipped_state"@, it.equipped_state)
}

/// The items under the slot keys 2, 3, 4, ...
pub open spec fn encode_items(items: Seq<ItemModel>) -> Seq<(Seq<char>, VdfTree)> {
    Seq::new(items.len(), |i: int| (decimal((i + 2) as nat), VdfTree::Node(encode_item(items[i]))))
}

pub open spec fn encode_equip(e: (u32, DefaultEquip)) -> (Seq<char>, VdfTree) {
    (decimal(e.0 as nat), VdfTree::Node(seq![
        number_entry(ItemField::ClassId, e.1.class_id as nat),
        number_entry(ItemField::SlotId, e.1.slot_id as nat),
    ]))
}

pub open spec fn encode_equips(eqs: Seq<(u32, DefaultEquip)>) -> Seq<(Seq<char>, VdfTree)> {
    eqs.map_values(|e: (u32, DefaultEquip)| encode_equip(e))
}

/// The tree of an inventory: the `items` block, then `default_equips` when there are any.
pub open spec fn encode_inventory(inv: InventoryModel) -> Seq<(Seq<char>, VdfTree)> {
    seq![("items"@, VdfTree::Node(encode_items(inv.items)))] + if inv.default_equips.len() == 0 {
        Seq::empty()
    } else {
        seq![("default_equips"@, VdfTree::Node(encode_equips(inv.default_equips)))]
    }
}

fn field_key(f: ItemField) -> (r: String)
    ensures
        r@ == field_name(f),
{
    match f {
        ItemField::Inventory => String::from_str("inventory"),
        ItemField::DefIndex => String::from_str("def_index"),
        ItemField::Level => String::from_str("level"),
        ItemField::Quality => String::from_str("quality"),
        ItemField::Flags => String::from_str("flags"),
        ItemField::Origin => String::from_str("origin"),
        ItemField::InUse => String::from_str("in_use"),
        ItemField::Rarity => String::from_str("rarity"),
        ItemField::ClassId => String::from_str("class_id"),
        ItemField::SlotId => String::from_str("slot_id"),
    }
}

fn get_number(obj: &Vec<(String, VdfValue)>, f: ItemField, max: u64) -> (r: Result<u64, InventoryDecodeError>)
    requires
        max == field_max(f),
    ensures
        match number_field(entries_view(obj@), f) {
            Ok(n) => r == Ok::<u64, InventoryDecodeError>(n as u64),
            Err(e) => r == Err::<u64, InventoryDecodeError>(e),
        },
{
    let key = field_key(f);
    match get_text(obj, &key) {
        None => Err(InventoryDecodeError::MissingField(f)),
        Some(t) => match parse_unsigned_exec(t.as_str(), max) {
            None => Err(InventoryDecodeError::InvalidField(f)),
            Some(n) => Ok(n),
        },
    }
}

/// A required field that holds a 64-bit number.
pub fn get_u64(obj: &Vec<(String, VdfValue)>, f: ItemField) -> (r: Result<u64, InventoryDecodeError>)
    requires
        field_max(f) == u64::MAX,
    ensures
        match number_field(entries_view(obj@), f) {
            Ok(n) => r == Ok::<u64, InventoryDecodeError>(n as u64),
            Err(e) => r == Err::<u64, InventoryDecodeError>(e),
        },
{
    get_number(obj, f, u64::MAX)
}

/// A required field that holds a 32-bit number.
pub fn get_u32(obj: &Vec<(String, VdfValue)>, f: ItemField) -> (r: Result<u32, InventoryDecodeError>)
    requires
        field_max(f) == u32::MAX,
    ensures
        match number_field(entries_view(obj@), f) {
            Ok(n) => r == Ok::<u32, InventoryDecodeError>(n as u32),
            Err(e) => r == Err::<u32, InventoryDecodeError>(e),
        },
{
    match get_number(obj, f, u32::MAX as u64) {
        Ok(n) => Ok(n as u32),
        Err(e) => Err(e),
    }
}

fn decode_pairs_exec(es: &Vec<(String, VdfValue)>, err: InventoryDecodeError) -> (r: Result<Vec<(u32, String)>, InventoryDecodeError>)
    ensures
        match decode_pairs(entries_view(es@), Seq::empty(), err) {
            Ok(ps) => r matches Ok(v) && pairs_view(v@) == ps,
            Err(e) => r == Err::<Vec<(u32, String)>, InventoryDecodeError>(e),
        },
{
    let ghost ev = entries_view(es@);
    let mut acc: Vec<(u32, String)> = Vec::new();
    let mut i: usize = 0;
    proof {
        assert(pairs_view(acc@) =~= Seq::empty());
        assert(ev.subrange(0, ev.len() as int) =~= ev);
    }
    while i < es.len()
        invariant
            i <= es.len(),
            ev == entries_view(es@),
            decode_pairs(ev, Seq::empty(), err) == decode_pairs(ev.subrange(i as int, ev.len() as int), pairs_view(acc@), err),
        decreases es.len() - i,
    {
        proof {
            assert(ev.subrange(i as int, ev.len() as int).drop_first() =~= ev.subrange(i + 1, ev.len() as int));
        }
        match parse_unsigned_exec(es[i].0.as_str(), u32::MAX as u64) {
            None => return Err(err),
            Some(id) => {
                match &es[i].1 {
                    VdfValue::String(t) => put_string_id(&mut acc, id as u32, t.clone()),
                    VdfValue::Object(_) => {},
                }
            },
        }
        i = i + 1;
    }
    proof {
        assert(ev.subrange(i as int, ev.len() as int) =~= Seq::empty());
    }
    Ok(acc)
}

fn optional_pairs_exec(obj: &Vec<(String, VdfValue)>, name: &String, err: InventoryDecodeError) -> (r: Result<Vec<(u32, String)>, InventoryDecodeError>)
    ensures
        match optional_pairs(entries_view(obj@), name@, err) {
            Ok(ps) => r matches Ok(v) && pairs_view(v@) == ps,
            Err(e) => r == Err::<Vec<(u32, String)>, InventoryDecodeError>(e),
        },
{
    match get_block(obj, name) {
        None => {
            let v: Vec<(u32, String)> = Vec::new();
            proof {
                assert(pairs_view(v@) =~= Seq::empty());
            }
            Ok(v)
        },
        Some(b) => decode_pairs_exec(b, err),
    }
}

/// Reads one item from its block.
pub fn parse_item(obj: &Vec<(String, VdfValue)>) -> (r: Result<Item, InventoryDecodeError>)
    ensures
        match decode_item(entries_view(obj@)) {
            Ok(m) => r matches Ok(it) && it@ == m,
            Err(e) => r matches Err(x) && x == e,
        },
{
    let inventory = match get_u64(obj, ItemField::Inventory) { Ok(n) => n, Err(e) => return Err(e) };
    let def_index = match get_u32(obj, ItemField::DefIndex) { Ok(n) => n, Err(e) => return Err(e) };
    let level = match get_u32(obj, ItemField::Level) { Ok(n) => n, Err(e) => return Err(e) };
    let quality = match get_u32(obj, ItemField::Quality) { Ok(n) => n, Err(e) => return Err(e) };
    let flags = match get_u32(obj, ItemField::Flags) { Ok(n) => n, Err(e) => return Err(e) };
    let origin = match get_u32(obj, ItemField::Origin) { Ok(n) => n, Err(e) => return Err(e) };
    let in_use = match get_u32(obj, ItemField::InUse) { Ok(n) => n, Err(e) => return Err(e) };
    let rarity = match get_u32(obj, ItemField::Rarity) { Ok(n) => n, Err(e) => return Err(e) };
    let attributes = match optional_pairs_exec(obj, &String::from_str("attributes"), InventoryDecodeError::InvalidAttributeKey) {
        Ok(v) => v,
        Err(e) => return Err(e),
    };
    let equipped_state = match optional_pairs_exec(obj, &String::from_str("equipped_state"), InventoryDecodeError::InvalidEquippedStateKey) {
        Ok(v) => v,
        Err(e) => return Err(e),
    };
    let custom_name = get_text(obj, &String::from_str("custom_name"));
    Ok(Item { inventory, def_index, level, quality, flags, origin, in_use, rarity, custom_name, attributes, equipped_state })
}

/// Reads an inventory from the entries of a parsed text.
pub fn decode(root: &Vec<(String, VdfValue)>) -> (r: Result<Inventory, InventoryDecodeError>)
    ensures
        match decode_inventory(entries_view(root@)) {
            Ok(m) => r matches Ok(inv) && inv@ == m,
            Err(e) => r matches Err(x) && x == e,
        },
        r matches Ok(inv) ==> inv@.wf(),
{
    proof {
        lemma_decoded_wf(entries_view(root@));
    }
    let items_obj = match get_block(root, &String::from_str("items")) {
        Some(b) => b,
        None => return Err(InventoryDecodeError::MissingItems),
    };
    let ghost iv = entries_view(items_obj@);
    let mut items: Vec<Item> = Vec::new();
    let mut i: usize = 0;
    proof {
        assert(items_view(items@) =~= Seq::empty());
        assert(iv.subrange(0, iv.len() as int) =~= iv);
    }
    while i < items_obj.len()
        invariant
            i <= items_obj.len(),
            iv == entries_view(items_obj@),
            block_field(entries_view(root@), "items"@) == Some(iv),
            decode_items(iv, Seq::empty()) == decode_items(iv.subrange(i as int, iv.len() as int), items_view(items@)),
        decreases items_obj.len() - i,
    {
        proof {
            assert(iv.subrange(i as int, iv.len() as int).drop_first() =~= iv.subrange(i + 1, iv.len() as int));
        }
        match &items_obj[i].1 {
            VdfValue::Object(obj) => {
                proof {
                    lemma_object_tree(*obj);
                }
                match parse_item(obj) {
                    Ok(it) => {
                        let ghost before = items@;
                        items.push(it);
                        proof {
                            assert(items_view(items@) =~= items_view(before).push(it@));
                        }
                    },
                    Err(e) => return Err(e),
                }
            },
            VdfValue::String(_) => {},
        }
        i = i + 1;
    }
    proof {
        assert(iv.subrange(i as int, iv.len() as int) =~= Seq::empty());
    }
    assert(decode_items(iv, Seq::empty()) == Ok::<Seq<ItemModel>, InventoryDecodeError>(items_view(items@)));
    let mut default_equips: Vec<(u32, DefaultEquip)> = Vec::new();
    match get_block(root, &String::from_str("default_equips")) {
        None => {},
        Some(eq) => {
            let ghost ev = entries_view(eq@);
            let mut j: usize = 0;
            proof {
                assert(ev.subrange(0, ev.len() as int) =~= ev);
            }
            while j < eq.len()
                invariant
                    j <= eq.len(),
                    ev == entries_view(eq@),
                    block_field(entries_view(root@), "items"@) == Some(iv),
                    decode_items(iv, Seq::empty()) == Ok::<Seq<ItemModel>, InventoryDecodeError>(items_view(items@)),
                    block_field(entries_view(root@), "default_equips"@) == Some(ev),
                    decode_equips(ev, Seq::empty()) == decode_equips(ev.subrange(j as int, ev.len() as int), default_equips@),
                decreases eq.len() - j,
            {
                proof {
                    assert(ev.subrange(j as int, ev.len() as int).drop_first() =~= ev.subrange(j + 1, ev.len() as int));
                }
                match &eq[j].1 {
                    VdfValue::Object(obj) => {
                        proof {
                            lemma_object_tree(*obj);
                        }
                        let id = match parse_unsigned_exec(eq[j].0.as_str(), u32::MAX as u64) {
                            Some(n) => n as u32,
                            None => return Err(InventoryDecodeError::InvalidClassId),
                        };
                        let class_id = match get_u32(obj, ItemField::ClassId) { Ok(n) => n, Err(e) => return Err(e) };
                        let slot_id = match get_u32(obj, ItemField::SlotId) { Ok(n) => n, Err(e) => return Err(e) };
                        put_equip_id(&mut default_equips, id, DefaultEquip { class_id, slot_id });
                    },
                    VdfValue::String(_) => {},
                }
                j = j + 1;
            }
            proof {
                assert(ev.subrange(j as int, ev.len() as int) =~= Seq::empty());
            }
        },
    }
    Ok(Inventory { items, default_equips })
}

fn number_value(f: ItemField, n: u64) -> (r: (String, VdfValue))
    ensures
        (r.0@, r.1.tree()) == number_entry(f, n as nat),
{
    (field_key(f), VdfValue::String(decimal_exec(n as u128)))
}

fn encode_pairs_exec(ps: &Vec<(u32, String)>) -> (r: Vec<(String, VdfValue)>)
    ensures
        entries_view(r@) == encode_pairs(pairs_view(ps@)),
{
    let mut out: Vec<(String, VdfValue)> = Vec::new();
    let mut i: usize = 0;
    while i < ps.len()
        invariant
            i <= ps.len(),
            entries_view(out@) == encode_pairs(pairs_view(ps@).subrange(0, i as int)),
        decreases ps.len() - i,
    {
        let ghost before = out@;
        out.push((decimal_exec(ps[i].0 as u128), VdfValue::String(ps[i].1.clone())));
        i = i + 1;
        proof {
            assert(entries_view(out@) =~= entries_view(before).push((decimal(ps@[i - 1].0 as nat), VdfTree::Text(ps@[i - 1].1@))));
            assert(entries_view(out@) =~= encode_pairs(pairs_view(ps@).subrange(0, i as int)));
        }
    }
    proof {
        assert(pairs_view(ps@).subrange(0, i as int) =~= pairs_view(ps@));
    }
    out
}

/// The block of one item.
pub fn serialize_item(item: &Item) -> (r: Vec<(String, VdfValue)>)
    ensures
        entries_view(r@) == encode_item(item@),
{
    let mut obj: Vec<(String, VdfValue)> = Vec::new();
    obj.push(number_value(ItemField::Inventory, item.inventory));
    obj.push(number_value(ItemField::DefIndex, item.def_index as u64));
    obj.push(number_value(ItemField::Level, item.level as u64));
    obj.push(number_value(ItemField::Quality, item.quality as u64));
    obj.push(number_value(ItemField::Flags, item.flags as u64));
    obj.push(number_value(ItemField::Origin, item.origin as u64));
    obj.push(number_value(ItemField::InUse, item.in_use as u64));
    obj.push(number_value(ItemField::Rarity, item.rarity as u64));
    let ghost scalars = obj@;
    match &item.custom_name {
        Some(name) => obj.push((String::from_str("custom_name"), VdfValue::String(name.clone()))),
        None => {},
    }
    let ghost named = obj@;
    if item.attributes.len() > 0 {
        let attrs = encode_pairs_exec(&item.attributes);
        proof {
            lemma_object_tree(attrs);
        }
        obj.push((String::from_str("attributes"), VdfValue::Object(attrs)));
    }
    let ghost with_attrs = obj@;
    if item.equipped_state.len() > 0 {
        let equips = encode_pairs_exec(&item.equipped_state);
        proof {
            lemma_object_tree(equips);
        }
        obj.push((String::from_str("equipped_state"), VdfValue::Object(equips)));
    }
    proof {
        let m = item@;
        assert(entries_view(scalars) =~= seq![
            number_entry(ItemField::Inventory, m.inventory as nat),
            number_entry(ItemField::DefIndex, m.def_index as nat),
            number_entry(ItemField::Level, m.level as nat),
            number_entry(ItemField::Quality, m.quality as nat),
            number_entry(ItemField::Flags, m.flags as nat),
            number_entry(ItemField::Origin, m.origin as nat),
            number_entry(ItemField::InUse, m.in_use as nat),
            number_entry(ItemField::Rarity, m.rarity as nat),
        ]);
        let name_part: Seq<(Seq<char>, VdfTree)> = match m.custom_name {
            Some(n) => seq![("custom_name"@, VdfTree::Text(n))],
            None => Seq::empty(),
        };
        assert(entries_view(named) =~= entries_view(scalars) + name_part);
        assert(entries_view(with_attrs) =~= entries_view(named) + optional_block("attributes"@, m.attributes));
        assert(entries_view(obj@) =~= entries_view(with_attrs) + optional_block("equipped_state"@, m.equipped_state));
        assert(entries_view(obj@) =~= encode_item(m));
    }
    obj
}

/// The tree of an inventory.
pub fn encode(inventory: &Inventory) -> (r: Vec<(String, VdfValue)>)
    ensures
        entries_view(r@) == encode_inventory(inventory@),
{
    let ghost m = inventory@;
    let mut items_obj: Vec<(String, VdfValue)> = Vec::new();
    let mut i: usize = 0;
    while i < inventory.items.len()
        invariant
            i <= inventory.items.len(),
            m == inventory@,
            entries_view(items_obj@) == encode_items(m.items.subrange(0, i as int)),
        decreases inventory.items.len() - i,
    {
        let ghost before = items_obj@;
        let obj = serialize_item(&inventory.items[i]);
        proof {
            lemma_object_tree(obj);
        }
        let slot = decimal_exec(i as u128 + 2);
        items_obj.push((slot, VdfValue::Object(obj)));
        proof {
            assert(m.items[i as int] == inventory.items@[i as int]@);
            assert(entries_view(items_obj@) =~= entries_view(before).push((decimal((i + 2) as nat), VdfTree::Node(encode_item(m.items[i as int])))));
        }
        i = i + 1;
        proof {
            assert(entries_view(items_obj@) =~= encode_items(m.items.subrange(0, i as int)));
        }
    }
    proof {
        assert(m.items.subrange(0, i as int) =~= m.items);
        lemma_object_tree(items_obj);
    }
    let mut root: Vec<(String, VdfValue)> = Vec::new();
    root.push((String::from_str("items"), VdfValue::Object(items_obj)));
    let ghost first = root@;
    if inventory.default_equips.len() > 0 {
        let mut eq_obj: Vec<(String, VdfValue)> = Vec::new();
        let mut j: usize = 0;
        while j < inventory.default_equips.len()
            invariant
                j <= inventory.default_equips.len(),
                m == inventory@,
                entries_view(eq_obj@) == encode_equips(m.default_equips.subrange(0, j as int)),
            decreases inventory.default_equips.len() - j,
        {
            let (class, equip) = inventory.default_equips[j];
            let mut fields: Vec<(String, VdfValue)> = Vec::new();
            fields.push(number_value(ItemField::ClassId, equip.class_id as u64));
            fields.push(number_value(ItemField::SlotId, equip.slot_id as u64));
            proof {
                lemma_object_tree(fields);
            }
            let ghost before = eq_obj@;
            eq_obj.push((decimal_exec(class as u128), VdfValue::Object(fields)));
            proof {
                assert(m.default_equips[j as int] == (class, equip));
                assert(entries_view(fields@) =~= encode_equip((class, equip)).1->Node_0);
                assert(entries_view(eq_obj@) =~= entries_view(before).push(encode_equip((class, equip))));
            }
            j = j + 1;
            proof {
                assert(entries_view(eq_obj@) =~= encode_equips(m.default_equips.subrange(0, j as int)));
            }
        }
        proof {
            assert(m.default_equips.subrange(0, j as int) =~= m.default_equips);
            lemma_object_tree(eq_obj);
        }
        root.push((String::from_str("default_equips"), VdfValue::Object(eq_obj)));
    }
    proof {
        assert(entries_view(root@) =~= encode_inventory(m));
    }
    root
}

proof fn lemma_find_key_at(es: Seq<(Seq<char>, VdfTree)>, k: Seq<char>, m: int, i: int)
    requires
        0 <= i <= m < es.len(),
        es[m].0 == k,
        forall|j: int| i <= j < m ==> es[j].0 != k,
    ensures
        find_key(es, k, i) == m,
    decreases m - i,
{
    if i < m {
        lemma_find_key_at(es, k, m, i + 1);
    }
}

proof fn lemma_find_key_absent(es: Seq<(Seq<char>, VdfTree)>, k: Seq<char>, i: int)
    requires
        0 <= i,
        forall|j: int| i <= j < es.len() ==> es[j].0 != k,
    ensures
        find_key(es, k, i) == -1,
    decreases es.len() - i,
{
    if i < es.len() {
        lemma_find_key_absent(es, k, i + 1);
    }
}

proof fn lemma_find_id_absent<V>(ps: Seq<(u32, V)>, k: u32, i: int)
    requires
        0 <= i,
        forall|j: int| i <= j < ps.len() ==> ps[j].0 != k,
    ensures
        find_id(ps, k, i) == -1,
    decreases ps.len() - i,
{
    if i < ps.len() {
        lemma_find_id_absent(ps, k, i + 1);
    }
}

pub open spec fn item_key_names() -> Seq<Seq<char>> {
    seq![
        "inventory"@, "def_index"@, "level"@, "quality"@, "flags"@, "origin"@, "in_use"@, "rarity"@,
        "custom_name"@, "attributes"@, "equipped_state"@,
    ]
}

proof fn lemma_item_key_names_distinct()
    ensures
        forall|a: int, b: int| 0 <= a < 11 && 0 <= b < 11 && a != b ==> item_key_names()[a] != item_key_names()[b],
        item_key_names().len() == 11,
{
    reveal_strlit("inventory");
    reveal_strlit("def_index");
    reveal_strlit("level");
    reveal_strlit("quality");
    reveal_strlit("flags");
    reveal_strlit("origin");
    reveal_strlit("in_use");
    reveal_strlit("rarity");
    reveal_strlit("custom_name");
    reveal_strlit("attributes");
    reveal_strlit("equipped_state");
    let names = item_key_names();
    assert forall|a: int, b: int| 0 <= a < 11 && 0 <= b < 11 && a != b implies names[a] != names[b] by {
        if names[a].len() == names[b].len() {
            assert(names[a][0] != names[b][0]);
        }
    }
}

/// Which name stands at position `j` of an item's block.
pub open spec fn item_slot(it: ItemModel, j: int) -> int {
    let n_name: int = if it.custom_name is Some { 1 } else { 0 };
    let n_attr: int = if it.attributes.len() > 0 { 1 } else { 0 };
    if j < 8 {
        j
    } else if j < 8 + n_name {
        8
    } else if j < 8 + n_name + n_attr {
        9
    } else {
        10
    }
}

proof fn lemma_lookup_unique(es: Seq<(Seq<char>, VdfTree)>, k: Seq<char>, m: int)
    requires
        0 <= m < es.len(),
        es[m].0 == k,
        forall|j: int| 0 <= j < es.len() && j != m ==> es[j].0 != k,
    ensures
        lookup(es, k) == Some(es[m].1),
{
    lemma_find_key_at(es, k, m, 0);
}

proof fn lemma_lookup_absent(es: Seq<(Seq<char>, VdfTree)>, k: Seq<char>)
    requires
        forall|j: int| 0 <= j < es.len() ==> es[j].0 != k,
    ensures
        lookup(es, k) is None,
{
    lemma_find_key_absent(es, k, 0);
}

/// Where each key stands in the block of an item.
proof fn lemma_item_lookups(it: ItemModel)
    ensures
        text_field(encode_item(it), field_name(ItemField::Inventory)) == Some(decimal(it.inventory as nat)),
        text_field(encode_item(it), field_name(ItemField::DefIndex)) == Some(decimal(it.def_index as nat)),
        text_field(encode_item(it), field_name(ItemField::Level)) == Some(decimal(it.level as nat)),
        text_field(encode_item(it), field_name(ItemField::Quality)) == Some(decimal(it.quality as nat)),
        text_field(encode_item(it), field_name(ItemField::Flags)) == Some(decimal(it.flags as nat)),
        text_field(encode_item(it), field_name(ItemField::Origin)) == Some(decimal(it.origin as nat)),
        text_field(encode_item(it), field_name(ItemField::InUse)) == Some(decimal(it.in_use as nat)),
        text_field(encode_item(it), field_name(ItemField::Rarity)) == Some(decimal(it.rarity as nat)),
        text_field(encode_item(it), "custom_name"@) == it.custom_name,
        it.attributes.len() == 0 ==> block_field(encode_item(it), "attributes"@) is None,
        it.attributes.len() > 0 ==> block_field(encode_item(it), "attributes"@) == Some(encode_pairs(it.attributes)),
        it.equipped_state.len() == 0 ==> block_field(encode_item(it), "equipped_state"@) is None,
        it.equipped_state.len() > 0 ==> block_field(encode_item(it), "equipped_state"@) == Some(encode_pairs(it.equipped_state)),
{
    lemma_item_key_names_distinct();
    let es = encode_item(it);
    let names = item_key_names();
    let n_name: int = if it.custom_name is Some { 1 } else { 0 };
    let n_attr: int = if it.attributes.len() > 0 { 1 } else { 0 };
    let n_eq: int = if it.equipped_state.len() > 0 { 1 } else { 0 };
    assert(es.len() == 8 + n_name + n_attr + n_eq);
    assert forall|j: int| 0 <= j < es.len() implies es[j].0 == names[item_slot(it, j)] && 0 <= item_slot(it, j) < 11 by {}
    assert forall|j: int, m: int| 0 <= j < es.len() && 0 <= m < es.len() && j != m implies item_slot(it, j) != item_slot(it, m) by {}
    assert forall|j: int, m: int| 0 <= j < es.len() && 0 <= m < es.len() && j != m implies es[j].0 != es[m].0 by {}
    lemma_lookup_unique(es, names[0], 0);
    lemma_lookup_unique(es, names[1], 1);
    lemma_lookup_unique(es, names[2], 2);
    lemma_lookup_unique(es, names[3], 3);
    lemma_lookup_unique(es, names[4], 4);
    lemma_lookup_unique(es, names[5], 5);
    lemma_lookup_unique(es, names[6], 6);
    lemma_lookup_unique(es, names[7], 7);
    if it.custom_name is Some {
        lemma_lookup_unique(es, names[8], 8);
    } else {
        assert forall|j: int| 0 <= j < es.len() implies es[j].0 != names[8] by {}
        lemma_lookup_absent(es, names[8]);
    }
    if it.attributes.len() > 0 {
        lemma_lookup_unique(es, names[9], 8 + n_name);
    } else {
        assert forall|j: int| 0 <= j < es.len() implies es[j].0 != names[9] by {}
        lemma_lookup_absent(es, names[9]);
    }
    if it.equipped_state.len() > 0 {
        lemma_lookup_unique(es, names[10], 8 + n_name + n_attr);
    } else {
        assert forall|j: int| 0 <= j < es.len() implies es[j].0 != names[10] by {}
        lemma_lookup_absent(es, names[10]);
    }
}

proof fn lemma_decode_pairs_round_trip(ps: Seq<(u32, Seq<char>)>, acc: Seq<(u32, Seq<char>)>, err: InventoryDecodeError)
    requires
        unique_ids(acc + ps),
    ensures
        decode_pairs(encode_pairs(ps), acc, err) == Ok::<Seq<(u32, Seq<char>)>, InventoryDecodeError>(acc + ps),
    decreases ps.len(),
{
    if ps.len() == 0 {
        assert(acc + ps =~= acc);
    } else {
        let es = encode_pairs(ps);
        let (id, t) = ps[0];
        crate::num::lemma_parse_decimal(id as nat, u32::MAX as nat);
        assert forall|j: int| 0 <= j < acc.len() implies acc[j].0 != id by {
            assert((acc + ps)[j] == acc[j]);
            assert((acc + ps)[acc.len() as int] == ps[0]);
        }
        lemma_find_id_absent(acc, id, 0);
        assert(es.drop_first() =~= encode_pairs(ps.drop_first()));
        assert(acc.push((id, t)) + ps.drop_first() =~= acc + ps);
        lemma_decode_pairs_round_trip(ps.drop_first(), acc.push((id, t)), err);
    }
}

proof fn lemma_decode_item_round_trip(it: ItemModel)
    requires
        it.wf(),
    ensures
        decode_item(encode_item(it)) == Ok::<ItemModel, InventoryDecodeError>(it),
{
    lemma_item_lookups(it);
    crate::num::lemma_parse_decimal(it.inventory as nat, u64::MAX as nat);
    crate::num::lemma_parse_decimal(it.def_index as nat, u32::MAX as nat);
    crate::num::lemma_parse_decimal(it.level as nat, u32::MAX as nat);
    crate::num::lemma_parse_decimal(it.quality as nat, u32::MAX as nat);
    crate::num::lemma_parse_decimal(it.flags as nat, u32::MAX as nat);
    crate::num::lemma_parse_decimal(it.origin as nat, u32::MAX as nat);
    crate::num::lemma_parse_decimal(it.in_use as nat, u32::MAX as nat);
    crate::num::lemma_parse_decimal(it.rarity as nat, u32::MAX as nat);
    let e: Seq<(u32, Seq<char>)> = Seq::empty();
    assert(e + it.attributes =~= it.attributes);
    assert(e + it.equipped_state =~= it.equipped_state);
    lemma_decode_pairs_round_trip(it.attributes, e, InventoryDecodeError::InvalidAttributeKey);
    lemma_decode_pairs_round_trip(it.equipped_state, e, InventoryDecodeError::InvalidEquippedStateKey);
    if it.attributes.len() == 0 {
        assert(it.attributes =~= e);
    }
    if it.equipped_state.len() == 0 {
        assert(it.equipped_state =~= e);
    }
}

proof fn lemma_decode_items_round_trip(es: Seq<(Seq<char>, VdfTree)>, items: Seq<ItemModel>, acc: Seq<ItemModel>)
    requires
        es.len() == items.len(),
        forall|j: int| 0 <= j < es.len() ==> es[j].1 == VdfTree::Node(encode_item(#[trigger] items[j])),
        forall|j: int| 0 <= j < items.len() ==> (#[trigger] items[j]).wf(),
    ensures
        decode_items(es, acc) == Ok::<Seq<ItemModel>, InventoryDecodeError>(acc + items),
    decreases es.len(),
{
    if es.len() == 0 {
        assert(acc + items =~= acc);
    } else {
        lemma_decode_item_round_trip(items[0]);
        assert(acc.push(items[0]) + items.drop_first() =~= acc + items);
        assert forall|j: int| 0 <= j < es.len() - 1 implies es.drop_first()[j].1 == VdfTree::Node(encode_item(#[trigger] items.drop_first()[j])) by {
            assert(es.drop_first()[j] == es[j + 1]);
            assert(items.drop_first()[j] == items[j + 1]);
        }
        lemma_decode_items_round_trip(es.drop_first(), items.drop_first(), acc.push(items[0]));
    }
}

proof fn lemma_equip_lookups(e: (u32, DefaultEquip))
    ensures
        number_field(encode_equip(e).1->Node_0, ItemField::ClassId) == Ok::<nat, InventoryDecodeError>(e.1.class_id as nat),
        number_field(encode_equip(e).1->Node_0, ItemField::SlotId) == Ok::<nat, InventoryDecodeError>(e.1.slot_id as nat),
{
    reveal_strlit("class_id");
    reveal_strlit("slot_id");
    let es = encode_equip(e).1->Node_0;
    assert(field_name(ItemField::ClassId).len() != field_name(ItemField::SlotId).len());
    lemma_lookup_unique(es, field_name(ItemField::ClassId), 0);
    lemma_lookup_unique(es, field_name(ItemField::SlotId), 1);
    crate::num::lemma_parse_decimal(e.1.class_id as nat, u32::MAX as nat);
    crate::num::lemma_parse_decimal(e.1.slot_id as nat, u32::MAX as nat);
}

proof fn lemma_decode_equips_round_trip(eqs: Seq<(u32, DefaultEquip)>, acc: Seq<(u32, DefaultEquip)>)
    requires
        unique_ids(acc + eqs),
    ensures
        decode_equips(encode_equips(eqs), acc) == Ok::<Seq<(u32, DefaultEquip)>, InventoryDecodeError>(acc + eqs),
    decreases eqs.len(),
{
    let es = encode_equips(eqs);
    if eqs.len() == 0 {
        assert(acc + eqs =~= acc);
    } else {
        let e = eqs[0];
        lemma_equip_lookups(e);
        crate::num::lemma_parse_decimal(e.0 as nat, u32::MAX as nat);
        assert forall|j: int| 0 <= j < acc.len() implies acc[j].0 != e.0 by {
            assert((acc + eqs)[j] == acc[j]);
            assert((acc + eqs)[acc.len() as int] == eqs[0]);
        }
        lemma_find_id_absent(acc, e.0, 0);
        assert(es.drop_first() =~= encode_equips(eqs.drop_first()));
        assert(acc.push(e) + eqs.drop_first() =~= acc + eqs);
        assert(DefaultEquip { class_id: e.1.class_id, slot_id: e.1.slot_id } == e.1);
        lemma_decode_equips_round_trip(eqs.drop_first(), acc.push(e));
    }
}

/// Decoding the tree of a well-formed inventory gives back the same items in
/// the same order, field for field, and the same default equipment.
pub proof fn lemma_decode_encode(inv: InventoryModel)
    requires
        inv.wf(),
    ensures
        decode_inventory(encode_inventory(inv)) == Ok::<InventoryModel, InventoryDecodeError>(inv),
{
    reveal_strlit("items");
    reveal_strlit("default_equips");
    let root = encode_inventory(inv);
    assert("items"@ != "default_equips"@) by {
        assert("items"@.len() != "default_equips"@.len());
    }
    lemma_lookup_unique(root, "items"@, 0);
    let es = encode_items(inv.items);
    let e: Seq<ItemModel> = Seq::empty();
    assert forall|j: int| 0 <= j < es.len() implies es[j].1 == VdfTree::Node(encode_item(#[trigger] inv.items[j])) by {}
    lemma_decode_items_round_trip(es, inv.items, e);
    assert(e + inv.items =~= inv.items);
    assert(block_field(root, "items"@) == Some(es));
    assert(decode_items(es, e) == Ok::<Seq<ItemModel>, InventoryDecodeError>(inv.items));
    if inv.default_equips.len() == 0 {
        lemma_lookup_absent(root, "default_equips"@);
        assert(inv.default_equips =~= Seq::<(u32, DefaultEquip)>::empty());
    } else {
        lemma_lookup_unique(root, "default_equips"@, 1);
        let z: Seq<(u32, DefaultEquip)> = Seq::empty();
        assert(z + inv.default_equips =~= inv.default_equips);
        lemma_decode_equips_round_trip(inv.default_equips, z);
    }
}

proof fn lemma_find_id_result<V>(ps: Seq<(u32, V)>, k: u32, i: int)
    requires
        0 <= i,
    ensures
        find_id(ps, k, i) == -1 ==> forall|j: int| i <= j < ps.len() ==> ps[j].0 != k,
        find_id(ps, k, i) != -1 ==> i <= find_id(ps, k, i) < ps.len() && ps[find_id(ps, k, i)].0 == k,
    decreases ps.len() - i,
{
    if 0 <= i < ps.len() && ps[i].0 != k {
        lemma_find_id_result(ps, k, i + 1);
    }
}

pub proof fn lemma_put_id_unique<V>(ps: Seq<(u32, V)>, k: u32, v: V)
    requires
        unique_ids(ps),
    ensures
        unique_ids(put_id(ps, k, v)),
{
    lemma_find_id_result(ps, k, 0);
}

proof fn lemma_decode_pairs_unique(es: Seq<(Seq<char>, VdfTree)>, acc: Seq<(u32, Seq<char>)>, err: InventoryDecodeError)
    requires
        unique_ids(acc),
    ensures
        decode_pairs(es, acc, err) matches Ok(ps) ==> unique_ids(ps),
    decreases es.len(),
{
    if es.len() > 0 {
        if let Some(id) = parse_unsigned(es[0].0, u32::MAX as nat) {
            let next = match es[0].1 {
                VdfTree::Text(t) => put_id(acc, id as u32, t),
                VdfTree::Node(_) => acc,
            };
            if let VdfTree::Text(t) = es[0].1 {
                lemma_put_id_unique(acc, id as u32, t);
            }
            lemma_decode_pairs_unique(es.drop_first(), next, err);
        }
    }
}

proof fn lemma_decode_item_wf(obj: Seq<(Seq<char>, VdfTree)>)
    ensures
        decode_item(obj) matches Ok(it) ==> it.wf(),
{
    let e: Seq<(u32, Seq<char>)> = Seq::empty();
    if let Some(b) = block_field(obj, "attributes"@) {
        lemma_decode_pairs_unique(b, e, InventoryDecodeError::InvalidAttributeKey);
    }
    if let Some(b) = block_field(obj, "equipped_state"@) {
        lemma_decode_pairs_unique(b, e, InventoryDecodeError::InvalidEquippedStateKey);
    }
}

proof fn lemma_decode_items_wf(es: Seq<(Seq<char>, VdfTree)>, acc: Seq<ItemModel>)
    requires
        forall|j: int| 0 <= j < acc.len() ==> (#[trigger] acc[j]).wf(),
    ensures
        decode_items(es, acc) matches Ok(items) ==> forall|j: int| 0 <= j < items.len() ==> (#[trigger] items[j]).wf(),
    decreases es.len(),
{
    if es.len() > 0 {
        match es[0].1 {
            VdfTree::Text(_) => lemma_decode_items_wf(es.drop_first(), acc),
            VdfTree::Node(obj) => {
                lemma_decode_item_wf(obj);
                if let Ok(it) = decode_item(obj) {
                    assert forall|j: int| 0 <= j < acc.push(it).len() implies (#[trigger] acc.push(it)[j]).wf() by {
                        if j < acc.len() {
                            assert(acc.push(it)[j] == acc[j]);
                        }
                    }
                    lemma_decode_items_wf(es.drop_first(), acc.push(it));
                }
            },
        }
    }
}

proof fn lemma_decode_equips_unique(es: Seq<(Seq<char>, VdfTree)>, acc: Seq<(u32, DefaultEquip)>)
    requires
        unique_ids(acc),
    ensures
        decode_equips(es, acc) matches Ok(eqs) ==> unique_ids(eqs),
    decreases es.len(),
{
    if es.len() > 0 {
        match es[0].1 {
            VdfTree::Text(_) => lemma_decode_equips_unique(es.drop_first(), acc),
            VdfTree::Node(obj) => {
                if let Some(id) = parse_unsigned(es[0].0, u32::MAX as nat) {
                    if let (Ok(c), Ok(sl)) = (number_field(obj, ItemField::ClassId), number_field(obj, ItemField::SlotId)) {
                        let v = DefaultEquip { class_id: c as u32, slot_id: sl as u32 };
                        lemma_put_id_unique(acc, id as u32, v);
                        lemma_decode_equips_unique(es.drop_first(), put_id(acc, id as u32, v));
                    }
                }
            },
        }
    }
}

/// Every decoded inventory is well formed: each attribute, equipped-state and
/// default-equipment id occurs once.
pub proof fn lemma_decoded_wf(root: Seq<(Seq<char>, VdfTree)>)
    ensures
        decode_inventory(root) matches Ok(inv) ==> inv.wf(),
{
    if let Some(items) = block_field(root, "items"@) {
        lemma_decode_items_wf(items, Seq::empty());
    }
    if let Some(b) = block_field(root, "default_equips"@) {
        lemma_decode_equips_unique(b, Seq::empty());
    }
}

/// Saving and loading again is stable: for an inventory that decoding produced,
/// decoding its tree (with the slot keys renumbered from 2) gives back the same
/// items in the same order with the same fields, and the same default equipment.
pub proof fn lemma_round_trip(root: Seq<(Seq<char>, VdfTree)>, inv: InventoryModel)
    requires
        decode_inventory(root) == Ok::<InventoryModel, InventoryDecodeError>(inv),
    ensures
        decode_inventory(encode_inventory(inv)) == Ok::<InventoryModel, InventoryDecodeError>(inv),
{
    lemma_decoded_wf(root);
    lemma_decode_encode(inv);
}

/// `s` with each carriage return that comes before a line feed dropped.
pub open spec fn crlf_to_lf(s: Seq<char>) -> Seq<char>
    decreases s.len(),
{
    if s.len() == 0 {
        s
    } else if s.len() >= 2 && s[0] == '\r' && s[1] == '\n' {
        seq!['\n'] + crlf_to_lf(s.subrange(2, s.len() as int))
    } else {
        seq![s[0]] + crlf_to_lf(s.drop_first())
    }
}

/// `s` with the space after each quote that a space follows turned into a tab.
pub open spec fn quote_space_to_tab(s: Seq<char>) -> Seq<char>
    decreases s.len(),
{
    if s.len() == 0 {
        s
    } else if s.len() >= 2 && s[0] == '"' && s[1] == ' ' {
        seq!['"', '\t'] + quote_space_to_tab(s.subrange(2, s.len() as int))
    } else {
        seq![s[0]] + quote_space_to_tab(s.drop_first())
    }
}

/// The text of an inventory as the game client reads it.
pub open spec fn inventory_text(inv: InventoryModel) -> Seq<char> {
    quote_space_to_tab(crlf_to_lf(render(VdfTree::Node(encode_inventory(inv)))))
}

/// Reading a text: a syntax error, or the error of decoding its tree.
pub enum InventoryError {
    Syntax(VdfParseError),
    Decode(InventoryDecodeError),
}

fn crlf_to_lf_exec(s: &Vec<char>) -> (r: Vec<char>)
    ensures
        r@ == crlf_to_lf(s@),
{
    let mut out: Vec<char> = Vec::new();
    let mut i: usize = 0;
    proof {
        assert(s@.subrange(0, s.len() as int) =~= s@);
        assert(out@ + crlf_to_lf(s@) =~= crlf_to_lf(s@));
    }
    while i < s.len()
        invariant
            i <= s.len(),
            out@ + crlf_to_lf(s@.subrange(i as int, s.len() as int)) == crlf_to_lf(s@),
        decreases s.len() - i,
    {
        let ghost rest = s@.subrange(i as int, s.len() as int);
        if i + 1 < s.len() && s[i] == '\r' && s[i + 1] == '\n' {
            out.push('\n');
            i = i + 2;
            proof {
                assert(rest.subrange(2, rest.len() as int) =~= s@.subrange(i as int, s.len() as int));
            }
        } else {
            out.push(s[i]);
            i = i + 1;
            proof {
                assert(rest.drop_first() =~= s@.subrange(i as int, s.len() as int));
            }
        }
        proof {
            assert(out@ + crlf_to_lf(s@.subrange(i as int, s.len() as int)) =~= crlf_to_lf(s@));
        }
    }
    proof {
        assert(s@.subrange(i as int, s.len() as int) =~= Seq::empty());
        assert(out@ =~= crlf_to_lf(s@));
    }
    out
}

fn quote_space_to_tab_exec(s: &Vec<char>) -> (r: Vec<char>)
    ensures
        r@ == quote_space_to_tab(s@),
{
    let mut out: Vec<char> = Vec::new();
    let mut i: usize = 0;
    proof {
        assert(s@.subrange(0, s.len() as int) =~= s@);
        assert(out@ + quote_space_to_tab(s@) =~= quote_space_to_tab(s@));
    }
    while i < s.len()
        invariant
            i <= s.len(),
            out@ + quote_space_to_tab(s@.subrange(i as int, s.len() as int)) == quote_space_to_tab(s@),
        decreases s.len() - i,
    {
        let ghost rest = s@.subrange(i as int, s.len() as int);
        if i + 1 < s.len() && s[i] == '"' && s[i + 1] == ' ' {
            out.push('"');
            out.push('\t');
            i = i + 2;
            proof {
                assert(rest.subrange(2, rest.len() as int) =~= s@.subrange(i as int, s.len() as int));
            }
        } else {
            out.push(s[i]);
            i = i + 1;
            proof {
                assert(rest.drop_first() =~= s@.subrange(i as int, s.len() as int));
            }
        }
        proof {
            assert(out@ + quote_space_to_tab(s@.subrange(i as int, s.len() as int)) =~= quote_space_to_tab(s@));
        }
    }
    proof {
        assert(s@.subrange(i as int, s.len() as int) =~= Seq::empty());
        assert(out@ =~= quote_space_to_tab(s@));
    }
    out
}

/// `r` is the outcome of reading an inventory from `s`: the syntax error of
/// the text, the error of decoding its tree, or the decoded inventory.
pub open spec fn inventory_parse_outcome(s: Seq<char>, r: Result<Inventory, InventoryError>) -> bool {
    match parse_text(s) {
        Err((k, p)) => r matches Err(InventoryError::Syntax(x)) && x.kind == k && x.position == p,
        Ok(root) => match decode_inventory(root) {
            Ok(m) => r matches Ok(inv) && inv@ == m,
            Err(e) => r matches Err(InventoryError::Decode(x)) && x == e,
        },
    }
}

/// Reads an inventory from text.
pub fn parse_inventory_text(content: &str) -> (r: Result<Inventory, InventoryError>)
    ensures
        inventory_parse_outcome(content@, r),
        r matches Ok(inv) ==> inv@.wf(),
{
    proof {
        if let Ok(root) = parse_text(content@) {
            lemma_decoded_wf(root);
        }
    }
    match VdfParser::parse(content) {
        Err(e) => Err(InventoryError::Syntax(e)),
        Ok(root) => match decode(&root) {
            Ok(inv) => Ok(inv),
            Err(e) => Err(InventoryError::Decode(e)),
        },
    }
}

/// The text of an inventory: the rendered tree with line ends normalised and
/// a tab after each quote that a space followed.
pub fn serialize_inventory_text(inventory: &Inventory) -> (r: String)
    ensures
        r@ == inventory_text(inventory@),
{
    let root = encode(inventory);
    proof {
        lemma_object_tree(root);
    }
    let text = VdfParser::to_string(&VdfValue::Object(root));
    let chars = crate::text::chars_of(text.as_str());
    let unix = crlf_to_lf_exec(&chars);
    let tabbed = quote_space_to_tab_exec(&unix);
    crate::text::string_of(&tabbed)
}

/// A format that inventories are read from and written to.
pub trait InventoryParser {
    /// `r` is what `parse` gives for `content`.
    spec fn parses_to(&self, content: Seq<char>, r: Result<Inventory, InventoryError>) -> bool;

    /// `r` is the text that `serialize` gives for `inventory`.
    spec fn serializes_to(&self, inventory: InventoryModel, r: Seq<char>) -> bool;

    fn parse(&self, content: &str) -> (r: Result<Inventory, InventoryError>)
        ensures
            self.parses_to(content@, r),
    ;

    fn serialize(&self, inventory: &Inventory) -> (r: String)
        ensures
            self.serializes_to(inventory@, r@),
    ;
}

/// The key-value text format of the game's inventory file.
pub struct VdfInventoryParser;

impl InventoryParser for VdfInventoryParser {
    open spec fn parses_to(&self, content: Seq<char>, r: Result<Inventory, InventoryError>) -> bool {
        inventory_parse_outcome(content, r)
    }

    open spec fn serializes_to(&self, inventory: InventoryModel, r: Seq<char>) -> bool {
        r == inventory_text(inventory)
    }

    /// Reads an inventory from the text of an inventory file.
    fn parse(&self, content: &str) -> (r: Result<Inventory, InventoryError>)
        ensures
            match parse_text(content@) {
                Err((k, p)) => r matches Err(InventoryError::Syntax(x)) && x.kind == k && x.position == p,
                Ok(root) => match decode_inventory(root) {
                    Ok(m) => r matches Ok(inv) && inv@ == m,
                    Err(e) => r matches Err(InventoryError::Decode(x)) && x == e,
                },
            },
            r matches Ok(inv) ==> inv@.wf(),
    {
        parse_inventory_text(content)
    }

    /// The text of an inventory: slot keys from 2, empty maps left out, line
    /// ends normalised and a tab after each quote that a space followed.
    fn serialize(&self, inventory: &Inventory) -> (r: String)
        ensures
            r@ == inventory_text(inventory@),
    {
        serialize_inventory_text(inventory)
    }
}

} // verus!
