use vstd::prelude::*;

use vstd::string::StringExecFns;

use crate::items_game::{translated, GameTranslation};
use crate::num::{decimal, decimal_exec};
use crate::text::concat;

verus! {

/// The attributes that an item can carry, each with its numeric id.
#[derive(Clone, Copy, PartialEq, Eq, Structural, Debug, Hash)]
pub enum ItemAttribute {
    SkinPaintIndex,
    SkinPaintSeed,
    SkinPaintWear,
    StatTrakCount,
    StatTrakType,
    Sticker0ID,
    Sticker0Wear,
    Sticker0Scale,
    Sticker0Rotation,
    Sticker1ID,
    Sticker1Wear,
    Sticker1Scale,
    Sticker1Rotation,
    Sticker2ID,
    Sticker2Wear,
    Sticker2Scale,
    Sticker2Rotation,
    Sticker3ID,
    Sticker3Wear,
    Sticker3Scale,
    Sticker3Rotation,
    Sticker4ID,
    Sticker4Wear,
    Sticker4Scale,
    Sticker4Rotation,
    Sticker5ID,
    Sticker5Wear,
    Sticker5Scale,
    Sticker5Rotation,
    MusicID,
    SprayRemain,
    SprayColor,
}

/// The numeric id of an attribute.
pub open spec fn attribute_id(a: ItemAttribute) -> u32 {
    match a {
        ItemAttribute::SkinPaintIndex => 6,
        ItemAttribute::SkinPaintSeed => 7,
        ItemAttribute::SkinPaintWear => 8,
        ItemAttribute::StatTrakCount => 80,
        ItemAttribute::StatTrakType => 81,
        ItemAttribute::Sticker0ID => 113,
        ItemAttribute::Sticker0Wear => 114,
        ItemAttribute::Sticker0Scale => 115,
        ItemAttribute::Sticker0Rotation => 116,
        ItemAttribute::Sticker1ID => 117,
        ItemAttribute::Sticker1Wear => 118,
        ItemAttribute::Sticker1Scale => 119,
        ItemAttribute::Sticker1Rotation => 120,
        ItemAttribute::Sticker2ID => 121,
        ItemAttribute::Sticker2Wear => 122,
        ItemAttribute::Sticker2Scale => 123,
        ItemAttribute::Sticker2Rotation => 124,
        ItemAttribute::Sticker3ID => 125,
        ItemAttribute::Sticker3Wear => 126,
        ItemAttribute::Sticker3Scale => 127,
        ItemAttribute::Sticker3Rotation => 128,
        ItemAttribute::Sticker4ID => 129,
        ItemAttribute::Sticker4Wear => 130,
        ItemAttribute::Sticker4Scale => 131,
        ItemAttribute::Sticker4Rotation => 132,
        ItemAttribute::Sticker5ID => 133,
        ItemAttribute::Sticker5Wear => 134,
        ItemAttribute::Sticker5Scale => 135,
        ItemAttribute::Sticker5Rotation => 136,
        ItemAttribute::MusicID => 166,
        ItemAttribute::SprayRemain => 232,
        ItemAttribute::SprayColor => 233,
    }
}

/// The attribute with id `id`, if there is one.
pub open spec fn attribute_of_id(id: u32) -> Option<ItemAttribute> {
    if id == 6 {
        Some(ItemAttribute::SkinPaintIndex)
    } else if id == 7 {
        Some(ItemAttribute::SkinPaintSeed)
    } else if id == 8 {
        Some(ItemAttribute::SkinPaintWear)
    } else if id == 80 {
        Some(ItemAttribute::StatTrakCount)
    } else if id == 81 {
        Some(ItemAttribute::StatTrakType)
    } else if id == 113 {
        Some(ItemAttribute::Sticker0ID)
    } else if id == 114 {
        Some(ItemAttribute::Sticker0Wear)
    } else if id == 115 {
        Some(ItemAttribute::Sticker0Scale)
    } else if id == 116 {
        Some(ItemAttribute::Sticker0Rotation)
    } else if id == 117 {
        Some(ItemAttribute::Sticker1ID)
    } else if id == 118 {
        Some(ItemAttribute::Sticker1Wear)
    } else if id == 119 {
        Some(ItemAttribute::Sticker1Scale)
    } else if id == 120 {
        Some(ItemAttribute::Sticker1Rotation)
    } else if id == 121 {
        Some(ItemAttribute::Sticker2ID)
    } else if id == 122 {
        Some(ItemAttribute::Sticker2Wear)
    } else if id == 123 {
        Some(ItemAttribute::Sticker2Scale)
    } else if id == 124 {
        Some(ItemAttribute::Sticker2Rotation)
    } else if id == 125 {
        Some(ItemAttribute::Sticker3ID)
    } else if id == 126 {
        Some(ItemAttribute::Sticker3Wear)
    } else if id == 127 {
        Some(ItemAttribute::Sticker3Scale)
    } else if id == 128 {
        Some(ItemAttribute::Sticker3Rotation)
    } else if id == 129 {
        Some(ItemAttribute::Sticker4ID)
    } else if id == 130 {
        Some(ItemAttribute::Sticker4Wear)
    } else if id == 131 {
        Some(ItemAttribute::Sticker4Scale)
    } else if id == 132 {
        Some(ItemAttribute::Sticker4Rotation)
    } else if id == 133 {
        Some(ItemAttribute::Sticker5ID)
    } else if id == 134 {
        Some(ItemAttribute::Sticker5Wear)
    } else if id == 135 {
        Some(ItemAttribute::Sticker5Scale)
    } else if id == 136 {
        Some(ItemAttribute::Sticker5Rotation)
    } else if id == 166 {
        Some(ItemAttribute::MusicID)
    } else if id == 232 {
        Some(ItemAttribute::SprayRemain)
    } else if id == 233 {
        Some(ItemAttribute::SprayColor)
    } else {
        None
    }
}

/// The symbolic name of an attribute.
pub open spec fn attribute_name(a: ItemAttribute) -> Seq<char> {
    match a {
        ItemAttribute::SkinPaintIndex => "SkinPaintIndex"@,
        ItemAttribute::SkinPaintSeed => "SkinPaintSeed"@,
        ItemAttribute::SkinPaintWear => "SkinPaintWear"@,
        ItemAttribute::StatTrakCount => "StatTrakCount"@,
        ItemAttribute::StatTrakType => "StatTrakType"@,
        ItemAttribute::Sticker0ID => "Sticker0ID"@,
        ItemAttribute::Sticker0Wear => "Sticker0Wear"@,
        ItemAttribute::Sticker0Scale => "Sticker0Scale"@,
        ItemAttribute::Sticker0Rotation => "Sticker0Rotation"@,
        ItemAttribute::Sticker1ID => "Sticker1ID"@,
        ItemAttribute::Sticker1Wear => "Sticker1Wear"@,
        ItemAttribute::Sticker1Scale => "Sticker1Scale"@,
        ItemAttribute::Sticker1Rotation => "Sticker1Rotation"@,
        ItemAttribute::Sticker2ID => "Sticker2ID"@,
        ItemAttribute::Sticker2Wear => "Sticker2Wear"@,
        ItemAttribute::Sticker2Scale => "Sticker2Scale"@,
        ItemAttribute::Sticker2Rotation => "Sticker2Rotation"@,
        ItemAttribute::Sticker3ID => "Sticker3ID"@,
        ItemAttribute::Sticker3Wear => "Sticker3Wear"@,
        ItemAttribute::Sticker3Scale => "Sticker3Scale"@,
        ItemAttribute::Sticker3Rotation => "Sticker3Rotation"@,
        ItemAttribute::Sticker4ID => "Sticker4ID"@,
        ItemAttribute::Sticker4Wear => "Sticker4Wear"@,
        ItemAttribute::Sticker4Scale => "Sticker4Scale"@,
        ItemAttribute::Sticker4Rotation => "Sticker4Rotation"@,
        ItemAttribute::Sticker5ID => "Sticker5ID"@,
        ItemAttribute::Sticker5Wear => "Sticker5Wear"@,
        ItemAttribute::Sticker5Scale => "Sticker5Scale"@,
        ItemAttribute::Sticker5Rotation => "Sticker5Rotation"@,
        ItemAttribute::MusicID => "MusicID"@,
        ItemAttribute::SprayRemain => "SprayRemain"@,
        ItemAttribute::SprayColor => "SprayColor"@,
    }
}

impl ItemAttribute {
    pub fn from_id(id: u32) -> (r: Option<Self>)
        ensures
            r == attribute_of_id(id),
    {
        match id {
            6 => Some(Self::SkinPaintIndex),
            7 => Some(Self::SkinPaintSeed),
            8 => Some(Self::SkinPaintWear),
            80 => Some(Self::StatTrakCount),
            81 => Some(Self::StatTrakType),
            113 => Some(Self::Sticker0ID),
            114 => Some(Self::Sticker0Wear),
            115 => Some(Self::Sticker0Scale),
            116 => Some(Self::Sticker0Rotation),
            117 => Some(Self::Sticker1ID),
            118 => Some(Self::Sticker1Wear),
            119 => Some(Self::Sticker1Scale),
            120 => Some(Self::Sticker1Rotation),
            121 => Some(Self::Sticker2ID),
            122 => Some(Self::Sticker2Wear),
            123 => Some(Self::Sticker2Scale),
            124 => Some(Self::Sticker2Rotation),
            125 => Some(Self::Sticker3ID),
            126 => Some(Self::Sticker3Wear),
            127 => Some(Self::Sticker3Scale),
            128 => Some(Self::Sticker3Rotation),
            129 => Some(Self::Sticker4ID),
            130 => Some(Self::Sticker4Wear),
            131 => Some(Self::Sticker4Scale),
            132 => Some(Self::Sticker4Rotation),
            133 => Some(Self::Sticker5ID),
            134 => Some(Self::Sticker5Wear),
            135 => Some(Self::Sticker5Scale),
            136 => Some(Self::Sticker5Rotation),
            166 => Some(Self::MusicID),
            232 => Some(Self::SprayRemain),
            233 => Some(Self::SprayColor),
            _ => None,
        }
    }

    pub fn id(&self) -> (r: u32)
        ensures
            r == attribute_id(*self),
    {
        match self {
            Self::SkinPaintIndex => 6,
            Self::SkinPaintSeed => 7,
            Self::SkinPaintWear => 8,
            Self::StatTrakCount => 80,
            Self::StatTrakType => 81,
            Self::Sticker0ID => 113,
            Self::Sticker0Wear => 114,
            Self::Sticker0Scale => 115,
            Self::Sticker0Rotation => 116,
            Self::Sticker1ID => 117,
            Self::Sticker1Wear => 118,
            Self::Sticker1Scale => 119,
            Self::Sticker1Rotation => 120,
            Self::Sticker2ID => 121,
            Self::Sticker2Wear => 122,
            Self::Sticker2Scale => 123,
            Self::Sticker2Rotation => 124,
            Self::Sticker3ID => 125,
            Self::Sticker3Wear => 126,
            Self::Sticker3Scale => 127,
            Self::Sticker3Rotation => 128,
            Self::Sticker4ID => 129,
            Self::Sticker4Wear => 130,
            Self::Sticker4Scale => 131,
            Self::Sticker4Rotation => 132,
            Self::Sticker5ID => 133,
            Self::Sticker5Wear => 134,
            Self::Sticker5Scale => 135,
            Self::Sticker5Rotation => 136,
            Self::MusicID => 166,
            Self::SprayRemain => 232,
            Self::SprayColor => 233,
        }
    }

    pub fn name(&self) -> (r: &'static str)
        ensures
            r@ == attribute_name(*self),
    {
        match self {
            Self::SkinPaintIndex => "SkinPaintIndex",
            Self::SkinPaintSeed => "SkinPaintSeed",
            Self::SkinPaintWear => "SkinPaintWear",
            Self::StatTrakCount => "StatTrakCount",
            Self::StatTrakType => "StatTrakType",
            Self::Sticker0ID => "Sticker0ID",
            Self::Sticker0Wear => "Sticker0Wear",
            Self::Sticker0Scale => "Sticker0Scale",
            Self::Sticker0Rotation => "Sticker0Rotation",
            Self::Sticker1ID => "Sticker1ID",
            Self::Sticker1Wear => "Sticker1Wear",
            Self::Sticker1Scale => "Sticker1Scale",
            Self::Sticker1Rotation => "Sticker1Rotation",
            Self::Sticker2ID => "Sticker2ID",
            Self::Sticker2Wear => "Sticker2Wear",
            Self::Sticker2Scale => "Sticker2Scale",
            Self::Sticker2Rotation => "Sticker2Rotation",
            Self::Sticker3ID => "Sticker3ID",
            Self::Sticker3Wear => "Sticker3Wear",
            Self::Sticker3Scale => "Sticker3Scale",
            Self::Sticker3Rotation => "Sticker3Rotation",
            Self::Sticker4ID => "Sticker4ID",
            Self::Sticker4Wear => "Sticker4Wear",
            Self::Sticker4Scale => "Sticker4Scale",
            Self::Sticker4Rotation => "Sticker4Rotation",
            Self::Sticker5ID => "Sticker5ID",
            Self::Sticker5Wear => "Sticker5Wear",
            Self::Sticker5Scale => "Sticker5Scale",
            Self::Sticker5Rotation => "Sticker5Rotation",
            Self::MusicID => "MusicID",
            Self::SprayRemain => "SprayRemain",
            Self::SprayColor => "SprayColor",
        }
    }
}

/// The attribute ids that the editor offers.
pub open spec fn available_attribute_ids() -> Seq<u32> {
    seq![6, 7, 8, 80, 81, 113, 114, 115, 116, 117, 118, 119, 120, 121, 122, 123, 124, 125, 126, 127, 128, 129, 130, 131, 132, 166]
}

/// The attribute ids that the editor offers.
pub fn available_attributes() -> (r: Vec<u32>)
    ensures
        r@ == available_attribute_ids(),
{
    let r: Vec<u32> = vec![6, 7, 8, 80, 81, 113, 114, 115, 116, 117, 118, 119, 120, 121, 122, 123, 124, 125, 126, 127, 128, 129, 130, 131, 132, 166];
    proof {
        assert(r@ =~= available_attribute_ids());
    }
    r
}

/// The localization key of an attribute's name: `attr-<id>`.
pub open spec fn attribute_key(attr_id: u32) -> Seq<char> {
    "attr-"@ + decimal(attr_id as nat)
}

pub fn get_attribute_fluent_key(attr_id: u32) -> (r: String)
    ensures
        r@ == attribute_key(attr_id),
{
    let digits = decimal_exec(attr_id as u128);
    concat("attr-", digits.as_str())
}

/// `Unknown (<id>)`.
pub open spec fn unknown_label(id: u32) -> Seq<char> {
    "Unknown ("@ + decimal(id as nat) + ")"@
}

pub fn unknown_label_exec(id: u32) -> (r: String)
    ensures
        r@ == unknown_label(id),
{
    let digits = decimal_exec(id as u128);
    let head = concat("Unknown (", digits.as_str());
    concat(head.as_str(), ")")
}

/// The display name of an attribute: its translation, else its symbolic name,
/// else `Unknown (<id>)`.
pub open spec fn attribute_display_name(attr_id: u32, t: Seq<(Seq<char>, Seq<char>)>) -> Seq<char> {
    match translated(t, attribute_key(attr_id)) {
        Some(s) => s,
        None => match attribute_of_id(attr_id) {
            Some(a) => attribute_name(a),
            None => unknown_label(attr_id),
        },
    }
}

pub fn get_attribute_display_name(attr_id: u32, translations: &GameTranslation) -> (r: String)
    ensures
        r@ == attribute_display_name(attr_id, translations@),
{
    let key = get_attribute_fluent_key(attr_id);
    if let Some(translated) = translations.get(&key) {
        return translated.clone();
    }
    match ItemAttribute::from_id(attr_id) {
        Some(attr) => String::from_str(attr.name()),
        None => unknown_label_exec(attr_id),
    }
}

} // verus!
