//! Structure templates.

use super::geometry::BlockPos;
use crate::text::str_eq;
use vstd::prelude::*;

verus! {

/// A value of a block's data.
#[derive(Debug)]
pub enum NbtValue {
    Text(String),
    Int(i32),
    Long(i64),
    /// Any other value, as its bytes.
    Other(Vec<u8>),
}

/// A named value of a block's data.
#[derive(Debug)]
pub struct NbtEntry {
    pub key: String,
    pub value: NbtValue,
}

/// What a value is.
pub enum NbtModel {
    Text(Seq<char>),
    Int(i32),
    Long(i64),
    Other(Seq<u8>),
}

impl View for NbtValue {
    type V = NbtModel;

    open spec fn view(&self) -> NbtModel {
        match self {
            NbtValue::Text(s) => NbtModel::Text(s@),
            NbtValue::Int(n) => NbtModel::Int(*n),
            NbtValue::Long(n) => NbtModel::Long(*n),
            NbtValue::Other(bytes) => NbtModel::Other(bytes@),
        }
    }
}

impl View for NbtEntry {
    type V = (Seq<char>, NbtModel);

    open spec fn view(&self) -> (Seq<char>, NbtModel) {
        (self.key@, self.value@)
    }
}

/// What a block's data are.
pub open spec fn nbt_model(entries: Seq<NbtEntry>) -> Seq<(Seq<char>, NbtModel)> {
    entries.map_values(|e: NbtEntry| e@)
}

/// The value with a name, looked up from the `from`th on.
pub open spec fn value_of(
    data: Seq<(Seq<char>, NbtModel)>,
    key: Seq<char>,
    from: int,
) -> Option<NbtModel>
    decreases data.len() - from,
{
    if from < 0 || from >= data.len() {
        None
    } else if data[from].0 == key {
        Some(data[from].1)
    } else {
        value_of(data, key, from + 1)
    }
}

/// The place of the value with a name.
pub fn find_value(data: &Vec<NbtEntry>, key: &str) -> (r: Option<usize>)
    ensures
        match r {
            Some(i) => i < data@.len() && data@[i as int].key@ == key@ && value_of(
                nbt_model(data@),
                key@,
                0,
            ) == Some(data@[i as int].value@),
            None => value_of(nbt_model(data@), key@, 0) is None,
        },
{
    let mut i: usize = 0;
    while i < data.len()
        invariant
            i <= data@.len(),
            value_of(nbt_model(data@), key@, 0) == value_of(nbt_model(data@), key@, i as int),
        decreases data.len() - i,
    {
        if str_eq(data[i].key.as_str(), key) {
            return Some(i);
        }
        i = i + 1;
    }
    None
}

/// The text with a name.
pub open spec fn text_of(data: Seq<(Seq<char>, NbtModel)>, key: Seq<char>) -> Option<Seq<char>> {
    match value_of(data, key, 0) {
        Some(NbtModel::Text(s)) => Some(s),
        _ => None,
    }
}

/// The number with a name.
pub open spec fn int_of(data: Seq<(Seq<char>, NbtModel)>, key: Seq<char>) -> Option<i32> {
    match value_of(data, key, 0) {
        Some(NbtModel::Int(n)) => Some(n),
        _ => None,
    }
}

/// A text, or the empty one where there is none.
pub open spec fn or_empty(text: Option<Seq<char>>) -> Seq<char> {
    match text {
        Some(s) => s,
        None => Seq::empty(),
    }
}

/// Looks up a text.
pub fn get_string(data: &Vec<NbtEntry>, key: &str) -> (r: Option<String>)
    ensures
        match text_of(nbt_model(data@), key@) {
            Some(s) => r is Some && r->0@ == s,
            None => r is None,
        },
{
    match find_value(data, key) {
        None => None,
        Some(i) => match &data[i].value {
            NbtValue::Text(s) => Some(s.as_str().to_owned()),
            _ => None,
        },
    }
}

/// Looks up a text; without one the text is empty.
pub fn get_string_or_empty(data: &Vec<NbtEntry>, key: &str) -> (r: String)
    ensures
        r@ == or_empty(text_of(nbt_model(data@), key@)),
{
    match get_string(data, key) {
        Some(s) => s,
        None => {
            proof {
                reveal_strlit("");
                assert(""@ =~= Seq::<char>::empty());
            }
            "".to_owned()
        },
    }
}

/// Looks up a number.
pub fn get_int(data: &Vec<NbtEntry>, key: &str) -> (r: Option<i32>)
    ensures
        r == int_of(nbt_model(data@), key@),
{
    match find_value(data, key) {
        None => None,
        Some(i) => match &data[i].value {
            NbtValue::Int(n) => Some(*n),
            _ => None,
        },
    }
}

/// A property of a block state.
#[derive(Debug)]
pub struct Property {
    pub key: String,
    pub value: String,
}

/// A block state by its name.
#[derive(Debug)]
pub struct PaletteEntry {
    pub name: String,
    pub properties: Vec<Property>,
}

/// The value of the first property with a name, looked up from the `from`th on.
pub open spec fn property_of(properties: Seq<Property>, key: Seq<char>, from: int) -> Option<
    Seq<char>,
>
    decreases properties.len() - from,
{
    if from < 0 || from >= properties.len() {
        None
    } else if properties[from].key@ == key {
        Some(properties[from].value@)
    } else {
        property_of(properties, key, from + 1)
    }
}

impl PaletteEntry {
    /// Looks up a property.
    pub fn property(&self, key: &str) -> (r: Option<String>)
        ensures
            match property_of(self.properties@, key@, 0) {
                Some(s) => r is Some && r->0@ == s,
                None => r is None,
            },
    {
        let mut i: usize = 0;
        while i < self.properties.len()
            invariant
                i <= self.properties@.len(),
                property_of(self.properties@, key@, 0) == property_of(
                    self.properties@,
                    key@,
                    i as int,
                ),
            decreases self.properties.len() - i,
        {
            if str_eq(self.properties[i].key.as_str(), key) {
                return Some(self.properties[i].value.as_str().to_owned());
            }
            i = i + 1;
        }
        None
    }
}

/// A block of a template.
#[derive(Debug)]
pub struct TemplateBlock {
    pub pos: BlockPos,
    /// The place of the block's state in the palette.
    pub state: u32,
    pub nbt: Option<Vec<NbtEntry>>,
}

/// A template: a box of blocks.
#[derive(Debug)]
pub struct StructureTemplate {
    pub size: BlockPos,
    pub palette: Vec<PaletteEntry>,
    pub blocks: Vec<TemplateBlock>,
}

/// Of values with one name the first is meant, as a text where it is one and as a number where
/// it is one; a name that no value has means none.
pub proof fn law_values_are_found_by_name(
    data: Seq<(Seq<char>, NbtModel)>,
    key: Seq<char>,
    k: int,
)
    ensures
        0 <= k < data.len() && data[k].0 == key && (forall|j: int|
            0 <= j < k ==> (#[trigger] data[j]).0 != key) ==> {
            &&& value_of(data, key, 0) == Some(data[k].1)
            &&& text_of(data, key) == match data[k].1 {
                NbtModel::Text(s) => Some(s),
                _ => None,
            }
            &&& int_of(data, key) == match data[k].1 {
                NbtModel::Int(n) => Some(n),
                _ => None,
            }
        },
        (forall|j: int| 0 <= j < data.len() ==> (#[trigger] data[j]).0 != key) ==> {
            &&& value_of(data, key, 0) is None
            &&& text_of(data, key) is None
            &&& int_of(data, key) is None
            &&& or_empty(text_of(data, key)).len() == 0
        },
        text_of(data, key) matches Some(s) ==> or_empty(text_of(data, key)) == s,
{
    if 0 <= k < data.len() && data[k].0 == key && (forall|j: int|
        0 <= j < k ==> (#[trigger] data[j]).0 != key) {
        lemma_first_value(data, key, 0, k);
    }
    if forall|j: int| 0 <= j < data.len() ==> (#[trigger] data[j]).0 != key {
        lemma_no_value(data, key, 0);
    }
}

proof fn lemma_first_value(data: Seq<(Seq<char>, NbtModel)>, key: Seq<char>, from: int, k: int)
    requires
        0 <= from <= k < data.len(),
        data[k].0 == key,
        forall|j: int| from <= j < k ==> (#[trigger] data[j]).0 != key,
    ensures
        value_of(data, key, from) == Some(data[k].1),
    decreases k - from,
{
    if from < k {
        lemma_first_value(data, key, from + 1, k);
    }
}

proof fn lemma_no_value(data: Seq<(Seq<char>, NbtModel)>, key: Seq<char>, from: int)
    requires
        0 <= from,
        forall|j: int| from <= j < data.len() ==> (#[trigger] data[j]).0 != key,
    ensures
        value_of(data, key, from) is None,
    decreases data.len() - from,
{
    if from < data.len() {
        lemma_no_value(data, key, from + 1);
    }
}

/// Of properties with one name the first is meant; a name that no property has means none.
pub proof fn law_properties_are_found_by_name(properties: Seq<Property>, key: Seq<char>, k: int)
    ensures
        0 <= k < properties.len() && properties[k].key@ == key && (forall|j: int|
            0 <= j < k ==> (#[trigger] properties[j]).key@ != key) ==> property_of(
            properties,
            key,
            0,
        ) == Some(properties[k].value@),
        (forall|j: int| 0 <= j < properties.len() ==> (#[trigger] properties[j]).key@ != key)
            ==> property_of(properties, key, 0) is None,
{
    if 0 <= k < properties.len() && properties[k].key@ == key && (forall|j: int|
        0 <= j < k ==> (#[trigger] properties[j]).key@ != key) {
        lemma_first_property(properties, key, 0, k);
    }
    if forall|j: int| 0 <= j < properties.len() ==> (#[trigger] properties[j]).key@ != key {
        lemma_no_property(properties, key, 0);
    }
}

proof fn lemma_first_property(properties: Seq<Property>, key: Seq<char>, from: int, k: int)
    requires
        0 <= from <= k < properties.len(),
        properties[k].key@ == key,
        forall|j: int| from <= j < k ==> (#[trigger] properties[j]).key@ != key,
    ensures
        property_of(properties, key, from) == Some(properties[k].value@),
    decreases k - from,
{
    if from < k {
        lemma_first_property(properties, key, from + 1, k);
    }
}

proof fn lemma_no_property(properties: Seq<Property>, key: Seq<char>, from: int)
    requires
        0 <= from,
        forall|j: int| from <= j < properties.len() ==> (#[trigger] properties[j]).key@ != key,
    ensures
        property_of(properties, key, from) is None,
    decreases properties.len() - from,
{
    if from < properties.len() {
        lemma_no_property(properties, key, from + 1);
    }
}

} // verus!
