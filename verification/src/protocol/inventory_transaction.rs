//! What a Bedrock client does with its inventory.

use super::serial::{
    ByteReader, PacketRead, Parsed, ReadError, VarInt, VarUInt, VarULong, Vector3Bits,
};
use vstd::prelude::*;

verus! {

pub const WINDOW_ID_INVENTORY: i32 = 0;

pub const WINDOW_ID_OFF_HAND: i32 = 119;

pub const WINDOW_ID_ARMOUR: i32 = 120;

pub const WINDOW_ID_UI: i32 = 124;

/// Where an action takes its items from.
#[derive(Clone, Copy, Debug, PartialEq, Eq, Structural)]
pub enum InventoryActionSource {
    Container,
    World,
    Creative,
    Todo,
    Unknown(u32),
}

/// The source that a number stands for.
pub open spec fn source_of(value: u32) -> InventoryActionSource {
    if value == 0 {
        InventoryActionSource::Container
    } else if value == 2 {
        InventoryActionSource::World
    } else if value == 3 {
        InventoryActionSource::Creative
    } else if value == 99999 {
        InventoryActionSource::Todo
    } else {
        InventoryActionSource::Unknown(value)
    }
}

impl vstd::std_specs::convert::FromSpecImpl<u32> for InventoryActionSource {
    open spec fn obeys_from_spec() -> bool {
        true
    }

    open spec fn from_spec(value: u32) -> Self {
        source_of(value)
    }
}

impl From<u32> for InventoryActionSource {
    fn from(value: u32) -> (r: Self) {
        match value {
            0 => InventoryActionSource::Container,
            2 => InventoryActionSource::World,
            3 => InventoryActionSource::Creative,
            99999 => InventoryActionSource::Todo,
            _ => InventoryActionSource::Unknown(value),
        }
    }
}

/// The fields that have to be there.
pub const FIELD_WINDOW: u8 = 0;

pub const FIELD_FLAGS: u8 = 1;

pub const FIELD_TYPE: u8 = 2;

pub const FIELD_ACTIONS: u8 = 3;

/// The name of a field that has to be there.
pub open spec fn field_text(field: u8) -> Seq<char> {
    if field == FIELD_WINDOW {
        "inventory action window ID"@
    } else if field == FIELD_FLAGS {
        "inventory action source flags"@
    } else if field == FIELD_TYPE {
        "inventory transaction type"@
    } else {
        "inventory transaction actions"@
    }
}

/// The text of an error about a transaction.
pub fn error_text(error: ReadError) -> (s: String)
    ensures
        error matches ReadError::Missing(field) ==> s@ == field_text(field) + " is missing"@,
        error matches ReadError::UnknownTransaction(t) ==> s@
            == "Unknown inventory transaction type: "@ + crate::text::decimal(t as nat),
        error == ReadError::UnexpectedEof ==> s@ == "unexpected end of packet"@,
        error == ReadError::NumberTooLong ==> s@ == "number is too long"@,
        error == ReadError::InvalidText ==> s@ == "text is not UTF-8"@,
        error == ReadError::TextTooLong ==> s@ == "text is too long"@,
{
    match error {
        ReadError::Missing(field) => {
            let mut s = if field == FIELD_WINDOW {
                "inventory action window ID".to_owned()
            } else if field == FIELD_FLAGS {
                "inventory action source flags".to_owned()
            } else if field == FIELD_TYPE {
                "inventory transaction type".to_owned()
            } else {
                "inventory transaction actions".to_owned()
            };
            s.append(" is missing");
            s
        },
        ReadError::UnknownTransaction(t) => {
            let mut s = "Unknown inventory transaction type: ".to_owned();
            crate::text::push_decimal(&mut s, t as u64);
            s
        },
        ReadError::UnexpectedEof => "unexpected end of packet".to_owned(),
        ReadError::NumberTooLong => "number is too long".to_owned(),
        ReadError::InvalidText => "text is not UTF-8".to_owned(),
        ReadError::TextTooLong => "text is too long".to_owned(),
    }
}

/// One value behind another.
pub open spec fn pair<A, B>(first: Parsed<A>, second: spec_fn(int) -> Parsed<B>) -> Parsed<(A, B)> {
    match first {
        Err(e) => Err(e),
        Ok((a, n)) => match second(n) {
            Err(e) => Err(e),
            Ok((b, m)) => Ok(((a, b), n + m)),
        },
    }
}

/// A value behind another that starts at the front of `input`.
pub open spec fn two<A: PacketRead, B: PacketRead>(input: Seq<u8>) -> Parsed<(A::Model, B::Model)> {
    pair(A::parsed(input), |n: int| B::parsed(input.skip(n)))
}

/// Reads two values.
fn read_two<A: PacketRead, B: PacketRead>(reader: &mut ByteReader) -> (r: Result<(A, B), ReadError>)
    ensures
        match two::<A, B>(old(reader)@) {
            Ok(((a, b), n)) => {
                &&& r is Ok
                &&& r->Ok_0.0.model() == a
                &&& r->Ok_0.1.model() == b
                &&& 0 <= n <= old(reader)@.len()
                &&& final(reader)@ == old(reader)@.skip(n)
            },
            Err(e) => r is Err && r->Err_0 == e,
        },
{
    let ghost start = reader@;
    let a = match A::read(reader) {
        Err(e) => return Err(e),
        Ok(a) => a,
    };
    let b = match B::read(reader) {
        Err(e) => return Err(e),
        Ok(b) => b,
    };
    proof {
        let n = A::parsed(start)->Ok_0.1;
        let m = B::parsed(start.skip(n))->Ok_0.1;
        assert(start.skip(n).skip(m) =~= start.skip(n + m));
    }
    Ok((a, b))
}

/// A field that is announced by a flag: it must be announced.
pub open spec fn required(input: Seq<u8>, field: u8) -> Parsed<()> {
    match bool::parsed(input) {
        Err(e) => Err(e),
        Ok((b, n)) => if b {
            Ok(((), n))
        } else {
            Err(ReadError::Missing(field))
        },
    }
}

/// Reads the flag of a field that must be there.
pub fn expect_present(reader: &mut ByteReader, field: u8) -> (r: Result<(), ReadError>)
    ensures
        match required(old(reader)@, field) {
            Ok((_, n)) => r is Ok && 0 <= n <= old(reader)@.len() && final(reader)@ == old(
                reader,
            )@.skip(n),
            Err(e) => r is Err && r->Err_0 == e,
        },
{
    match bool::read(reader) {
        Err(e) => Err(e),
        Ok(true) => Ok(()),
        Ok(false) => Err(ReadError::Missing(field)),
    }
}

/// The required field flag, as a value of its own.
pub struct Required<const FIELD: u8>;

impl<const FIELD: u8> PacketRead for Required<FIELD> {
    type Model = ();

    open spec fn model(&self) -> () {
        ()
    }

    open spec fn parsed(input: Seq<u8>) -> Parsed<()> {
        required(input, FIELD)
    }

    fn read(reader: &mut ByteReader) -> (r: Result<Self, ReadError>) {
        match expect_present(reader, FIELD) {
            Err(e) => Err(e),
            Ok(()) => Ok(Required),
        }
    }
}

/// A value that may be there.
pub struct Optional<T>(pub Option<T>);

impl<T: PacketRead> PacketRead for Optional<T> {
    type Model = Option<T::Model>;

    open spec fn model(&self) -> Option<T::Model> {
        match self.0 {
            Some(v) => Some(v.model()),
            None => None,
        }
    }

    open spec fn parsed(input: Seq<u8>) -> Parsed<Option<T::Model>> {
        match bool::parsed(input) {
            Err(e) => Err(e),
            Ok((present, n)) => if present {
                match T::parsed(input.skip(n)) {
                    Err(e) => Err(e),
                    Ok((v, m)) => Ok((Some(v), n + m)),
                }
            } else {
                Ok((None, n))
            },
        }
    }

    fn read(reader: &mut ByteReader) -> (r: Result<Self, ReadError>) {
        let ghost start = reader@;
        match bool::read(reader) {
            Err(e) => Err(e),
            Ok(false) => Ok(Optional(None)),
            Ok(true) => match T::read(reader) {
                Err(e) => Err(e),
                Ok(v) => {
                    proof {
                        let m = T::parsed(start.skip(1))->Ok_0.1;
                        assert(start.skip(1).skip(m) =~= start.skip(1 + m));
                    }
                    Ok(Optional(Some(v)))
                },
            },
        }
    }
}

/// A window id: one signed byte.
#[derive(Clone, Copy, Debug, PartialEq, Eq, Structural)]
pub struct WindowId(pub i32);

impl PacketRead for WindowId {
    type Model = i32;

    open spec fn model(&self) -> i32 {
        self.0
    }

    open spec fn parsed(input: Seq<u8>) -> Parsed<i32> {
        match u8::parsed(input) {
            Err(e) => Err(e),
            Ok((b, n)) => Ok(
                (
                    if b < 128 {
                        b as i32
                    } else {
                        (b - 256) as i32
                    },
                    n,
                ),
            ),
        }
    }

    fn read(reader: &mut ByteReader) -> (r: Result<Self, ReadError>) {
        match u8::read(reader) {
            Err(e) => Err(e),
            Ok(b) => Ok(
                WindowId(
                    if b < 128 {
                        b as i32
                    } else {
                        b as i32 - 256
                    },
                ),
            ),
        }
    }
}

/// Two values, one behind the other.
pub struct Both<A, B>(pub A, pub B);

impl<A: PacketRead, B: PacketRead> PacketRead for Both<A, B> {
    type Model = (A::Model, B::Model);

    open spec fn model(&self) -> (A::Model, B::Model) {
        (self.0.model(), self.1.model())
    }

    open spec fn parsed(input: Seq<u8>) -> Parsed<(A::Model, B::Model)> {
        two::<A, B>(input)
    }

    fn read(reader: &mut ByteReader) -> (r: Result<Self, ReadError>) {
        match read_two::<A, B>(reader) {
            Err(e) => Err(e),
            Ok((a, b)) => Ok(Both(a, b)),
        }
    }
}

/// `n` values, one behind the other.
pub open spec fn list<T: PacketRead>(input: Seq<u8>, n: nat) -> Parsed<Seq<T::Model>>
    decreases n,
{
    if n == 0 {
        Ok((Seq::empty(), 0))
    } else {
        match list::<T>(input, (n - 1) as nat) {
            Err(e) => Err(e),
            Ok((before, k)) => match T::parsed(input.skip(k)) {
                Err(e) => Err(e),
                Ok((v, m)) => Ok((before.push(v), k + m)),
            },
        }
    }
}

proof fn lemma_list_error<T: PacketRead>(input: Seq<u8>, k: nat, n: nat)
    requires
        k <= n,
        list::<T>(input, k) is Err,
    ensures
        list::<T>(input, n) is Err,
        list::<T>(input, n)->Err_0 == list::<T>(input, k)->Err_0,
    decreases n,
{
    if k < n {
        lemma_list_error::<T>(input, k, (n - 1) as nat);
    }
}

/// The models of read values.
pub open spec fn models<T: PacketRead>(values: Seq<T>) -> Seq<T::Model> {
    values.map_values(|v: T| v.model())
}

/// A list with its length in front.
pub struct Counted<T>(pub Vec<T>);

impl<T: PacketRead> PacketRead for Counted<T> {
    type Model = Seq<T::Model>;

    open spec fn model(&self) -> Seq<T::Model> {
        models(self.0@)
    }

    open spec fn parsed(input: Seq<u8>) -> Parsed<Seq<T::Model>> {
        match VarUInt::parsed(input) {
            Err(e) => Err(e),
            Ok((len, n)) => match list::<T>(input.skip(n), len as nat) {
                Err(e) => Err(e),
                Ok((values, m)) => Ok((values, n + m)),
            },
        }
    }

    fn read(reader: &mut ByteReader) -> (r: Result<Self, ReadError>) {
        let ghost start = reader@;
        let len: u32 = match VarUInt::read(reader) {
            Err(e) => return Err(e),
            Ok(v) => v.0,
        };
        let ghost n = VarUInt::parsed(start)->Ok_0.1;
        let ghost body = start.skip(n);
        let ghost mut at: int = 0;
        let mut values: Vec<T> = Vec::new();
        let mut i: u32 = 0;
        proof {
            assert(models(values@) =~= Seq::<T::Model>::empty());
            assert(body.skip(0) =~= body);
        }
        while i < len
            invariant
                i <= len,
                start == old(reader)@,
                0 <= n <= start.len(),
                body == start.skip(n),
                0 <= at <= body.len(),
                reader@ == body.skip(at),
                VarUInt::parsed(start) == Ok::<(u32, int), ReadError>((len, n)),
                list::<T>(body, i as nat) == Ok::<(Seq<T::Model>, int), ReadError>(
                    (models(values@), at),
                ),
            decreases len - i,
        {
            let ghost before = values@;
            let v = match T::read(reader) {
                Err(e) => {
                    proof {
                        assert(list::<T>(body, (i + 1) as nat) is Err);
                        lemma_list_error::<T>(body, (i + 1) as nat, len as nat);
                    }
                    return Err(e);
                },
                Ok(v) => v,
            };
            values.push(v);
            proof {
                let m = T::parsed(body.skip(at))->Ok_0.1;
                assert(body.skip(at).skip(m) =~= body.skip(at + m));
                assert(models(values@) =~= models(before).push(v.model()));
                at = at + m;
            }
            i = i + 1;
        }
        assert(body.skip(at) =~= start.skip(n + at));
        Ok(Counted(values))
    }
}

/// A list that is only there behind a set flag.
pub struct FlaggedList<T>(pub Vec<T>);

impl<T: PacketRead> PacketRead for FlaggedList<T> {
    type Model = Seq<T::Model>;

    open spec fn model(&self) -> Seq<T::Model> {
        models(self.0@)
    }

    open spec fn parsed(input: Seq<u8>) -> Parsed<Seq<T::Model>> {
        match Optional::<Counted<T>>::parsed(input) {
            Err(e) => Err(e),
            Ok((None, n)) => Ok((Seq::empty(), n)),
            Ok((Some(values), n)) => Ok((values, n)),
        }
    }

    fn read(reader: &mut ByteReader) -> (r: Result<Self, ReadError>) {
        match Optional::<Counted<T>>::read(reader) {
            Err(e) => Err(e),
            Ok(Optional(None)) => {
                let values: Vec<T> = Vec::new();
                assert(models(values@) =~= Seq::<T::Model>::empty());
                Ok(FlaggedList(values))
            },
            Ok(Optional(Some(Counted(values)))) => Ok(FlaggedList(values)),
        }
    }
}

/// Slots that an older request changed.
pub struct LegacySetItemSlot {
    pub container_id: u8,
    pub slots: Vec<u8>,
}

pub struct LegacySlotModel {
    pub container_id: u8,
    pub slots: Seq<u8>,
}

impl PacketRead for LegacySetItemSlot {
    type Model = LegacySlotModel;

    open spec fn model(&self) -> LegacySlotModel {
        LegacySlotModel { container_id: self.container_id, slots: self.slots@ }
    }

    open spec fn parsed(input: Seq<u8>) -> Parsed<LegacySlotModel> {
        match two::<u8, Counted<u8>>(input) {
            Err(e) => Err(e),
            Ok(((container_id, slots), n)) => Ok((LegacySlotModel { container_id, slots }, n)),
        }
    }

    fn read(reader: &mut ByteReader) -> (r: Result<Self, ReadError>) {
        match read_two::<u8, Counted<u8>>(reader) {
            Err(e) => Err(e),
            Ok((container_id, Counted(slots))) => {
                assert(models(slots@) =~= slots@);
                Ok(LegacySetItemSlot { container_id, slots })
            },
        }
    }
}

/// A change of one slot.
pub struct InventoryAction<I> {
    pub source_type: u32,
    pub window_id: Option<i32>,
    pub source_flags: Option<u32>,
    pub inventory_slot: u32,
    pub old_item: I,
    pub new_item: I,
}

pub struct InventoryActionModel<M> {
    pub source_type: u32,
    pub window_id: Option<i32>,
    pub source_flags: Option<u32>,
    pub inventory_slot: u32,
    pub old_item: M,
    pub new_item: M,
}

/// The layout of a change: the source, the window behind its flags, the source's flags
/// behind theirs, the slot, and the items before and after.
pub type ActionLayout<I> = Both<
    VarUInt,
    Both<
        Required<FIELD_WINDOW>,
        Both<
            Optional<WindowId>,
            Both<
                Required<FIELD_FLAGS>,
                Both<Optional<VarUInt>, Both<VarUInt, Both<I, I>>>,
            >,
        >,
    >,
>;

impl<I: PacketRead> PacketRead for InventoryAction<I> {
    type Model = InventoryActionModel<I::Model>;

    open spec fn model(&self) -> InventoryActionModel<I::Model> {
        InventoryActionModel {
            source_type: self.source_type,
            window_id: self.window_id,
            source_flags: self.source_flags,
            inventory_slot: self.inventory_slot,
            old_item: self.old_item.model(),
            new_item: self.new_item.model(),
        }
    }

    open spec fn parsed(input: Seq<u8>) -> Parsed<InventoryActionModel<I::Model>> {
        match ActionLayout::<I>::parsed(input) {
            Err(e) => Err(e),
            Ok(((source_type, (_, (window_id, (_, (source_flags, (inventory_slot, (old_item, new_item))))))), n))
                => Ok(
                (
                    InventoryActionModel {
                        source_type,
                        window_id,
                        source_flags,
                        inventory_slot,
                        old_item,
                        new_item,
                    },
                    n,
                ),
            ),
        }
    }

    fn read(reader: &mut ByteReader) -> (r: Result<Self, ReadError>) {
        match ActionLayout::<I>::read(reader) {
            Err(e) => Err(e),
            Ok(
                Both(
                    source,
                    Both(_, Both(window, Both(_, Both(flags, Both(slot, Both(old_item, new_item)))))),
                ),
            ) => {
                let window_id = match window.0 {
                    Some(w) => Some(w.0),
                    None => None,
                };
                let source_flags = match flags.0 {
                    Some(f) => Some(f.0),
                    None => None,
                };
                Ok(
                    InventoryAction {
                        source_type: source.0,
                        window_id,
                        source_flags,
                        inventory_slot: slot.0,
                        old_item,
                        new_item,
                    },
                )
            },
        }
    }
}

/// The use of an item on a block or in the air.
pub struct UseItemTransactionData<I, P> {
    pub action_type: VarUInt,
    pub trigger_type: u8,
    pub block_position: P,
    pub block_face: i32,
    pub hot_bar_slot: VarInt,
    pub item_in_hand: I,
    pub player_position: Vector3Bits,
    pub click_position: Vector3Bits,
    pub block_runtime_id: VarUInt,
    pub client_prediction: u8,
    pub client_cooldown_state: u8,
}

pub struct UseItemModel<M, Q> {
    pub action_type: u32,
    pub trigger_type: u8,
    pub block_position: Q,
    pub block_face: i32,
    pub hot_bar_slot: i32,
    pub item_in_hand: M,
    pub player_position: Vector3Bits,
    pub click_position: Vector3Bits,
    pub block_runtime_id: u32,
    pub client_prediction: u8,
    pub client_cooldown_state: u8,
}

/// The layout of the use of an item.
pub type UseItemLayout<I, P> = Both<
    VarUInt,
    Both<
        u8,
        Both<
            P,
            Both<
                u8,
                Both<
                    VarInt,
                    Both<
                        I,
                        Both<
                            Vector3Bits,
                            Both<Vector3Bits, Both<VarUInt, Both<u8, u8>>>,
                        >,
                    >,
                >,
            >,
        >,
    >,
>;

impl<I: PacketRead, P: PacketRead> PacketRead for UseItemTransactionData<I, P> {
    type Model = UseItemModel<I::Model, P::Model>;

    open spec fn model(&self) -> UseItemModel<I::Model, P::Model> {
        UseItemModel {
            action_type: self.action_type.0,
            trigger_type: self.trigger_type,
            block_position: self.block_position.model(),
            block_face: self.block_face,
            hot_bar_slot: self.hot_bar_slot.0,
            item_in_hand: self.item_in_hand.model(),
            player_position: self.player_position,
            click_position: self.click_position,
            block_runtime_id: self.block_runtime_id.0,
            client_prediction: self.client_prediction,
            client_cooldown_state: self.client_cooldown_state,
        }
    }

    open spec fn parsed(input: Seq<u8>) -> Parsed<UseItemModel<I::Model, P::Model>> {
        match UseItemLayout::<I, P>::parsed(input) {
            Err(e) => Err(e),
            Ok((m, n)) => {
                let (action_type, m) = m;
                let (trigger_type, m) = m;
                let (block_position, m) = m;
                let (face, m) = m;
                let (hot_bar_slot, m) = m;
                let (item_in_hand, m) = m;
                let (player_position, m) = m;
                let (click_position, m) = m;
                let (block_runtime_id, m) = m;
                let (client_prediction, client_cooldown_state) = m;
                Ok(
                    (
                        UseItemModel {
                            action_type,
                            trigger_type,
                            block_position,
                            block_face: face as i32,
                            hot_bar_slot,
                            item_in_hand,
                            player_position,
                            click_position,
                            block_runtime_id,
                            client_prediction,
                            client_cooldown_state,
                        },
                        n,
                    ),
                )
            },
        }
    }

    fn read(reader: &mut ByteReader) -> (r: Result<Self, ReadError>) {
        match UseItemLayout::<I, P>::read(reader) {
            Err(e) => Err(e),
            Ok(l) => {
                let Both(action_type, l) = l;
                let Both(trigger_type, l) = l;
                let Both(block_position, l) = l;
                let Both(face, l) = l;
                let Both(hot_bar_slot, l) = l;
                let Both(item_in_hand, l) = l;
                let Both(player_position, l) = l;
                let Both(click_position, l) = l;
                let Both(block_runtime_id, l) = l;
                let Both(client_prediction, client_cooldown_state) = l;
                Ok(
                    UseItemTransactionData {
                        action_type,
                        trigger_type,
                        block_position,
                        block_face: face as i32,
                        hot_bar_slot,
                        item_in_hand,
                        player_position,
                        click_position,
                        block_runtime_id,
                        client_prediction,
                        client_cooldown_state,
                    },
                )
            },
        }
    }
}

/// The use of an item on an entity.
pub struct UseItemOnEntityTransactionData<I> {
    pub target_entity_runtime_id: VarULong,
    pub action_type: VarInt,
    pub hot_bar_slot: VarInt,
    pub item_in_hand: I,
    pub player_position: Vector3Bits,
    pub click_position: Vector3Bits,
}

pub struct UseItemOnEntityModel<M> {
    pub target_entity_runtime_id: u64,
    pub action_type: i32,
    pub hot_bar_slot: i32,
    pub item_in_hand: M,
    pub player_position: Vector3Bits,
    pub click_position: Vector3Bits,
}

/// The layout of the use of an item on an entity.
pub type UseItemOnEntityLayout<I> = Both<
    VarULong,
    Both<VarInt, Both<VarInt, Both<I, Both<Vector3Bits, Vector3Bits>>>>,
>;

impl<I: PacketRead> PacketRead for UseItemOnEntityTransactionData<I> {
    type Model = UseItemOnEntityModel<I::Model>;

    open spec fn model(&self) -> UseItemOnEntityModel<I::Model> {
        UseItemOnEntityModel {
            target_entity_runtime_id: self.target_entity_runtime_id.0,
            action_type: self.action_type.0,
            hot_bar_slot: self.hot_bar_slot.0,
            item_in_hand: self.item_in_hand.model(),
            player_position: self.player_position,
            click_position: self.click_position,
        }
    }

    open spec fn parsed(input: Seq<u8>) -> Parsed<UseItemOnEntityModel<I::Model>> {
        match UseItemOnEntityLayout::<I>::parsed(input) {
            Err(e) => Err(e),
            Ok(((target_entity_runtime_id, (action_type, (hot_bar_slot, (item_in_hand, (player_position, click_position))))), n))
                => Ok(
                (
                    UseItemOnEntityModel {
                        target_entity_runtime_id,
                        action_type,
                        hot_bar_slot,
                        item_in_hand,
                        player_position,
                        click_position,
                    },
                    n,
                ),
            ),
        }
    }

    fn read(reader: &mut ByteReader) -> (r: Result<Self, ReadError>) {
        match UseItemOnEntityLayout::<I>::read(reader) {
            Err(e) => Err(e),
            Ok(Both(target, Both(action, Both(slot, Both(item_in_hand, Both(player, click)))))) => Ok(
                UseItemOnEntityTransactionData {
                    target_entity_runtime_id: target,
                    action_type: action,
                    hot_bar_slot: slot,
                    item_in_hand,
                    player_position: player,
                    click_position: click,
                },
            ),
        }
    }
}

/// The release of an item that was held in use.
pub struct ReleaseItemTransactionData<I> {
    pub action_type: VarInt,
    pub hot_bar_slot: VarInt,
    pub item_in_hand: I,
    pub head_position: Vector3Bits,
}

pub struct ReleaseItemModel<M> {
    pub action_type: i32,
    pub hot_bar_slot: i32,
    pub item_in_hand: M,
    pub head_position: Vector3Bits,
}

/// The layout of the release of an item.
pub type ReleaseItemLayout<I> = Both<VarInt, Both<VarInt, Both<I, Vector3Bits>>>;

impl<I: PacketRead> PacketRead for ReleaseItemTransactionData<I> {
    type Model = ReleaseItemModel<I::Model>;

    open spec fn model(&self) -> ReleaseItemModel<I::Model> {
        ReleaseItemModel {
            action_type: self.action_type.0,
            hot_bar_slot: self.hot_bar_slot.0,
            item_in_hand: self.item_in_hand.model(),
            head_position: self.head_position,
        }
    }

    open spec fn parsed(input: Seq<u8>) -> Parsed<ReleaseItemModel<I::Model>> {
        match ReleaseItemLayout::<I>::parsed(input) {
            Err(e) => Err(e),
            Ok(((action_type, (hot_bar_slot, (item_in_hand, head_position))), n)) => Ok(
                (
                    ReleaseItemModel { action_type, hot_bar_slot, item_in_hand, head_position },
                    n,
                ),
            ),
        }
    }

    fn read(reader: &mut ByteReader) -> (r: Result<Self, ReadError>) {
        match ReleaseItemLayout::<I>::read(reader) {
            Err(e) => Err(e),
            Ok(Both(action, Both(slot, Both(item_in_hand, head_position)))) => Ok(
                ReleaseItemTransactionData {
                    action_type: action,
                    hot_bar_slot: slot,
                    item_in_hand,
                    head_position,
                },
            ),
        }
    }
}

/// A transaction that only moves items.
pub struct NormalTransactionData;

/// A transaction that the client could not follow.
pub struct MismatchTransactionData;

/// What a transaction is about.
pub enum TransactionData<I, P> {
    Normal(NormalTransactionData),
    Mismatch(MismatchTransactionData),
    UseItem(UseItemTransactionData<I, P>),
    UseItemOnEntity(UseItemOnEntityTransactionData<I>),
    ReleaseItem(ReleaseItemTransactionData<I>),
}

pub enum TransactionModel<M, Q> {
    Normal,
    Mismatch,
    UseItem(UseItemModel<M, Q>),
    UseItemOnEntity(UseItemOnEntityModel<M>),
    ReleaseItem(ReleaseItemModel<M>),
}

impl<I: PacketRead, P: PacketRead> TransactionData<I, P> {
    pub open spec fn model(&self) -> TransactionModel<I::Model, P::Model> {
        match self {
            TransactionData::Normal(_) => TransactionModel::Normal,
            TransactionData::Mismatch(_) => TransactionModel::Mismatch,
            TransactionData::UseItem(d) => TransactionModel::UseItem(d.model()),
            TransactionData::UseItemOnEntity(d) => TransactionModel::UseItemOnEntity(d.model()),
            TransactionData::ReleaseItem(d) => TransactionModel::ReleaseItem(d.model()),
        }
    }

    /// What the front of `input` holds for a transaction of a type.
    pub open spec fn parsed_as(input: Seq<u8>, kind: u32) -> Parsed<
        TransactionModel<I::Model, P::Model>,
    > {
        if kind == 0 {
            Ok((TransactionModel::Normal, 0))
        } else if kind == 1 {
            Ok((TransactionModel::Mismatch, 0))
        } else if kind == 2 {
            match UseItemTransactionData::<I, P>::parsed(input) {
                Err(e) => Err(e),
                Ok((d, n)) => Ok((TransactionModel::UseItem(d), n)),
            }
        } else if kind == 3 {
            match UseItemOnEntityTransactionData::<I>::parsed(input) {
                Err(e) => Err(e),
                Ok((d, n)) => Ok((TransactionModel::UseItemOnEntity(d), n)),
            }
        } else if kind == 4 {
            match ReleaseItemTransactionData::<I>::parsed(input) {
                Err(e) => Err(e),
                Ok((d, n)) => Ok((TransactionModel::ReleaseItem(d), n)),
            }
        } else {
            Err(ReadError::UnknownTransaction(kind))
        }
    }

    fn read_as(reader: &mut ByteReader, kind: u32) -> (r: Result<Self, ReadError>)
        ensures
            match Self::parsed_as(old(reader)@, kind) {
                Ok((m, n)) => {
                    &&& r is Ok
                    &&& r->Ok_0.model() == m
                    &&& 0 <= n <= old(reader)@.len()
                    &&& final(reader)@ == old(reader)@.skip(n)
                },
                Err(e) => r is Err && r->Err_0 == e,
            },
    {
        assert(reader@.skip(0) =~= reader@);
        match kind {
            0 => Ok(TransactionData::Normal(NormalTransactionData)),
            1 => Ok(TransactionData::Mismatch(MismatchTransactionData)),
            2 => match UseItemTransactionData::<I, P>::read(reader) {
                Err(e) => Err(e),
                Ok(d) => Ok(TransactionData::UseItem(d)),
            },
            3 => match UseItemOnEntityTransactionData::<I>::read(reader) {
                Err(e) => Err(e),
                Ok(d) => Ok(TransactionData::UseItemOnEntity(d)),
            },
            4 => match ReleaseItemTransactionData::<I>::read(reader) {
                Err(e) => Err(e),
                Ok(d) => Ok(TransactionData::ReleaseItem(d)),
            },
            _ => Err(ReadError::UnknownTransaction(kind)),
        }
    }
}

/// A transaction of a client.
pub struct SInventoryTransaction<I, P> {
    pub legacy_request_id: VarInt,
    pub legacy_set_item_slots: Vec<LegacySetItemSlot>,
    pub actions: Vec<InventoryAction<I>>,
    pub transaction_type: VarUInt,
    pub transaction_data: TransactionData<I, P>,
}

pub struct SInventoryTransactionModel<M, Q> {
    pub legacy_request_id: i32,
    pub legacy_set_item_slots: Seq<LegacySlotModel>,
    pub actions: Seq<InventoryActionModel<M>>,
    pub transaction_type: u32,
    pub transaction_data: TransactionModel<M, Q>,
}

/// The layout of a transaction up to its data: the request, its slots where they are
/// flagged, the type behind its flag, and the actions behind theirs.
pub type TransactionHead<I> = Both<
    VarInt,
    Both<
        FlaggedList<LegacySetItemSlot>,
        Both<
            Required<FIELD_TYPE>,
            Both<VarUInt, Both<Required<FIELD_ACTIONS>, Counted<InventoryAction<I>>>>,
        >,
    >,
>;

impl<I: PacketRead, P: PacketRead> PacketRead for SInventoryTransaction<I, P> {
    type Model = SInventoryTransactionModel<I::Model, P::Model>;

    open spec fn model(&self) -> SInventoryTransactionModel<I::Model, P::Model> {
        SInventoryTransactionModel {
            legacy_request_id: self.legacy_request_id.0,
            legacy_set_item_slots: models(self.legacy_set_item_slots@),
            actions: models(self.actions@),
            transaction_type: self.transaction_type.0,
            transaction_data: self.transaction_data.model(),
        }
    }

    open spec fn parsed(input: Seq<u8>) -> Parsed<SInventoryTransactionModel<I::Model, P::Model>> {
        match TransactionHead::<I>::parsed(input) {
            Err(e) => Err(e),
            Ok(((legacy_request_id, (legacy_set_item_slots, (_, (transaction_type, (_, actions))))), n))
                => match TransactionData::<I, P>::parsed_as(input.skip(n), transaction_type) {
                Err(e) => Err(e),
                Ok((transaction_data, m)) => Ok(
                    (
                        SInventoryTransactionModel {
                            legacy_request_id,
                            legacy_set_item_slots,
                            actions,
                            transaction_type,
                            transaction_data,
                        },
                        n + m,
                    ),
                ),
            },
        }
    }

    fn read(reader: &mut ByteReader) -> (r: Result<Self, ReadError>) {
        let ghost start = reader@;
        match TransactionHead::<I>::read(reader) {
            Err(e) => Err(e),
            Ok(Both(request, Both(slots, Both(_, Both(kind, Both(_, actions)))))) => {
                let ghost n = TransactionHead::<I>::parsed(start)->Ok_0.1;
                match TransactionData::<I, P>::read_as(reader, kind.0) {
                    Err(e) => Err(e),
                    Ok(transaction_data) => {
                        proof {
                            let m = TransactionData::<I, P>::parsed_as(
                                start.skip(n),
                                kind.0,
                            )->Ok_0.1;
                            assert(start.skip(n).skip(m) =~= start.skip(n + m));
                        }
                        Ok(
                            SInventoryTransaction {
                                legacy_request_id: request,
                                legacy_set_item_slots: slots.0,
                                actions: actions.0,
                                transaction_type: kind,
                                transaction_data,
                            },
                        )
                    },
                }
            },
        }
    }
}

/// Each source has its number, and an unknown number is kept.
pub proof fn law_sources_have_their_numbers(a: u32, b: u32)
    ensures
        source_of(a) == source_of(b) ==> a == b,
        source_of(0) == InventoryActionSource::Container,
        source_of(2) == InventoryActionSource::World,
        source_of(3) == InventoryActionSource::Creative,
        source_of(99999) == InventoryActionSource::Todo,
        source_of(a) is Unknown <==> a != 0 && a != 2 && a != 3 && a != 99999,
{
}

/// A window id is one signed byte.
pub proof fn law_window_ids_are_signed_bytes(b: u8, rest: Seq<u8>)
    ensures
        WindowId::parsed(seq![b] + rest) matches Ok((id, n)) && n == 1 && -128 <= id <= 127 && (id
            - b) % 256 == 0,
{
}

/// A value that may be there is there just behind a set flag, and one that has to be there is
/// missed behind a flag that is not set.
pub proof fn law_flags_announce_values<T: PacketRead>(input: Seq<u8>, field: u8)
    requires
        input.len() > 0,
    ensures
        input[0] == 0 ==> Optional::<T>::parsed(input) == Ok::<(Option<T::Model>, int), ReadError>(
            (None, 1),
        ),
        input[0] != 0 ==> match T::parsed(input.skip(1)) {
            Ok((v, n)) => Optional::<T>::parsed(input) == Ok::<(Option<T::Model>, int), ReadError>(
                (Some(v), n + 1),
            ),
            Err(e) => Optional::<T>::parsed(input) == Err::<(Option<T::Model>, int), ReadError>(e),
        },
        input[0] == 0 ==> required(input, field) == Err::<((), int), ReadError>(
            ReadError::Missing(field),
        ),
        input[0] != 0 ==> required(input, field) == Ok::<((), int), ReadError>(((), 1)),
{
}

/// A list of values is each of them, one behind the other, as many as its length says.
pub proof fn law_lists_are_read_one_by_one<T: PacketRead>(
    input: Seq<u8>,
    n: nat,
    before: Seq<T::Model>,
    k: int,
    next: T::Model,
    m: int,
)
    requires
        list::<T>(input, n) == Ok::<(Seq<T::Model>, int), ReadError>((before, k)),
        T::parsed(input.skip(k)) == Ok::<(T::Model, int), ReadError>((next, m)),
    ensures
        list::<T>(input, n + 1) == Ok::<(Seq<T::Model>, int), ReadError>(
            (before.push(next), k + m),
        ),
        list::<T>(input, 0) == Ok::<(Seq<T::Model>, int), ReadError>((Seq::empty(), 0)),
{
}

/// The release of an item is its action, the slot, the item and the position of the head, in
/// that order.
pub proof fn law_releases_are_read_in_order<I: PacketRead>(
    input: Seq<u8>,
    action_type: (i32, int),
    slot: (i32, int),
    item: (I::Model, int),
    head: (Vector3Bits, int),
)
    requires
        VarInt::parsed(input) == Ok::<(i32, int), ReadError>(action_type),
        VarInt::parsed(input.skip(action_type.1)) == Ok::<(i32, int), ReadError>(slot),
        I::parsed(input.skip(action_type.1).skip(slot.1)) == Ok::<(I::Model, int), ReadError>(
            item,
        ),
        Vector3Bits::parsed(input.skip(action_type.1).skip(slot.1).skip(item.1)) == Ok::<
            (Vector3Bits, int),
            ReadError,
        >(head),
    ensures
        ReleaseItemTransactionData::<I>::parsed(input) == Ok::<
            (ReleaseItemModel<I::Model>, int),
            ReadError,
        >(
            (
                ReleaseItemModel {
                    action_type: action_type.0,
                    hot_bar_slot: slot.0,
                    item_in_hand: item.0,
                    head_position: head.0,
                },
                action_type.1 + slot.1 + item.1 + head.1,
            ),
        ),
{
}

/// The use of an item on an entity is the entity, the action, the slot, the item, and the
/// positions of the player and of the click, in that order.
pub proof fn law_uses_on_entities_are_read_in_order<I: PacketRead>(
    input: Seq<u8>,
    target: (u64, int),
    action_type: (i32, int),
    slot: (i32, int),
    item: (I::Model, int),
    player: (Vector3Bits, int),
    click: (Vector3Bits, int),
)
    requires
        VarULong::parsed(input) == Ok::<(u64, int), ReadError>(target),
        VarInt::parsed(input.skip(target.1)) == Ok::<(i32, int), ReadError>(action_type),
        VarInt::parsed(input.skip(target.1).skip(action_type.1)) == Ok::<(i32, int), ReadError>(
            slot,
        ),
        I::parsed(input.skip(target.1).skip(action_type.1).skip(slot.1)) == Ok::<
            (I::Model, int),
            ReadError,
        >(item),
        Vector3Bits::parsed(
            input.skip(target.1).skip(action_type.1).skip(slot.1).skip(item.1),
        ) == Ok::<(Vector3Bits, int), ReadError>(player),
        Vector3Bits::parsed(
            input.skip(target.1).skip(action_type.1).skip(slot.1).skip(item.1).skip(player.1),
        ) == Ok::<(Vector3Bits, int), ReadError>(click),
    ensures
        UseItemOnEntityTransactionData::<I>::parsed(input) == Ok::<
            (UseItemOnEntityModel<I::Model>, int),
            ReadError,
        >(
            (
                UseItemOnEntityModel {
                    target_entity_runtime_id: target.0,
                    action_type: action_type.0,
                    hot_bar_slot: slot.0,
                    item_in_hand: item.0,
                    player_position: player.0,
                    click_position: click.0,
                },
                target.1 + action_type.1 + slot.1 + item.1 + player.1 + click.1,
            ),
        ),
{
}

/// Older slots are a container and then its slots.
pub proof fn law_older_slots_follow_their_container(
    input: Seq<u8>,
    slots: Seq<u8>,
    n: int,
)
    requires
        input.len() > 0,
        Counted::<u8>::parsed(input.skip(1)) == Ok::<(Seq<u8>, int), ReadError>((slots, n)),
    ensures
        LegacySetItemSlot::parsed(input) == Ok::<(LegacySlotModel, int), ReadError>(
            (LegacySlotModel { container_id: input[0], slots }, n + 1),
        ),
{
}

/// Each type of transaction is read as what it is: the first two have no data, and an unknown
/// type is refused.
pub proof fn law_transactions_have_their_types<I: PacketRead, P: PacketRead>(
    input: Seq<u8>,
    kind: u32,
)
    ensures
        TransactionData::<I, P>::parsed_as(input, 0) == Ok::<
            (TransactionModel<I::Model, P::Model>, int),
            ReadError,
        >((TransactionModel::Normal, 0)),
        TransactionData::<I, P>::parsed_as(input, 1) == Ok::<
            (TransactionModel<I::Model, P::Model>, int),
            ReadError,
        >((TransactionModel::Mismatch, 0)),
        TransactionData::<I, P>::parsed_as(input, 2) matches Ok((d, n)) ==> d is UseItem,
        TransactionData::<I, P>::parsed_as(input, 2) is Ok <==> UseItemTransactionData::<
            I,
            P,
        >::parsed(input) is Ok,
        TransactionData::<I, P>::parsed_as(input, 3) matches Ok((d, n)) ==> d is UseItemOnEntity,
        TransactionData::<I, P>::parsed_as(input, 3) is Ok
            <==> UseItemOnEntityTransactionData::<I>::parsed(input) is Ok,
        TransactionData::<I, P>::parsed_as(input, 4) matches Ok((d, n)) ==> d is ReleaseItem,
        TransactionData::<I, P>::parsed_as(input, 4) is Ok <==> ReleaseItemTransactionData::<
            I,
        >::parsed(input) is Ok,
        kind > 4 ==> TransactionData::<I, P>::parsed_as(input, kind) == Err::<
            (TransactionModel<I::Model, P::Model>, int),
            ReadError,
        >(ReadError::UnknownTransaction(kind)),
{
}

/// The use of an item is its action and trigger, the block and its face, the slot, the item, the
/// positions of the player and of the click, the block's id, and the client's prediction and
/// cooldown, in that order.
pub proof fn law_uses_are_read_in_order<I: PacketRead, P: PacketRead>(
    input: Seq<u8>,
    action_type: (u32, int),
    trigger: (u8, int),
    block: (P::Model, int),
    face: (u8, int),
    slot: (i32, int),
    item: (I::Model, int),
    player: (Vector3Bits, int),
    click: (Vector3Bits, int),
    runtime_id: (u32, int),
    prediction: (u8, int),
    cooldown: (u8, int),
)
    requires
        VarUInt::parsed(input) == Ok::<(u32, int), ReadError>(action_type),
        u8::parsed(input.skip(action_type.1)) == Ok::<(u8, int), ReadError>(trigger),
        P::parsed(input.skip(action_type.1).skip(trigger.1)) == Ok::<(P::Model, int), ReadError>(block),
        u8::parsed(input.skip(action_type.1).skip(trigger.1).skip(block.1)) == Ok::<(u8, int), ReadError>(face),
        VarInt::parsed(input.skip(action_type.1).skip(trigger.1).skip(block.1).skip(face.1)) == Ok::<(i32, int), ReadError>(slot),
        I::parsed(input.skip(action_type.1).skip(trigger.1).skip(block.1).skip(face.1).skip(slot.1)) == Ok::<(I::Model, int), ReadError>(item),
        Vector3Bits::parsed(input.skip(action_type.1).skip(trigger.1).skip(block.1).skip(face.1).skip(slot.1).skip(item.1)) == Ok::<(Vector3Bits, int), ReadError>(player),
        Vector3Bits::parsed(input.skip(action_type.1).skip(trigger.1).skip(block.1).skip(face.1).skip(slot.1).skip(item.1).skip(player.1)) == Ok::<(Vector3Bits, int), ReadError>(click),
        VarUInt::parsed(input.skip(action_type.1).skip(trigger.1).skip(block.1).skip(face.1).skip(slot.1).skip(item.1).skip(player.1).skip(click.1)) == Ok::<(u32, int), ReadError>(runtime_id),
        u8::parsed(input.skip(action_type.1).skip(trigger.1).skip(block.1).skip(face.1).skip(slot.1).skip(item.1).skip(player.1).skip(click.1).skip(runtime_id.1)) == Ok::<(u8, int), ReadError>(prediction),
        u8::parsed(input.skip(action_type.1).skip(trigger.1).skip(block.1).skip(face.1).skip(slot.1).skip(item.1).skip(player.1).skip(click.1).skip(runtime_id.1).skip(prediction.1)) == Ok::<(u8, int), ReadError>(cooldown),
    ensures
        UseItemTransactionData::<I, P>::parsed(input) == Ok::<
            (UseItemModel<I::Model, P::Model>, int),
            ReadError,
        >(
            (
                UseItemModel {
                    action_type: action_type.0,
                    trigger_type: trigger.0,
                    block_position: block.0,
                    block_face: face.0 as i32,
                    hot_bar_slot: slot.0,
                    item_in_hand: item.0,
                    player_position: player.0,
                    click_position: click.0,
                    block_runtime_id: runtime_id.0,
                    client_prediction: prediction.0,
                    client_cooldown_state: cooldown.0,
                },
                action_type.1 + trigger.1 + block.1 + face.1 + slot.1 + item.1 + player.1 + click.1 + runtime_id.1 + prediction.1 + cooldown.1,
            ),
        ),
{
}

/// A change of a slot is its source, the window, the source's flags, the slot, and the items
/// before and after, in that order.
pub proof fn law_changes_are_read_in_order<I: PacketRead>(
    input: Seq<u8>,
    source: (u32, int),
    window_flag: ((), int),
    window: (Option<i32>, int),
    flags_flag: ((), int),
    flags: (Option<u32>, int),
    slot: (u32, int),
    old_item: (I::Model, int),
    new_item: (I::Model, int),
)
    requires
        VarUInt::parsed(input) == Ok::<(u32, int), ReadError>(source),
        Required::<FIELD_WINDOW>::parsed(input.skip(source.1)) == Ok::<((), int), ReadError>(window_flag),
        Optional::<WindowId>::parsed(input.skip(source.1).skip(window_flag.1)) == Ok::<(Option<i32>, int), ReadError>(window),
        Required::<FIELD_FLAGS>::parsed(input.skip(source.1).skip(window_flag.1).skip(window.1)) == Ok::<((), int), ReadError>(flags_flag),
        Optional::<VarUInt>::parsed(input.skip(source.1).skip(window_flag.1).skip(window.1).skip(flags_flag.1)) == Ok::<(Option<u32>, int), ReadError>(flags),
        VarUInt::parsed(input.skip(source.1).skip(window_flag.1).skip(window.1).skip(flags_flag.1).skip(flags.1)) == Ok::<(u32, int), ReadError>(slot),
        I::parsed(input.skip(source.1).skip(window_flag.1).skip(window.1).skip(flags_flag.1).skip(flags.1).skip(slot.1)) == Ok::<(I::Model, int), ReadError>(old_item),
        I::parsed(input.skip(source.1).skip(window_flag.1).skip(window.1).skip(flags_flag.1).skip(flags.1).skip(slot.1).skip(old_item.1)) == Ok::<(I::Model, int), ReadError>(new_item),
    ensures
        InventoryAction::<I>::parsed(input) == Ok::<(InventoryActionModel<I::Model>, int), ReadError>(
            (
                InventoryActionModel {
                    source_type: source.0,
                    window_id: window.0,
                    source_flags: flags.0,
                    inventory_slot: slot.0,
                    old_item: old_item.0,
                    new_item: new_item.0,
                },
                source.1 + window_flag.1 + window.1 + flags_flag.1 + flags.1 + slot.1 + old_item.1 + new_item.1,
            ),
        ),
{
}

/// A transaction is its request, the older slots, its type, its changes, and then the data of
/// its type, in that order.
pub proof fn law_whole_transactions_are_read_in_order<I: PacketRead, P: PacketRead>(
    input: Seq<u8>,
    request: (i32, int),
    slots: (Seq<LegacySlotModel>, int),
    type_flag: ((), int),
    kind: (u32, int),
    actions_flag: ((), int),
    actions: (Seq<InventoryActionModel<I::Model>>, int),
    data: (TransactionModel<I::Model, P::Model>, int),
)
    requires
        VarInt::parsed(input) == Ok::<(i32, int), ReadError>(request),
        FlaggedList::<LegacySetItemSlot>::parsed(input.skip(request.1)) == Ok::<(Seq<LegacySlotModel>, int), ReadError>(slots),
        Required::<FIELD_TYPE>::parsed(input.skip(request.1).skip(slots.1)) == Ok::<((), int), ReadError>(type_flag),
        VarUInt::parsed(input.skip(request.1).skip(slots.1).skip(type_flag.1)) == Ok::<(u32, int), ReadError>(kind),
        Required::<FIELD_ACTIONS>::parsed(input.skip(request.1).skip(slots.1).skip(type_flag.1).skip(kind.1)) == Ok::<((), int), ReadError>(actions_flag),
        Counted::<InventoryAction<I>>::parsed(input.skip(request.1).skip(slots.1).skip(type_flag.1).skip(kind.1).skip(actions_flag.1)) == Ok::<(Seq<InventoryActionModel<I::Model>>, int), ReadError>(actions),
        TransactionData::<I, P>::parsed_as(input.skip(request.1 + slots.1 + type_flag.1 + kind.1 + actions_flag.1 + actions.1), kind.0) == Ok::<
            (TransactionModel<I::Model, P::Model>, int),
            ReadError,
        >(data),
    ensures
        SInventoryTransaction::<I, P>::parsed(input) == Ok::<
            (SInventoryTransactionModel<I::Model, P::Model>, int),
            ReadError,
        >(
            (
                SInventoryTransactionModel {
                    legacy_request_id: request.0,
                    legacy_set_item_slots: slots.0,
                    actions: actions.0,
                    transaction_type: kind.0,
                    transaction_data: data.0,
                },
                request.1 + slots.1 + type_flag.1 + kind.1 + actions_flag.1 + actions.1 + data.1,
            ),
        ),
{
    let n = request.1 + (slots.1 + (type_flag.1 + (kind.1 + (actions_flag.1 + actions.1))));
    assert(TransactionHead::<I>::parsed(input) matches Ok((_, m)) && m == n);
}

/// A field that is missing is named.
pub proof fn law_missing_fields_are_named()
    ensures
        field_text(FIELD_WINDOW) == "inventory action window ID"@,
        field_text(FIELD_FLAGS) == "inventory action source flags"@,
        field_text(FIELD_TYPE) == "inventory transaction type"@,
        field_text(FIELD_ACTIONS) == "inventory transaction actions"@,
{
}

} // verus!
