//! Events and instructions of the game's event system, as the game lays them out.
use vstd::prelude::*;

verus! {

/// An event's id and slot, and the key that both give.
#[derive(PartialEq, Eq, Structural, Clone, Copy, Debug)]
pub struct EmkEventId {
    pub id: i32,
    pub slot: i32,
    pub compound_key: i32,
}

/// The key of an event in a slot; a negative slot is none.
pub open spec fn key_of_slot(id: int, slot: int) -> int {
    if slot < 0 {
        id
    } else {
        id + slot
    }
}

impl EmkEventId {
    /// An event in a slot; a negative slot is none.
    pub fn new(id: i32, slot: i32) -> (r: Self)
        requires
            slot >= 0 ==> id + slot <= i32::MAX,
        ensures
            r.id == id,
            r.slot == slot,
            r.compound_key == key_of_slot(id as int, slot as int),
    {
        let compound_key: i32 = if slot < 0 {
            id
        } else {
            id + slot
        };
        EmkEventId { id, slot, compound_key }
    }
}

/// Different slots of one event have different keys.
pub proof fn lemma_slots_have_distinct_keys(a: EmkEventId, b: EmkEventId)
    requires
        a.id == b.id,
        a.slot >= 0,
        b.slot >= 0,
        a.compound_key == a.id + a.slot,
        b.compound_key == b.id + b.slot,
    ensures
        a.compound_key == b.compound_key <==> a.slot == b.slot,
{
}

/// An instruction: its bank and id, and where its arguments are.
#[derive(PartialEq, Eq, Structural, Clone, Copy, Debug)]
pub struct EmkInstruction {
    pub bank: u32,
    pub id: u32,
    pub arg_length: usize,
    pub arg_offset: isize,
    pub event_layer_offset: isize,
}

impl EmkInstruction {
    /// An instruction whose arguments have no stated length.
    pub fn new(bank: u32, id: u32) -> (r: Self)
        ensures
            r == (EmkInstruction {
                bank,
                id,
                arg_length: 0,
                arg_offset: -1isize,
                event_layer_offset: -1isize,
            }),
    {
        EmkInstruction { bank, id, arg_length: 0, arg_offset: -1, event_layer_offset: -1 }
    }

    /// An instruction whose arguments have the given length in bytes.
    pub fn new_with_length(bank: u32, id: u32, arg_length: usize) -> (r: Self)
        ensures
            r == (EmkInstruction {
                bank,
                id,
                arg_length,
                arg_offset: -1isize,
                event_layer_offset: -1isize,
            }),
    {
        EmkInstruction { bank, id, arg_length, arg_offset: -1, event_layer_offset: -1 }
    }
}

/// The game's vector, by addresses.
#[derive(PartialEq, Eq, Structural, Clone, Copy, Debug)]
pub struct FakeVector {
    pub allocator: usize,
    pub start: usize,
    pub end: usize,
    pub capacity: usize,
}

impl FakeVector {
    /// An empty vector without memory.
    pub fn new() -> (r: Self)
        ensures
            r == (FakeVector { allocator: 0, start: 0, end: 0, capacity: 0 }),
    {
        FakeVector { allocator: 0, start: 0, end: 0, capacity: 0 }
    }
}

/// A loaded event script.
#[derive(Debug)]
pub struct EmevdContainer {
    pub file_size: i32,
    pub unk4: i32,
    pub data: usize,
    pub offsets: Box<FakeVector>,
    pub unk18: [u8; 0x48],
}

impl EmevdContainer {
    /// An empty script.
    pub fn new() -> (r: Self)
        ensures
            r.file_size == 0,
            r.unk4 == 0,
            r.data == 0,
            *r.offsets == (FakeVector { allocator: 0, start: 0, end: 0, capacity: 0 }),
            forall|i: int| 0 <= i < 0x48 ==> #[trigger] r.unk18@[i] == 0,
    {
        EmevdContainer {
            file_size: 0,
            unk4: 0,
            data: 0,
            offsets: Box::new(FakeVector::new()),
            unk18: [0;0x48],
        }
    }
}

/// The addresses of the instruction banks.
#[derive(PartialEq, Eq, Structural, Clone, Copy, Debug)]
pub struct EmkInstructionBanks {
    pub control_flow_system: usize,
    pub control_flow_timer: usize,
    pub unk10: usize,
    pub unk18: usize,
    pub control_flow_character: usize,
    pub control_flow_asset: usize,
    pub sfx: usize,
    pub message: usize,
    pub camera: usize,
    pub script: usize,
    pub sound: usize,
    pub hit: usize,
    pub map: usize,
    pub unk68: usize,
    pub unk70: usize,
    pub unk78: usize,
    pub unk80: usize,
}

/// The position of the first loaded script with a name.
pub fn get_rescap(names: &Vec<String>, name: &str) -> (r: Option<usize>)
    ensures
        match r {
            Some(i) => i == crate::text::position_of(crate::text::texts(names@), name@) && i
                < names@.len(),
            None => crate::text::position_of(crate::text::texts(names@), name@) == names@.len(),
        },
{
    let ghost list = crate::text::texts(names@);
    let mut i: usize = 0;
    while i < names.len() && !crate::text::same_text(names[i].as_str(), name)
        invariant
            i <= names@.len(),
            list == crate::text::texts(names@),
            forall|k: int| 0 <= k < i ==> #[trigger] list[k] != name@,
        decreases names@.len() - i,
    {
        assert(list[i as int] == names@[i as int]@);
        i = i + 1;
    }
    proof {
        if i < list.len() {
            assert(list[i as int] == names@[i as int]@);
        }
        crate::text::lemma_position_is(list, name@, i as int);
    }
    if i < names.len() {
        Some(i)
    } else {
        None
    }
}

/// The key of an event counts up with its slot, from its id in the first slot and without one.
pub proof fn lemma_key_of_slot(id: int, slot: int)
    ensures
        slot <= 0 ==> key_of_slot(id, slot) == id,
        slot >= 0 ==> key_of_slot(id, slot + 1) == key_of_slot(id, slot) + 1,
{
}

} // verus!
