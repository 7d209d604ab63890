//! Carrying out a single instruction in an event of its own.
use vstd::prelude::*;

use crate::event::emk_system::{get_rescap, EmkEventId, EmkInstruction};

verus! {

/// The script that events are started from.
pub open spec fn common_func() -> Seq<char> {
    "common_func"@
}

/// What the library reads of the event system.
pub struct EmkSnapshot {
    /// Whether the world is loaded; instructions fail without it.
    pub world_loaded: bool,
    pub has_system: bool,
    /// The names of the loaded scripts, where the repository exists.
    pub scripts: Option<Vec<String>>,
}

/// How an instruction is carried out: in which event, and with which loaded script.
#[derive(PartialEq, Eq, Structural, Clone, Copy, Debug)]
pub struct ExecutePlan {
    pub event: EmkEventId,
    pub script: Option<usize>,
}

/// The loaded script that an instruction needs: those with arguments of a stated length start
/// events, and need the common one.
pub open spec fn needed_script(snapshot: EmkSnapshot, instruction: EmkInstruction) -> Option<
    Option<int>,
> {
    if instruction.arg_length == 0 {
        Some(None)
    } else {
        match snapshot.scripts {
            Some(names) => {
                let i = crate::text::position_of(crate::text::texts(names@), common_func());
                if i < names@.len() {
                    Some(Some(i))
                } else {
                    None
                }
            },
            None => None,
        }
    }
}

/// How an instruction is carried out, if it can be: in event 0 and slot 0, with the world and the
/// event system loaded, and with the script that it needs.
pub fn execute_emevd_instruction(snapshot: &EmkSnapshot, instruction: &EmkInstruction) -> (r: Option<
    ExecutePlan,
>)
    ensures
        match r {
            Some(plan) => {
                &&& snapshot.world_loaded && snapshot.has_system
                &&& plan.event == (EmkEventId { id: 0, slot: 0, compound_key: 0 })
                &&& needed_script(*snapshot, *instruction) == Some(
                    match plan.script {
                        Some(i) => Some(i as int),
                        None => None::<int>,
                    },
                )
            },
            None => !snapshot.world_loaded || !snapshot.has_system || needed_script(
                *snapshot,
                *instruction,
            ) is None,
        },
{
    if !snapshot.world_loaded || !snapshot.has_system {
        return None;
    }
    let event = EmkEventId::new(0, 0);
    if instruction.arg_length == 0 {
        return Some(ExecutePlan { event, script: None });
    }
    match &snapshot.scripts {
        Some(names) => match get_rescap(names, "common_func") {
            Some(i) => Some(ExecutePlan { event, script: Some(i) }),
            None => None,
        },
        None => None,
    }
}

/// An instruction without arguments of a stated length needs no script. Any other needs the common
/// one, the first under its name where it is loaded, and cannot be carried out where it is not.
pub proof fn lemma_needed_script(snapshot: EmkSnapshot, instruction: EmkInstruction)
    ensures
        instruction.arg_length == 0 ==> needed_script(snapshot, instruction) == Some(None::<int>),
        instruction.arg_length != 0 ==> {
            let names = match snapshot.scripts {
                Some(names) => crate::text::texts(names@),
                None => Seq::empty(),
            };
            match needed_script(snapshot, instruction) {
                None => !names.contains("common_func"@),
                Some(Some(i)) => 0 <= i < names.len() && names[i] == "common_func"@ && forall|
                    j: int,
                |
                    0 <= j < i ==> #[trigger] names[j] != "common_func"@,
                Some(None) => false,
            }
        },
{
    if let Some(names) = snapshot.scripts {
        crate::text::lemma_position_of(crate::text::texts(names@), "common_func"@);
    }
}

} // verus!
