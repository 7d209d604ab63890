use souls_client::event::emevd_utils::{execute_emevd_instruction, EmkSnapshot};
use souls_client::event::emk_system::{
    get_rescap, EmevdContainer, EmkEventId, EmkInstruction, FakeVector,
};

fn names(list: &[&str]) -> Vec<String> {
    list.iter().map(|s| s.to_string()).collect()
}

#[test]
fn event_ids_hold_a_compound_key() {
    assert_eq!(EmkEventId::new(1000, 3).compound_key, 1003);
    assert_eq!(EmkEventId::new(1000, 0).compound_key, 1000);
    let none = EmkEventId::new(1000, -1);
    assert_eq!((none.id, none.slot, none.compound_key), (1000, -1, 1000));
}

#[test]
fn instructions_have_no_argument_offset() {
    let i = EmkInstruction::new(2003, 66);
    assert_eq!((i.bank, i.id, i.arg_length), (2003, 66, 0));
    assert_eq!((i.arg_offset, i.event_layer_offset), (-1, -1));
    let j = EmkInstruction::new_with_length(2000, 6, 12);
    assert_eq!((j.bank, j.id, j.arg_length), (2000, 6, 12));
    assert_eq!((j.arg_offset, j.event_layer_offset), (-1, -1));
}

#[test]
fn containers_start_empty() {
    let v = FakeVector::new();
    assert_eq!((v.allocator, v.start, v.end, v.capacity), (0, 0, 0, 0));
    let c = EmevdContainer::new();
    assert_eq!((c.file_size, c.unk4, c.data), (0, 0, 0));
    assert_eq!(*c.offsets, v);
    assert!(c.unk18.iter().all(|b| *b == 0));
}

#[test]
fn scripts_are_found_by_name() {
    let scripts = names(&["m10", "common_func", "common_func"]);
    assert_eq!(get_rescap(&scripts, "common_func"), Some(1));
    assert_eq!(get_rescap(&scripts, "common"), None);
}

#[test]
fn instructions_run_where_the_game_is_ready() {
    let ready = |scripts| EmkSnapshot { world_loaded: true, has_system: true, scripts };
    let plain = EmkInstruction::new(2003, 66);
    let starting = EmkInstruction::new_with_length(2000, 6, 12);
    let plan = execute_emevd_instruction(&ready(None), &plain).unwrap();
    assert_eq!(plan.event, EmkEventId { id: 0, slot: 0, compound_key: 0 });
    assert_eq!(plan.script, None);
    assert!(execute_emevd_instruction(&ready(None), &starting).is_none());
    assert!(execute_emevd_instruction(&ready(Some(names(&["m10"]))), &starting).is_none());
    let found = execute_emevd_instruction(&ready(Some(names(&["m10", "common_func"]))), &starting);
    assert_eq!(found.unwrap().script, Some(1));
    let unloaded = EmkSnapshot { world_loaded: false, has_system: true, scripts: None };
    assert!(execute_emevd_instruction(&unloaded, &plain).is_none());
    let missing = EmkSnapshot { world_loaded: true, has_system: false, scripts: None };
    assert!(execute_emevd_instruction(&missing, &plain).is_none());
}
