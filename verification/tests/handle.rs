use audio_bridge::handle::{HandleError, HandleTable, SPAN};
use audio_bridge::routine::{Routine, Sink, WasmAudioProcessor};

fn counter(limit: u64) -> WasmAudioProcessor {
    WasmAudioProcessor(Routine::Counter { count: 0, limit })
}

#[test]
fn unpack_gives_back_what_pack_took() {
    let mut table = HandleTable::new();
    let handle = WasmAudioProcessor(Routine::Decimator { factor: 4, phase: 1 }).pack(&mut table);
    let back = WasmAudioProcessor::unpack(&mut table, handle);
    assert_eq!(back, Ok(WasmAudioProcessor(Routine::Decimator { factor: 4, phase: 1 })));
}

#[test]
fn a_routine_behaves_the_same_after_the_round_trip() {
    let mut table = HandleTable::new();
    let mut direct = WasmAudioProcessor(Routine::Decimator { factor: 3, phase: 2 });
    let handle = WasmAudioProcessor(Routine::Decimator { factor: 3, phase: 2 }).pack(&mut table);
    let mut carried = WasmAudioProcessor::unpack(&mut table, handle).unwrap();
    for round in 0u32..6 {
        let input: Vec<u32> = (0..10 + round).map(|i| 100 * round + i + 1).collect();
        let mut a = input.clone();
        let mut b = input.clone();
        assert_eq!(direct.process(&mut a), carried.process(&mut b));
        assert_eq!(a, b);
    }
    assert_eq!(direct, carried);

    let mut direct = counter(2);
    let handle = counter(2).pack(&mut table);
    let mut carried = WasmAudioProcessor::unpack(&mut table, handle).unwrap();
    let mut block = vec![1u32, 2, 3];
    let direct_flags: Vec<bool> = (0..4).map(|_| direct.process(&mut block)).collect();
    let carried_flags: Vec<bool> = (0..4).map(|_| carried.process(&mut block)).collect();
    assert_eq!(direct_flags, vec![true, true, false, false]);
    assert_eq!(carried_flags, direct_flags);
}

#[test]
fn the_first_handle_of_a_table_is_zero() {
    let mut table = HandleTable::new();
    assert_eq!(counter(1).pack(&mut table), 0);
    assert_eq!(counter(2).pack(&mut table), 1);
    assert_eq!(counter(3).pack(&mut table), 2);
}

#[test]
fn a_second_unpack_is_refused() {
    let mut table = HandleTable::new();
    let handle = counter(3).pack(&mut table);
    assert!(WasmAudioProcessor::unpack(&mut table, handle).is_ok());
    assert_eq!(WasmAudioProcessor::unpack(&mut table, handle), Err(HandleError::DoubleUnpack));
    assert_eq!(WasmAudioProcessor::unpack(&mut table, handle), Err(HandleError::DoubleUnpack));
}

#[test]
fn a_handle_that_was_never_issued_is_invalid() {
    let mut table = HandleTable::new();
    assert_eq!(WasmAudioProcessor::unpack(&mut table, 0), Err(HandleError::InvalidHandle));
    let handle = counter(3).pack(&mut table);
    assert_eq!(handle, 0);
    // a slot that the table does not have
    assert_eq!(WasmAudioProcessor::unpack(&mut table, 1), Err(HandleError::InvalidHandle));
    // a generation that the slot has not reached
    assert_eq!(WasmAudioProcessor::unpack(&mut table, SPAN), Err(HandleError::InvalidHandle));
    assert_eq!(WasmAudioProcessor::unpack(&mut table, u64::MAX), Err(HandleError::InvalidHandle));
    // none of this has disturbed the routine that waits
    assert_eq!(WasmAudioProcessor::unpack(&mut table, handle), Ok(counter(3)));
}

#[test]
fn an_empty_slot_refuses_the_generation_it_has_not_issued() {
    let mut table = HandleTable::new();
    let handle = counter(3).pack(&mut table);
    assert!(WasmAudioProcessor::unpack(&mut table, handle).is_ok());
    // slot 0 now stands at generation 1 and is empty
    assert_eq!(WasmAudioProcessor::unpack(&mut table, SPAN), Err(HandleError::InvalidHandle));
}

#[test]
fn a_reused_slot_gives_a_new_handle_and_the_old_one_stays_spent() {
    let mut table = HandleTable::new();
    let first = counter(1).pack(&mut table);
    assert_eq!(WasmAudioProcessor::unpack(&mut table, first), Ok(counter(1)));
    let second = counter(2).pack(&mut table);
    assert_eq!(second, SPAN);
    assert_ne!(first, second);
    assert_eq!(WasmAudioProcessor::unpack(&mut table, first), Err(HandleError::DoubleUnpack));
    assert_eq!(WasmAudioProcessor::unpack(&mut table, second), Ok(counter(2)));
    assert_eq!(WasmAudioProcessor::unpack(&mut table, second), Err(HandleError::DoubleUnpack));
    assert_eq!(WasmAudioProcessor::unpack(&mut table, first), Err(HandleError::DoubleUnpack));
}

#[test]
fn no_handle_value_revives_a_spent_handle() {
    let mut table = HandleTable::new();
    let keep = WasmAudioProcessor(Routine::Sink(Sink {})).pack(&mut table);
    let spent = counter(5).pack(&mut table);
    assert!(WasmAudioProcessor::unpack(&mut table, spent).is_ok());
    let mut seed: u64 = 0x9e37_79b9_7f4a_7c15;
    for round in 0..2000u64 {
        seed ^= seed << 13;
        seed ^= seed >> 7;
        seed ^= seed << 17;
        let probe = if round % 4 == 0 { seed } else { seed % (4 * SPAN) };
        if probe == keep {
            continue;
        }
        assert!(WasmAudioProcessor::unpack(&mut table, probe).is_err());
        assert_eq!(WasmAudioProcessor::unpack(&mut table, spent), Err(HandleError::DoubleUnpack));
    }
    assert_eq!(
        WasmAudioProcessor::unpack(&mut table, keep),
        Ok(WasmAudioProcessor(Routine::Sink(Sink {})))
    );
}

#[test]
fn handles_are_redeemed_in_any_order() {
    let mut table = HandleTable::new();
    let handles: Vec<u64> = (0..8u64).map(|limit| counter(limit).pack(&mut table)).collect();
    for (limit, handle) in handles.iter().enumerate().rev() {
        assert_eq!(WasmAudioProcessor::unpack(&mut table, *handle), Ok(counter(limit as u64)));
    }
    for handle in handles {
        assert_eq!(WasmAudioProcessor::unpack(&mut table, handle), Err(HandleError::DoubleUnpack));
    }
}

#[test]
fn freed_slots_are_used_again_before_the_table_grows() {
    let mut table = HandleTable::new();
    let a = counter(1).pack(&mut table);
    let b = counter(2).pack(&mut table);
    assert_eq!((a, b), (0, 1));
    assert!(WasmAudioProcessor::unpack(&mut table, a).is_ok());
    assert!(WasmAudioProcessor::unpack(&mut table, b).is_ok());
    let c = counter(3).pack(&mut table);
    let d = counter(4).pack(&mut table);
    let e = counter(5).pack(&mut table);
    let mut reused = vec![c, d];
    reused.sort();
    assert_eq!(reused, vec![SPAN, SPAN + 1]);
    assert_eq!(e, 2);
}

#[test]
fn a_new_table_has_room() {
    let mut table = HandleTable::new();
    assert!(table.has_room());
    let _ = counter(1).pack(&mut table);
    assert!(table.has_room());
}
