use corus_v2::nodes::voice_manager;
use corus_v2::nodes::voice_manager2::VoiceManager;

#[test]
fn allocation_takes_voices_in_order_then_least_recently_released() {
    let mut vm: VoiceManager<u8> = VoiceManager::new(3);
    assert_eq!(vm.voice_num(), 3);
    assert_eq!(vm.note_on(60), 0);
    assert_eq!(vm.note_on(62), 1);
    assert_eq!(vm.note_on(64), 2);
    assert_eq!(vm.note_off(62), Some(1));
    assert_eq!(vm.note_off(60), Some(0));
    // voice 1 was released first
    assert_eq!(vm.note_on(65), 1);
    assert_eq!(vm.note_on(67), 0);
    // all voices sound: the first of them is stolen
    assert_eq!(vm.note_on(69), 0);
}

#[test]
fn allocation_unknown_note_off_is_none() {
    let mut vm: VoiceManager<u8> = VoiceManager::new(2);
    vm.note_on(60);
    assert_eq!(vm.note_off(61), None);
    assert_eq!(vm.get_index_by_id(60), Some(0));
    assert_eq!(vm.get_index_by_id(61), None);
}

#[test]
fn allocation_note_on_then_found() {
    let mut vm: VoiceManager<u8> = VoiceManager::new(4);
    let i = vm.note_on(70);
    assert_eq!(vm.get_index_by_id(70), Some(i));
    assert_eq!(vm.note_off(70), Some(i));
    assert_eq!(vm.get_index_by_id(70), None);
}

#[test]
fn allocation_set_voice_num() {
    let mut vm: VoiceManager<u8> = VoiceManager::new(2);
    vm.note_on(60);
    vm.note_on(61);
    vm.set_voice_num(4);
    assert_eq!(vm.voice_num(), 4);
    assert_eq!(vm.get_index_by_id(61), Some(1));
    assert_eq!(vm.note_on(62), 2);
    vm.set_voice_num(1);
    assert_eq!(vm.voice_num(), 1);
    assert_eq!(vm.get_index_by_id(61), None);
    assert_eq!(vm.get_index_by_id(60), Some(0));
}

#[test]
fn voices_are_built_and_handed_out() {
    let mut vm = voice_manager::VoiceManager::new(|| vec![0u32], 2);
    assert_eq!(vm.voice_num(), 2);
    vm.note_on(1u8).push(10);
    vm.note_on(2u8).push(20);
    assert_eq!(vm.get_voice_mut(1).unwrap().clone(), vec![0, 10]);
    let released = vm.note_off(2).unwrap();
    assert_eq!(released.clone(), vec![0, 20]);
    assert!(vm.note_off(2).is_none());
    assert!(vm.get_voice_mut(3).is_none());
    vm.set_voice_num(3);
    assert_eq!(vm.voice_num(), 3);
    assert_eq!(vm.voice_mut(2).clone(), vec![0]);
    // the released voice is taken before the fresh one
    assert_eq!(vm.note_on(4).clone(), vec![0, 20]);
}

#[test]
fn voices_can_be_visited_by_index() {
    let mut vm: voice_manager::VoiceManager<u8, i64, _> = voice_manager::VoiceManager::new(|| 0i64, 3);
    for i in 0..vm.voice_num() {
        *vm.voice_mut(i) += i as i64;
    }
    assert_eq!(*vm.voice_mut(2), 2);
}
