use oxide_rs::inference::thread_pinner::{
    get_thread_pinner, init_thread_pinner, pin_threads_to_cores, ThreadPinner, ThreadPinnerConfig,
};

#[test]
fn test_thread_pinner_config_defaults() {
    let config = ThreadPinnerConfig::default();
    assert!(config.num_threads > 0);
}

#[test]
fn test_thread_pinner_auto() {
    let config = ThreadPinnerConfig::auto(4);
    assert_eq!(config.num_threads, 3);
}

#[test]
fn auto_never_goes_below_one_worker() {
    assert_eq!(ThreadPinnerConfig::auto(0).num_threads, 1);
    assert_eq!(ThreadPinnerConfig::auto(1).num_threads, 1);
    assert_eq!(ThreadPinnerConfig::auto(2).num_threads, 1);
    assert_eq!(ThreadPinnerConfig::auto(16).num_threads, 15);
    let config = ThreadPinnerConfig::auto(16);
    assert_eq!(config.reserve_cores, 0);
    assert!(config.enabled);
}

#[test]
fn new_keeps_its_arguments() {
    let config = ThreadPinnerConfig::new(6, 2);
    assert_eq!(config.num_threads, 6);
    assert_eq!(config.reserve_cores, 2);
    assert!(config.enabled);
}

#[test]
fn cores_start_after_the_reserved_ones() {
    assert_eq!(ThreadPinner::cores_on(8, 2, 3), vec![2, 3, 4]);
    assert_eq!(ThreadPinner::cores_on(8, 0, 8), vec![0, 1, 2, 3, 4, 5, 6, 7]);
}

#[test]
fn cores_are_capped_by_what_the_machine_has() {
    assert_eq!(ThreadPinner::cores_on(4, 1, 10), vec![1, 2, 3]);
    assert_eq!(ThreadPinner::cores_on(4, 4, 2), Vec::<usize>::new());
    assert_eq!(ThreadPinner::cores_on(4, 9, 2), Vec::<usize>::new());
    assert_eq!(ThreadPinner::cores_on(0, 0, 2), Vec::<usize>::new());
}

#[test]
fn workers_are_dealt_round_the_cores() {
    let pinner = ThreadPinner::resolve(ThreadPinnerConfig::new(3, 1), 8);
    assert_eq!(pinner.num_threads(), 3);
    assert_eq!(pinner.core_ids(), &[1, 2, 3]);
    assert_eq!(pinner.pin_current_thread(), Some(1));
    assert_eq!(pinner.pin_thread_by_index(0), Some(1));
    assert_eq!(pinner.pin_thread_by_index(1), Some(2));
    assert_eq!(pinner.pin_thread_by_index(2), Some(3));
    assert_eq!(pinner.pin_thread_by_index(3), Some(1));
    assert_eq!(pinner.pin_thread_by_index(7), Some(2));
}

#[test]
fn a_disabled_pinner_names_no_core() {
    let config = ThreadPinnerConfig { num_threads: 2, reserve_cores: 0, enabled: false };
    let pinner = ThreadPinner::resolve(config, 4);
    assert_eq!(pinner.core_ids(), &[0, 1]);
    assert_eq!(pinner.pin_current_thread(), None);
    assert_eq!(pinner.pin_thread_by_index(1), None);
}

#[test]
fn a_pinner_without_cores_names_none() {
    let pinner = ThreadPinner::resolve(ThreadPinnerConfig::new(2, 4), 4);
    assert_eq!(pinner.num_threads(), 0);
    assert_eq!(pinner.pin_current_thread(), None);
    assert_eq!(pinner.pin_thread_by_index(5), None);
}

#[test]
fn a_slot_is_set_once() {
    let mut slot: Option<ThreadPinner> = None;
    let first = init_thread_pinner(&mut slot, ThreadPinnerConfig::new(1, 0));
    assert_eq!(first.config(), ThreadPinnerConfig::new(1, 0));
    let second = init_thread_pinner(&mut slot, ThreadPinnerConfig::new(5, 3));
    assert_eq!(second.config(), ThreadPinnerConfig::new(1, 0));
    assert_eq!(second.core_ids(), first.core_ids());
    let third = pin_threads_to_cores(&mut slot, 9, 9);
    assert_eq!(third.config(), ThreadPinnerConfig::new(1, 0));
    let fourth = get_thread_pinner(&mut slot);
    assert_eq!(fourth.config(), ThreadPinnerConfig::new(1, 0));
    assert_eq!(slot.unwrap().core_ids(), first.core_ids());
}

#[test]
fn an_empty_slot_gets_the_default_pinner() {
    let mut slot: Option<ThreadPinner> = None;
    let pinner = get_thread_pinner(&mut slot);
    assert!(pinner.config().num_threads >= 1);
    assert_eq!(pinner.config().reserve_cores, 0);
    assert!(pinner.num_threads() <= pinner.config().num_threads);
    assert!(slot.is_some());
    let again = ThreadPinner::get(&mut slot);
    assert_eq!(again.core_ids(), pinner.core_ids());
}

#[test]
fn a_copy_keeps_configuration_and_cores() {
    let pinner = ThreadPinner::resolve(ThreadPinnerConfig::new(4, 0), 2);
    let copy = pinner.clone();
    assert_eq!(copy.config(), pinner.config());
    assert_eq!(copy.core_ids(), &[0, 1]);
}
