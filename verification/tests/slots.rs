use credchain::slots::{
    acquire_decrypt_slot, acquire_decrypt_slot_in, decrypt_lock_dir, slot_path, SlotEvent, Slots,
    DECRYPT_SLOTS,
};

/// Runs until the end, with `held` telling which slots others hold, on a clock
/// that runs with the sleeps.
fn acquire(mut s: Slots, held: fn(u32, u128) -> bool) -> (Slots, u128) {
    let mut now: u128 = 0;
    loop {
        let event = match &s {
            Slots::Prepare { .. } => SlotEvent::Prepared(true),
            Slots::Open { .. } => SlotEvent::Opened(true),
            Slots::Lock { slot, .. } => SlotEvent::Locked(!held(*slot, now)),
            Slots::Poll { slot, .. } => SlotEvent::Locked(!held(*slot, now)),
            Slots::Start { .. } => SlotEvent::Started,
            Slots::Clock { .. } => SlotEvent::Elapsed(now),
            Slots::Sleep { .. } => {
                now += 20_000_000;
                SlotEvent::Slept
            }
            Slots::Done(_) => return (s, now),
        };
        s = s.step(event);
    }
}

#[test]
fn slot_wait_times_out_as_transport_not_corrupt() {
    let (s, elapsed) = acquire(acquire_decrypt_slot_in(b"/locks", 60), |_, _| true);
    let err = match s {
        Slots::Done(r) => r.err().expect("all slots held, expected timeout"),
        _ => unreachable!(),
    };
    assert!(elapsed >= 60_000_000);
    assert!(
        !err.0.to_lowercase().contains("corrupt"),
        "queue timeout labeled corrupt: {}",
        err.0
    );
    assert!(
        err.0.contains("credentials service unavailable"),
        "{}",
        err.0
    );
    assert_eq!(
        err.0,
        "systemd-creds decrypt failed: credentials service unavailable (varlink transport): \
         per-user decrypt queue busy (waited 60ms)"
    );

    let (s, _) = acquire(acquire_decrypt_slot_in(b"/locks", 1000), |_, _| false);
    assert!(matches!(s, Slots::Done(Ok(Some(0)))), "released slot should be acquired");
}

#[test]
fn the_first_free_slot_is_taken() {
    let (s, now) = acquire(acquire_decrypt_slot_in(b"/locks", 60), |slot, _| slot < 2);
    assert!(matches!(s, Slots::Done(Ok(Some(2)))));
    assert_eq!(now, 0);
    assert_eq!(DECRYPT_SLOTS, 4);
}

#[test]
fn a_slot_that_gets_free_ends_the_wait() {
    let (s, now) = acquire(acquire_decrypt_slot_in(b"/locks", 60), |slot, now| {
        slot != 3 || now < 40_000_000
    });
    assert!(matches!(s, Slots::Done(Ok(Some(3)))));
    assert_eq!(now, 40_000_000);
}

#[test]
fn locks_that_cannot_be_used_are_done_without() {
    let s = acquire_decrypt_slot(&None, 1000).step(SlotEvent::Prepared(false));
    assert!(matches!(s, Slots::Done(Ok(None))));
    let s = acquire_decrypt_slot_in(b"/locks", 60).step(SlotEvent::Opened(false));
    assert!(matches!(s, Slots::Done(Ok(None))));
}

#[test]
fn the_full_wait_is_two_minutes() {
    let s = acquire_decrypt_slot(&Some(b"/run/user/7".to_vec()), 1000);
    match &s {
        Slots::Prepare { dir } => assert_eq!(dir, b"/run/user/7/credchain"),
        _ => panic!("expected a directory to prepare"),
    }
    let (s, now) = acquire(s, |_, _| true);
    assert_eq!(now, 120_000_000_000);
    match s {
        Slots::Done(Err(e)) => assert!(e.0.ends_with("(waited 120s)"), "{}", e.0),
        _ => panic!("expected a timeout"),
    }
}

#[test]
fn lock_files_lie_in_the_runtime_directory() {
    assert_eq!(decrypt_lock_dir(&None, 1000), b"/run/user/1000/credchain");
    assert_eq!(decrypt_lock_dir(&Some(Vec::new()), 0), b"/run/user/0/credchain");
    assert_eq!(decrypt_lock_dir(&Some(b"/x/".to_vec()), 0), b"/x/credchain");
    assert_eq!(slot_path(b"/x", 3), b"/x/decrypt.slot.3");
}
