//! Decrypt slots: a bound on concurrent decryptions of one user.
//!
//! `systemd-creds.socket` takes a limited number of connections per source. Each
//! decryption holds an exclusive lock on one of a few files, so that a wave of
//! decryptions queues up here instead of failing there.

use vstd::prelude::*;
use vstd::utf8::encode_utf8;

use crate::creds::{decrypt_failure_message, failure_message, CredError, DecryptClass};
use crate::outside::{duration_text, show_duration};
use crate::path::{copy_bytes, join_keeps_parts_apart, join_text, joined_text, within};
use crate::runs::nothing_is_undone;
use crate::text::{
    decimal, decimal_is_injective, decimal_of, occurs, occurs_at, one_byte, starts_with_its_first,
    told_within, utf8_append,
};

verus! {

/// Concurrent decryptions per user.
pub const DECRYPT_SLOTS: u32 = 4;

/// How long to wait for a slot before failing as transport.
pub const DECRYPT_SLOT_WAIT_MAX_MS: u64 = 120_000;

/// The pause while every slot is busy.
pub const DECRYPT_SLOT_POLL_MS: u64 = 20;

/// The directory of the locks: `$XDG_RUNTIME_DIR/credchain` where that variable
/// is set and not empty, else `/run/user/<uid>/credchain`.
pub open spec fn lock_dir_of(xdg_runtime_dir: Option<Seq<u8>>, uid: nat) -> Seq<u8> {
    match xdg_runtime_dir {
        Some(v) if v.len() > 0 => joined_text(v, "credchain"@),
        _ => encode_utf8("/run/user/"@ + decimal_of(uid) + "/credchain"@),
    }
}

/// The directory of the locks.
pub fn decrypt_lock_dir(xdg_runtime_dir: &Option<Vec<u8>>, uid: u32) -> (r: Vec<u8>)
    ensures
        r@ == lock_dir_of(crate::dirs::env_view(*xdg_runtime_dir), uid as nat),
{
    match xdg_runtime_dir {
        Some(v) => {
            if v.len() > 0 {
                return join_text(v.as_slice(), "credchain");
            }
        },
        None => {},
    }
    let mut text = "/run/user/".to_owned();
    text.append(decimal(uid as u64).as_str());
    text.append("/credchain");
    copy_bytes(text.as_str().as_bytes())
}

/// The lock file of a slot: `<dir>/decrypt.slot.<slot>`.
pub open spec fn slot_path_of(dir: Seq<u8>, slot: nat) -> Seq<u8> {
    joined_text(dir, "decrypt.slot."@ + decimal_of(slot))
}

/// The lock file of a slot.
pub fn slot_path(dir: &[u8], slot: u32) -> (r: Vec<u8>)
    ensures
        r@ == slot_path_of(dir@, slot as nat),
{
    let mut name = "decrypt.slot.".to_owned();
    name.append(decimal(slot as u64).as_str());
    join_text(dir, name.as_str())
}

/// How long to wait at most, and how messages show it.
pub struct SlotWait {
    pub millis: u64,
    pub shown: String,
}

pub struct SlotWaitView {
    pub millis: int,
    pub shown: Seq<char>,
}

impl View for SlotWait {
    type V = SlotWaitView;

    open spec fn view(&self) -> SlotWaitView {
        SlotWaitView { millis: self.millis as int, shown: self.shown@ }
    }
}

/// The state of acquiring a slot, named after what is due.
pub enum Slots {
    /// Secure the directory of the locks.
    Prepare { dir: Vec<u8> },
    /// Open the lock file of `slot`, creating it where it is missing.
    Open { dir: Vec<u8>, wait: SlotWait, slot: u32 },
    /// Try to lock `slot`, without blocking, for the first time.
    Lock { dir: Vec<u8>, wait: SlotWait, slot: u32 },
    /// Every slot is busy: start the clock.
    Start { wait: SlotWait },
    /// Try to lock `slot`, without blocking, once more.
    Poll { wait: SlotWait, slot: u32 },
    /// Read the clock.
    Clock { wait: SlotWait },
    /// Sleep for [`DECRYPT_SLOT_POLL_MS`].
    Sleep { wait: SlotWait },
    /// The slot that is held, or none where locks cannot be used, or an error.
    Done(Result<Option<u32>, CredError>),
}

pub enum SlotsView {
    Prepare { dir: Seq<u8> },
    Open { dir: Seq<u8>, wait: SlotWaitView, slot: int },
    Lock { dir: Seq<u8>, wait: SlotWaitView, slot: int },
    Start { wait: SlotWaitView },
    Poll { wait: SlotWaitView, slot: int },
    Clock { wait: SlotWaitView },
    Sleep { wait: SlotWaitView },
    Done(Result<Option<int>, Seq<char>>),
}

/// A slot, none, or an error, over what they say.
pub open spec fn slot_view(r: Result<Option<u32>, CredError>) -> Result<Option<int>, Seq<char>> {
    match r {
        Ok(Some(slot)) => Ok(Some(slot as int)),
        Ok(None) => Ok(None),
        Err(e) => Err(e@),
    }
}

impl View for Slots {
    type V = SlotsView;

    open spec fn view(&self) -> SlotsView {
        match *self {
            Slots::Prepare { dir } => SlotsView::Prepare { dir: dir@ },
            Slots::Open { dir, wait, slot } => SlotsView::Open {
                dir: dir@,
                wait: wait@,
                slot: slot as int,
            },
            Slots::Lock { dir, wait, slot } => SlotsView::Lock {
                dir: dir@,
                wait: wait@,
                slot: slot as int,
            },
            Slots::Start { wait } => SlotsView::Start { wait: wait@ },
            Slots::Poll { wait, slot } => SlotsView::Poll { wait: wait@, slot: slot as int },
            Slots::Clock { wait } => SlotsView::Clock { wait: wait@ },
            Slots::Sleep { wait } => SlotsView::Sleep { wait: wait@ },
            Slots::Done(r) => SlotsView::Done(slot_view(r)),
        }
    }
}

/// The outcome of what was due.
pub enum SlotEvent {
    /// Whether the directory could be secured.
    Prepared(bool),
    /// Whether the lock file could be opened.
    Opened(bool),
    /// Whether the lock was taken.
    Locked(bool),
    Started,
    /// The nanoseconds since the clock was started.
    Elapsed(u128),
    Slept,
}

/// The message when every slot stayed busy.
pub open spec fn busy_message(wait: SlotWaitView) -> Seq<char> {
    failure_message(
        DecryptClass::Transport,
        "per-user decrypt queue busy (waited "@ + wait.shown + ")"@,
    )
}

/// The state after `event`. Where locks cannot be used, decryption goes on without
/// one; where every slot stays busy for the whole wait, it fails as transport.
pub open spec fn slots_next(s: SlotsView, event: SlotEvent) -> SlotsView {
    match (s, event) {
        (SlotsView::Prepare { dir }, SlotEvent::Prepared(ok)) => if ok {
            slots_start(dir, DECRYPT_SLOT_WAIT_MAX_MS)
        } else {
            SlotsView::Done(Ok(None))
        },
        (SlotsView::Open { dir, wait, slot }, SlotEvent::Opened(ok)) => if ok {
            SlotsView::Lock { dir, wait, slot }
        } else {
            SlotsView::Done(Ok(None))
        },
        (SlotsView::Lock { dir, wait, slot }, SlotEvent::Locked(ok)) => if ok {
            SlotsView::Done(Ok(Some(slot)))
        } else if slot + 1 < DECRYPT_SLOTS {
            SlotsView::Open { dir, wait, slot: slot + 1 }
        } else {
            SlotsView::Start { wait }
        },
        (SlotsView::Start { wait }, SlotEvent::Started) => SlotsView::Poll { wait, slot: 0 },
        (SlotsView::Poll { wait, slot }, SlotEvent::Locked(ok)) => if ok {
            SlotsView::Done(Ok(Some(slot)))
        } else if slot + 1 < DECRYPT_SLOTS {
            SlotsView::Poll { wait, slot: slot + 1 }
        } else {
            SlotsView::Clock { wait }
        },
        (SlotsView::Clock { wait }, SlotEvent::Elapsed(nanos)) => if nanos >= wait.millis
            * 1_000_000 {
            SlotsView::Done(Err(busy_message(wait)))
        } else {
            SlotsView::Sleep { wait }
        },
        (SlotsView::Sleep { wait }, SlotEvent::Slept) => SlotsView::Poll { wait, slot: 0 },
        _ => s,
    }
}

/// The start of acquiring a slot in a directory.
pub open spec fn slots_start(dir: Seq<u8>, wait_ms: u64) -> SlotsView {
    SlotsView::Open {
        dir,
        wait: SlotWaitView { millis: wait_ms as int, shown: duration_text(wait_ms) },
        slot: 0,
    }
}

/// Starts to acquire a decrypt slot of the user `uid`.
pub fn acquire_decrypt_slot(xdg_runtime_dir: &Option<Vec<u8>>, uid: u32) -> (r: Slots)
    ensures
        r@ == (SlotsView::Prepare {
            dir: lock_dir_of(crate::dirs::env_view(*xdg_runtime_dir), uid as nat),
        }),
{
    Slots::Prepare { dir: decrypt_lock_dir(xdg_runtime_dir, uid) }
}

/// Starts to acquire a decrypt slot in `dir`, waiting at most `wait_ms`
/// milliseconds once every slot is found busy.
pub fn acquire_decrypt_slot_in(dir: &[u8], wait_ms: u64) -> (r: Slots)
    ensures
        r@ == slots_start(dir@, wait_ms),
{
    Slots::Open {
        dir: copy_bytes(dir),
        wait: SlotWait { millis: wait_ms, shown: show_duration(wait_ms) },
        slot: 0,
    }
}

fn busy(wait: &SlotWait) -> (r: CredError)
    ensures
        r@ == busy_message(wait@),
{
    let mut text = "per-user decrypt queue busy (waited ".to_owned();
    text.append(wait.shown.as_str());
    text.append(")");
    CredError(decrypt_failure_message(DecryptClass::Transport, text.as_str()))
}

impl Slots {
    /// The state after `event`.
    pub fn step(self, event: SlotEvent) -> (r: Slots)
        ensures
            r@ == slots_next(self@, event),
    {
        match (self, event) {
            (Slots::Prepare { dir }, SlotEvent::Prepared(ok)) => if ok {
                acquire_decrypt_slot_in(dir.as_slice(), DECRYPT_SLOT_WAIT_MAX_MS)
            } else {
                Slots::Done(Ok(None))
            },
            (Slots::Open { dir, wait, slot }, SlotEvent::Opened(ok)) => if ok {
                Slots::Lock { dir, wait, slot }
            } else {
                Slots::Done(Ok(None))
            },
            (Slots::Lock { dir, wait, slot }, SlotEvent::Locked(ok)) => if ok {
                Slots::Done(Ok(Some(slot)))
            } else if slot < DECRYPT_SLOTS - 1 {
                Slots::Open { dir, wait, slot: slot + 1 }
            } else {
                Slots::Start { wait }
            },
            (Slots::Start { wait }, SlotEvent::Started) => Slots::Poll { wait, slot: 0 },
            (Slots::Poll { wait, slot }, SlotEvent::Locked(ok)) => if ok {
                Slots::Done(Ok(Some(slot)))
            } else if slot < DECRYPT_SLOTS - 1 {
                Slots::Poll { wait, slot: slot + 1 }
            } else {
                Slots::Clock { wait }
            },
            (Slots::Clock { wait }, SlotEvent::Elapsed(nanos)) => if nanos >= wait.millis as u128
                * 1_000_000 {
                Slots::Done(Err(busy(&wait)))
            } else {
                Slots::Sleep { wait }
            },
            (Slots::Sleep { wait }, SlotEvent::Slept) => Slots::Poll { wait, slot: 0 },
            (s, _) => s,
        }
    }
}

// ---- laws --------------------------------------------------------------------

/// The state after a sequence of events.
pub open spec fn slots_run(s: SlotsView, events: Seq<SlotEvent>) -> SlotsView
    decreases events.len(),
{
    if events.len() == 0 {
        s
    } else {
        slots_next(slots_run(s, events.drop_last()), events.last())
    }
}

/// How many tries for a lock have come out busy since the last one that did not,
/// counting those that were due.
pub open spec fn busy_streak(s: SlotsView, events: Seq<SlotEvent>) -> nat
    decreases events.len(),
{
    if events.len() == 0 {
        0
    } else {
        let before = busy_streak(s, events.drop_last());
        let state = slots_run(s, events.drop_last());
        match events.last() {
            SlotEvent::Locked(ok) => if !(state is Lock || state is Poll) {
                before
            } else if ok {
                0
            } else {
                before + 1
            },
            _ => before,
        }
    }
}

/// At event `i` the clock was due and showed the wait to be over, and the last
/// tries had found every slot busy.
pub open spec fn over_at(s: SlotsView, events: Seq<SlotEvent>, wait_ms: u64, i: int) -> bool {
    &&& 0 <= i < events.len()
    &&& slots_run(s, events.take(i)) is Clock
    &&& busy_streak(s, events.take(i)) >= DECRYPT_SLOTS
    &&& events[i] matches SlotEvent::Elapsed(nanos) && nanos >= wait_ms * 1_000_000
}

/// A slot is only ever one of the few; it is held only after a lock was taken;
/// locks are done without only where a lock file could not be opened; and the
/// wait is given up only after the clock showed it to be over, when the last
/// tries had found every slot busy.
pub proof fn slots_are_bounded(dir: Seq<u8>, wait_ms: u64, events: Seq<SlotEvent>)
    ensures
        ({
            let start = slots_start(dir, wait_ms);
            let wait = SlotWaitView { millis: wait_ms as int, shown: duration_text(wait_ms) };
            let streak = busy_streak(start, events);
            match slots_run(start, events) {
                SlotsView::Prepare { dir: _ } => false,
                SlotsView::Open { dir: d, wait: w, slot } => d == dir && w == wait && 0 <= slot
                    < DECRYPT_SLOTS && streak >= slot,
                SlotsView::Lock { dir: d, wait: w, slot } => d == dir && w == wait && 0 <= slot
                    < DECRYPT_SLOTS && streak >= slot,
                SlotsView::Start { wait: w } => w == wait && streak >= DECRYPT_SLOTS,
                SlotsView::Poll { wait: w, slot } => w == wait && 0 <= slot < DECRYPT_SLOTS
                    && streak >= slot,
                SlotsView::Clock { wait: w } => w == wait && streak >= DECRYPT_SLOTS,
                SlotsView::Sleep { wait: w } => w == wait && streak >= DECRYPT_SLOTS,
                SlotsView::Done(Ok(Some(slot))) => 0 <= slot < DECRYPT_SLOTS && events.contains(
                    SlotEvent::Locked(true),
                ),
                SlotsView::Done(Ok(None)) => events.contains(SlotEvent::Opened(false)),
                SlotsView::Done(Err(m)) => m == busy_message(wait) && exists|i: int|
                    over_at(start, events, wait_ms, i),
            }
        }),
    decreases events.len(),
{
    if events.len() > 0 {
        let start = slots_start(dir, wait_ms);
        let before = events.drop_last();
        slots_are_bounded(dir, wait_ms, before);
        nothing_is_undone(events);
        let s = slots_run(start, before);
        if s matches SlotsView::Done(Err(_)) {
            let i = choose|i: int| over_at(start, before, wait_ms, i);
            assert(events.take(i) =~= before.take(i));
            assert(over_at(start, events, wait_ms, i));
        } else if s is Clock {
            let i = events.len() - 1;
            assert(events.take(i) =~= before);
            if events.last() matches SlotEvent::Elapsed(n) && n >= wait_ms * 1_000_000 {
                assert(over_at(start, events, wait_ms, i));
            }
        }
    }
}

/// Each slot is tried in its turn, first while the lock files are opened, then as
/// long as the clock allows; the first lock that is taken is held.
pub proof fn every_slot_is_tried(
    dir: Seq<u8>,
    wait: SlotWaitView,
    slot: int,
    nanos: u128,
)
    requires
        0 <= slot < 4,
    ensures
        ({
            let open = SlotsView::Open { dir, wait, slot };
            let lock = slots_next(open, SlotEvent::Opened(true));
            let busy = slots_next(lock, SlotEvent::Locked(false));
            let poll = SlotsView::Poll { wait, slot };
            let again = slots_next(poll, SlotEvent::Locked(false));
            let over = slots_next(SlotsView::Clock { wait }, SlotEvent::Elapsed(nanos));
            &&& slots_next(lock, SlotEvent::Locked(true)) == SlotsView::Done(Ok(Some(slot)))
            &&& slot < 3 ==> busy == (SlotsView::Open { dir, wait, slot: slot + 1 })
            &&& slot == 3 ==> slots_next(busy, SlotEvent::Started) == (SlotsView::Poll {
                wait,
                slot: 0,
            })
            &&& slots_next(poll, SlotEvent::Locked(true)) == SlotsView::Done(Ok(Some(slot)))
            &&& slot < 3 ==> again == (SlotsView::Poll { wait, slot: slot + 1 })
            &&& slot == 3 ==> again == (SlotsView::Clock { wait })
            &&& nanos >= wait.millis * 1_000_000 ==> over == SlotsView::Done(
                Err(busy_message(wait)),
            )
            &&& nanos < wait.millis * 1_000_000 ==> slots_next(over, SlotEvent::Slept) == (
            SlotsView::Poll { wait, slot: 0 })
            &&& slots_next(open, SlotEvent::Opened(false)) == SlotsView::Done(Ok(None))
        }),
{
}

/// A process waits for the given time at most, two minutes where none is given, in
/// the directory that was prepared; one that cannot be prepared is done without.
pub proof fn waits_are_as_long_as_asked(dir: Seq<u8>, wait_ms: u64)
    ensures
        slots_start(dir, wait_ms) matches SlotsView::Open { dir: d, wait, slot } && d == dir
            && wait.millis == wait_ms && slot == 0,
        slots_next(SlotsView::Prepare { dir }, SlotEvent::Prepared(true)) == slots_start(
            dir,
            120_000,
        ),
        slots_next(SlotsView::Prepare { dir }, SlotEvent::Prepared(false)) == SlotsView::Done(
            Ok(None),
        ),
{
}

/// The locks lie in `credchain` within the runtime directory of the user, and each
/// slot has a lock file of its own there, by its number.
pub proof fn slots_have_files_of_their_own(runtime: Seq<u8>, uid: nat, dir: Seq<u8>, a: nat, b: nat)
    ensures
        runtime.len() > 0 && runtime.last() != 0x2f ==> lock_dir_of(Some(runtime), uid) == runtime
            + encode_utf8("/credchain"@),
        lock_dir_of(None, uid) == encode_utf8("/run/user/"@ + decimal_of(uid) + "/credchain"@),
        lock_dir_of(Some(Seq::empty()), uid) == lock_dir_of(None, uid),
        slot_path_of(dir, a) == slot_path_of(dir, b) ==> a == b,
        (within(dir) + encode_utf8("decrypt.slot."@ + decimal_of(a))) == slot_path_of(dir, a),
{
    reveal_strlit("credchain");
    reveal_strlit("/credchain");
    reveal_strlit("decrypt.slot.");
    let slash = seq!['/'];
    assert("/credchain"@ =~= slash + "credchain"@);
    utf8_append(slash, "credchain"@);
    one_byte('/');
    one_byte('c');
    one_byte('d');
    starts_with_its_first("credchain"@);
    assert(runtime.push(0x2f) + encode_utf8("credchain"@) =~= runtime + encode_utf8(
        "/credchain"@,
    ));
    let head = "decrypt.slot."@;
    let (x, y) = (head + decimal_of(a), head + decimal_of(b));
    starts_with_its_first(x);
    starts_with_its_first(y);
    assert(x[0] == 'd' && y[0] == 'd');
    if slot_path_of(dir, a) == slot_path_of(dir, b) {
        join_keeps_parts_apart(dir, encode_utf8(x), encode_utf8(y));
        vstd::utf8::encode_utf8_decode_utf8(x);
        vstd::utf8::encode_utf8_decode_utf8(y);
        assert(x.skip(head.len() as int) =~= decimal_of(a));
        assert(y.skip(head.len() as int) =~= decimal_of(b));
        decimal_is_injective(a, b);
    }
}

/// That every slot stayed busy is reported as a failure of the transport, with how
/// long was waited.
pub proof fn a_busy_queue_is_told(wait: SlotWaitView)
    ensures
        exists|text: Seq<char>|
            busy_message(wait) == #[trigger] failure_message(DecryptClass::Transport, text)
                && occurs("queue busy"@, text) && occurs(wait.shown, text),
{
    let head = "per-user decrypt queue busy (waited "@;
    let text = head + wait.shown + ")"@;
    reveal_strlit("per-user decrypt queue busy (waited ");
    reveal_strlit("queue busy");
    assert(text.subrange(17, 27) =~= "queue busy"@);
    assert(occurs_at("queue busy"@, text, 17));
    told_within(head, wait.shown, ")"@);
    assert(busy_message(wait) == failure_message(DecryptClass::Transport, text));
}

} // verus!
