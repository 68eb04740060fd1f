//! In-memory session state: unlocked vaults and their DEKs, unlocks that
//! wait for a TOTP code, 2FA setups in progress, the unlock rate limit, the
//! auto-lock delay and the vault the app was launched on. Nothing here is
//! ever written to disk. Times are milliseconds on a monotonic clock that
//! the caller reads.

use vstd::prelude::*;

use crate::crypto::VaultKey;
use crate::error::{AppError, AppResult};
use crate::settings::DEFAULT_AUTO_LOCK_SECS;

verus! {

broadcast use vstd::string::group_string_axioms;

/// Failed attempts tolerated before unlocking starts to be delayed.
pub const FREE_ATTEMPTS: u32 = 4;

/// Delay after the first failure past the free ones, in seconds.
pub const FIRST_LOCKOUT_SECS: u64 = 5;

/// Longest delay, in seconds (five minutes).
pub const MAX_LOCKOUT_SECS: u64 = 300;

/// Something stored per vault.
pub trait Keyed {
    spec fn key(&self) -> u128;

    fn vault(&self) -> (r: u128)
        ensures
            r == self.key(),
    ;
}

/// An unlocked vault.
pub struct Session {
    pub vault_id: u128,
    pub dek: VaultKey,
    pub last_used_ms: u64,
}

/// A vault whose password was verified and that waits for its TOTP code.
pub struct PendingUnlock {
    pub vault_id: u128,
    pub dek: VaultKey,
}

/// A TOTP secret shown to the user and not yet confirmed.
pub struct TotpSetupDraft {
    pub vault_id: u128,
    pub secret: String,
}

/// Failed unlock attempts of a vault since its last success.
pub struct AttemptRecord {
    pub vault_id: u128,
    pub failures: u32,
    pub locked_until_ms: u64,
}

impl Keyed for Session {
    open spec fn key(&self) -> u128 {
        self.vault_id
    }

    fn vault(&self) -> (r: u128) {
        self.vault_id
    }
}

impl Keyed for PendingUnlock {
    open spec fn key(&self) -> u128 {
        self.vault_id
    }

    fn vault(&self) -> (r: u128) {
        self.vault_id
    }
}

impl Keyed for TotpSetupDraft {
    open spec fn key(&self) -> u128 {
        self.vault_id
    }

    fn vault(&self) -> (r: u128) {
        self.vault_id
    }
}

impl Keyed for AttemptRecord {
    open spec fn key(&self) -> u128 {
        self.vault_id
    }

    fn vault(&self) -> (r: u128) {
        self.vault_id
    }
}

/// The entry for `id`: the last one stored with that key.
pub open spec fn find<T: Keyed>(s: Seq<T>, id: u128) -> Option<T>
    decreases s.len(),
{
    if s.len() == 0 {
        None
    } else if s.last().key() == id {
        Some(s.last())
    } else {
        find(s.drop_last(), id)
    }
}

/// Drops every entry for `id`; the others keep their entries.
fn remove_key<T: Keyed>(v: &mut Vec<T>, id: u128)
    ensures
        find(final(v)@, id) is None,
        forall|other: u128| other != id ==> #[trigger] find(final(v)@, other) == find(old(v)@, other),
{
    let mut rest: Vec<T> = Vec::new();
    std::mem::swap(&mut rest, v);
    let ghost all = rest@;
    // `v` is rebuilt from the front of the old list, keeping the other keys.
    let mut reversed: Vec<T> = Vec::new();
    while rest.len() > 0
        invariant
            rest@ == all.take(rest@.len() as int),
            rest@.len() <= all.len(),
            forall|j: int| 0 <= j < reversed@.len() ==> (#[trigger] reversed@[j]).key() != id,
            forall|other: u128|
                other != id ==> #[trigger] find(all, other) == match find(rest@, other) {
                    Some(x) => if find(reversed@.reverse(), other) is Some {
                        find(reversed@.reverse(), other)
                    } else {
                        Some(x)
                    },
                    None => find(reversed@.reverse(), other),
                },
        decreases rest@.len(),
    {
        let ghost before_rest = rest@;
        let ghost before_rev = reversed@;
        let x = rest.pop().unwrap();
        proof {
            assert(before_rest.drop_last() =~= rest@);
            assert(rest@ =~= all.take(rest@.len() as int));
        }
        if x.vault() != id {
            reversed.push(x);
            proof {
                assert(reversed@.reverse() =~= seq![x] + before_rev.reverse());
                assert forall|other: u128| other != id implies #[trigger] find(all, other) == match find(rest@, other) {
                    Some(y) => if find(reversed@.reverse(), other) is Some {
                        find(reversed@.reverse(), other)
                    } else {
                        Some(y)
                    },
                    None => find(reversed@.reverse(), other),
                } by {
                    lemma_find_prepend(before_rev.reverse(), x, other);
                }
            }
        }
    }
    assert(forall|other: u128| find(rest@, other) is None);
    let ghost kept = reversed@.reverse();
    while reversed.len() > 0
        invariant
            v@ + reversed@.reverse() == kept,
        decreases reversed@.len(),
    {
        let ghost r = reversed@;
        let x = reversed.pop().unwrap();
        proof {
            assert(r.reverse() =~= seq![x] + reversed@.reverse());
        }
        v.push(x);
        assert(v@ + reversed@.reverse() =~= kept);
    }
    assert(reversed@.reverse() =~= Seq::<T>::empty());
    assert(v@ =~= kept);
    proof {
        lemma_find_absent(kept, id);
    }
}

proof fn lemma_find_prepend<T: Keyed>(s: Seq<T>, x: T, id: u128)
    ensures
        find(seq![x] + s, id) == if find(s, id) is Some {
            find(s, id)
        } else if x.key() == id {
            Some(x)
        } else {
            None
        },
    decreases s.len(),
{
    if s.len() == 0 {
        assert(seq![x] + s =~= seq![x]);
        assert(seq![x].drop_last() =~= Seq::<T>::empty());
    } else {
        assert((seq![x] + s).drop_last() =~= seq![x] + s.drop_last());
        lemma_find_prepend(s.drop_last(), x, id);
    }
}

proof fn lemma_find_absent<T: Keyed>(s: Seq<T>, id: u128)
    requires
        forall|j: int| 0 <= j < s.len() ==> (#[trigger] s[j]).key() != id,
    ensures
        find(s, id) is None,
    decreases s.len(),
{
    if s.len() > 0 {
        lemma_find_absent(s.drop_last(), id);
    }
}

/// Stores `x` for its key, replacing what that key had.
fn upsert<T: Keyed>(v: &mut Vec<T>, x: T)
    ensures
        find(final(v)@, x.key()) == Some(x),
        forall|other: u128|
            other != x.key() ==> #[trigger] find(final(v)@, other) == find(old(v)@, other),
{
    let id = x.vault();
    remove_key(v, id);
    let ghost before = v@;
    v.push(x);
    proof {
        assert(v@.drop_last() =~= before);
        assert forall|other: u128| other != x.key() implies #[trigger] find(v@, other) == find(
            old(v)@,
            other,
        ) by {
            assert(v@.drop_last() =~= before);
            assert(v@.last() == x);
            assert(v@.len() > 0);
            assert(find(v@, other) == find(v@.drop_last(), other));
            assert(find(before, other) == find(old(v)@, other));
        }
    }
}

/// Position of the entry for `id`, if any.
fn position<T: Keyed>(v: &Vec<T>, id: u128) -> (r: Option<usize>)
    ensures
        r is None <==> find(v@, id) is None,
        r matches Some(i) ==> i < v@.len() && find(v@, id) == Some(v@[i as int]),
{
    let mut n: usize = v.len();
    assert(v@.take(n as int) =~= v@);
    while n > 0
        invariant
            n <= v@.len(),
            find(v@, id) == find(v@.take(n as int), id),
        decreases n,
    {
        let ghost t = v@.take(n as int);
        assert(t.drop_last() =~= v@.take(n - 1));
        if v[n - 1].vault() == id {
            return Some(n - 1);
        }
        n = n - 1;
    }
    assert(v@.take(0) =~= Seq::<T>::empty());
    None
}

/// Lockout, in seconds, after `failures` consecutive failed attempts: none
/// for the first four, then 5 s, 10 s, 20 s, ... doubling up to 5 minutes.
pub open spec fn lockout_secs(failures: nat) -> nat {
    if failures <= FREE_ATTEMPTS {
        0
    } else {
        let d = doubled(FIRST_LOCKOUT_SECS as nat, (failures - FREE_ATTEMPTS - 1) as nat);
        if d > MAX_LOCKOUT_SECS {
            MAX_LOCKOUT_SECS as nat
        } else {
            d
        }
    }
}

/// `base` doubled `n` times.
pub open spec fn doubled(base: nat, n: nat) -> nat
    decreases n,
{
    if n == 0 {
        base
    } else {
        2 * doubled(base, (n - 1) as nat)
    }
}

/// Whole seconds left from `now_ms` until `until_ms`, rounded up.
pub open spec fn secs_left(until_ms: u64, now_ms: u64) -> u64 {
    ((until_ms - now_ms + 999) / 1000) as u64
}

fn lockout_secs_exec(failures: u32) -> (r: u64)
    ensures
        r == lockout_secs(failures as nat),
{
    if failures <= FREE_ATTEMPTS {
        return 0;
    }
    let n = failures - FREE_ATTEMPTS - 1;
    let mut d: u64 = FIRST_LOCKOUT_SECS;
    let mut k: u32 = 0;
    while k < n && d <= MAX_LOCKOUT_SECS
        invariant
            k <= n,
            d == doubled(FIRST_LOCKOUT_SECS as nat, k as nat),
            d <= 2 * MAX_LOCKOUT_SECS,
        decreases n - k,
    {
        d = 2 * d;
        k = k + 1;
    }
    if d > MAX_LOCKOUT_SECS {
        proof {
            lemma_doubled_grows(FIRST_LOCKOUT_SECS as nat, k as nat, n as nat);
        }
        MAX_LOCKOUT_SECS
    } else {
        d
    }
}

proof fn lemma_doubled_grows(base: nat, a: nat, b: nat)
    requires
        a <= b,
    ensures
        doubled(base, a) <= doubled(base, b),
    decreases b,
{
    if a < b {
        lemma_doubled_grows(base, a, (b - 1) as nat);
    }
}

/// The lockout deadline after a failure that brings a vault to `failures`
/// failures at `now_ms` (the previous deadline while failures are free).
pub open spec fn deadline_after(failures: nat, previous: u64, now_ms: u64) -> u64 {
    if failures <= FREE_ATTEMPTS {
        previous
    } else if now_ms as nat + lockout_secs(failures) * 1000 > u64::MAX {
        u64::MAX
    } else {
        (now_ms + lockout_secs(failures) * 1000) as u64
    }
}

/// `after` is `before` with one more failed attempt counted for `id` at
/// `now_ms`, and nothing else changed.
pub open spec fn failure_recorded(before: AppState, after: AppState, id: u128, now_ms: u64) -> bool {
    &&& after.failures(id) == if before.failures(id) < u32::MAX {
        before.failures(id) + 1
    } else {
        before.failures(id)
    }
    &&& after.locked_until(id) == deadline_after(after.failures(id), before.locked_until(id), now_ms)
    &&& forall|other: u128|
        other != id ==> #[trigger] after.failures(other) == before.failures(other)
            && after.locked_until(other) == before.locked_until(other)
    &&& after.spec_sessions() == before.spec_sessions()
    &&& after.spec_pending() == before.spec_pending()
    &&& after.spec_setups() == before.spec_setups()
    &&& after.spec_auto_lock_secs() == before.spec_auto_lock_secs()
    &&& after.spec_launch_target() == before.spec_launch_target()
}

/// `after` is `before` with every failure of `id` forgotten, and nothing
/// else changed.
pub open spec fn success_recorded(before: AppState, after: AppState, id: u128) -> bool {
    &&& after.failures(id) == 0
    &&& after.locked_until(id) == 0
    &&& forall|other: u128|
        other != id ==> #[trigger] after.failures(other) == before.failures(other)
            && after.locked_until(other) == before.locked_until(other)
    &&& after.spec_sessions() == before.spec_sessions()
    &&& after.spec_pending() == before.spec_pending()
    &&& after.spec_setups() == before.spec_setups()
    &&& after.spec_auto_lock_secs() == before.spec_auto_lock_secs()
    &&& after.spec_launch_target() == before.spec_launch_target()
}

/// Equal underlying lists give equal per-vault views.
pub proof fn lemma_same_views(a: AppState, b: AppState)
    ensures
        a.spec_sessions() == b.spec_sessions() ==> forall|id: u128|
            #![trigger a.session(id)]
            #![trigger b.session(id)]
            a.session(id) == b.session(id),
        a.spec_pending() == b.spec_pending() ==> forall|id: u128|
            #![trigger a.pending_dek(id)]
            #![trigger b.pending_dek(id)]
            a.pending_dek(id) == b.pending_dek(id),
        a.spec_setups() == b.spec_setups() ==> forall|id: u128|
            #![trigger a.setup_secret(id)]
            #![trigger b.setup_secret(id)]
            a.setup_secret(id) == b.setup_secret(id),
        a.spec_attempts() == b.spec_attempts() ==> forall|id: u128|
            #![trigger a.failures(id)]
            #![trigger b.failures(id)]
            #![trigger a.locked_until(id)]
            #![trigger b.locked_until(id)]
            a.failures(id) == b.failures(id) && a.locked_until(id) == b.locked_until(id),
{
}

/// The session state of the app.
pub struct AppState {
    sessions: Vec<Session>,
    pending: Vec<PendingUnlock>,
    setups: Vec<TotpSetupDraft>,
    attempts: Vec<AttemptRecord>,
    auto_lock_secs: u64,
    launch_target: Option<String>,
}

impl AppState {
    /// The session of a vault, if it is unlocked (expired or not).
    pub closed spec fn session(&self, id: u128) -> Option<Session> {
        find(self.sessions@, id)
    }

    /// The DEK of a vault that waits for its TOTP code.
    pub closed spec fn pending_dek(&self, id: u128) -> Option<Seq<u8>> {
        match find(self.pending@, id) {
            Some(p) => Some(p.dek.0@),
            None => None,
        }
    }

    /// The TOTP secret being set up for a vault.
    pub closed spec fn setup_secret(&self, id: u128) -> Option<Seq<char>> {
        match find(self.setups@, id) {
            Some(s) => Some(s.secret@),
            None => None,
        }
    }

    /// Consecutive failed attempts of a vault.
    pub closed spec fn failures(&self, id: u128) -> nat {
        match find(self.attempts@, id) {
            Some(a) => a.failures as nat,
            None => 0,
        }
    }

    /// Until when unlocking a vault is refused (0 when it is not).
    pub closed spec fn locked_until(&self, id: u128) -> u64 {
        match find(self.attempts@, id) {
            Some(a) => a.locked_until_ms,
            None => 0,
        }
    }

    pub closed spec fn spec_sessions(&self) -> Seq<Session> {
        self.sessions@
    }

    pub closed spec fn spec_pending(&self) -> Seq<PendingUnlock> {
        self.pending@
    }

    pub closed spec fn spec_setups(&self) -> Seq<TotpSetupDraft> {
        self.setups@
    }

    pub closed spec fn spec_attempts(&self) -> Seq<AttemptRecord> {
        self.attempts@
    }

    pub closed spec fn spec_auto_lock_secs(&self) -> u64 {
        self.auto_lock_secs
    }

    pub closed spec fn spec_launch_target(&self) -> Option<Seq<char>> {
        match self.launch_target {
            Some(s) => Some(s@),
            None => None,
        }
    }

    /// How many sessions are open.
    pub closed spec fn session_count(&self) -> nat {
        self.sessions@.len()
    }

    /// The session of `id` has been idle past the auto-lock delay.
    pub open spec fn expired(&self, id: u128, now_ms: u64) -> bool {
        self.session(id) matches Some(s) && now_ms >= s.last_used_ms && now_ms - s.last_used_ms
            > self.spec_auto_lock_secs() * 1000
    }

    /// A vault counts as unlocked while it has a session that has not
    /// expired.
    pub open spec fn unlocked(&self, id: u128, now_ms: u64) -> bool {
        self.session(id) is Some && !self.expired(id, now_ms)
    }

    /// No session, no pending unlock, no 2FA setup, five-minute auto-lock,
    /// no launch target.
    pub fn new() -> (r: AppState)
        ensures
            forall|id: u128| #[trigger] r.session(id) is None,
            forall|id: u128| #[trigger] r.pending_dek(id) is None,
            forall|id: u128| #[trigger] r.setup_secret(id) is None,
            forall|id: u128| #[trigger] r.failures(id) == 0 && r.locked_until(id) == 0,
            r.spec_auto_lock_secs() == DEFAULT_AUTO_LOCK_SECS,
            r.spec_launch_target() is None,
            r.session_count() == 0,
    {
        AppState {
            sessions: Vec::new(),
            pending: Vec::new(),
            setups: Vec::new(),
            attempts: Vec::new(),
            auto_lock_secs: DEFAULT_AUTO_LOCK_SECS,
            launch_target: None,
        }
    }

    /// Refuses an unlock attempt while the vault is locked out, saying how
    /// many seconds are left.
    pub fn check_rate_limit(&self, vault_id: u128, now_ms: u64) -> (r: AppResult<()>)
        ensures
            r is Ok <==> now_ms >= self.locked_until(vault_id),
            r is Err ==> (r matches Err(AppError::TooManyAttempts(secs)) && secs == secs_left(
                self.locked_until(vault_id),
                now_ms,
            )),
    {
        match position(&self.attempts, vault_id) {
            Some(i) => {
                let until = self.attempts[i].locked_until_ms;
                if now_ms < until {
                    let left = until - now_ms;
                    Err(AppError::TooManyAttempts(left / 1000 + if left % 1000 == 0 { 0 } else { 1 }))
                } else {
                    Ok(())
                }
            },
            None => Ok(()),
        }
    }

    /// Counts a failed attempt; from the fifth on, each failure locks the
    /// vault out for `lockout_secs` of the new count, starting now.
    pub fn record_failed_attempt(&mut self, vault_id: u128, now_ms: u64)
        ensures
            failure_recorded(*old(self), *final(self), vault_id, now_ms),
    {
        let (failures, until) = match position(&self.attempts, vault_id) {
            Some(i) => (self.attempts[i].failures, self.attempts[i].locked_until_ms),
            None => (0u32, 0u64),
        };
        let failures = if failures < u32::MAX { failures + 1 } else { failures };
        let until = if failures <= FREE_ATTEMPTS {
            until
        } else {
            let delay_ms = lockout_secs_exec(failures) * 1000;
            if now_ms > u64::MAX - delay_ms {
                u64::MAX
            } else {
                now_ms + delay_ms
            }
        };
        upsert(
            &mut self.attempts,
            AttemptRecord { vault_id, failures, locked_until_ms: until },
        );
    }

    /// A successful attempt forgets every failure of the vault.
    pub fn record_successful_attempt(&mut self, vault_id: u128)
        ensures
            success_recorded(*old(self), *final(self), vault_id),
    {
        remove_key(&mut self.attempts, vault_id);
    }

    /// Unlocks a vault with its DEK, starting its idle time now.
    pub fn open_session(&mut self, vault_id: u128, dek: VaultKey, now_ms: u64)
        ensures
            final(self).session(vault_id) matches Some(s) && s.dek.0@ == dek.0@ && s.last_used_ms
                == now_ms,
            forall|other: u128|
                other != vault_id ==> #[trigger] final(self).session(other) == old(self).session(
                    other,
                ),
            final(self).spec_pending() == old(self).spec_pending(),
            final(self).spec_setups() == old(self).spec_setups(),
            final(self).spec_attempts() == old(self).spec_attempts(),
            final(self).spec_auto_lock_secs() == old(self).spec_auto_lock_secs(),
            final(self).spec_launch_target() == old(self).spec_launch_target(),
    {
        upsert(&mut self.sessions, Session { vault_id, dek, last_used_ms: now_ms });
    }

    /// Holds the DEK of a vault whose password was right until its TOTP
    /// code comes.
    pub fn begin_totp_unlock(&mut self, vault_id: u128, dek: VaultKey)
        ensures
            final(self).pending_dek(vault_id) == Some(dek.0@),
            forall|other: u128|
                other != vault_id ==> #[trigger] final(self).pending_dek(other) == old(
                    self,
                ).pending_dek(other),
            final(self).spec_sessions() == old(self).spec_sessions(),
            final(self).spec_setups() == old(self).spec_setups(),
            final(self).spec_attempts() == old(self).spec_attempts(),
            final(self).spec_auto_lock_secs() == old(self).spec_auto_lock_secs(),
            final(self).spec_launch_target() == old(self).spec_launch_target(),
    {
        upsert(&mut self.pending, PendingUnlock { vault_id, dek });
    }

    /// The pending DEK, left in place so that a wrong code does not force
    /// the user to type the password again.
    pub fn peek_pending_totp_unlock(&self, vault_id: u128) -> (r: AppResult<VaultKey>)
        ensures
            r is Ok <==> self.pending_dek(vault_id) is Some,
            r matches Ok(k) ==> Some(k.0@) == self.pending_dek(vault_id),
            r is Err ==> r matches Err(AppError::VaultLocked),
    {
        match position(&self.pending, vault_id) {
            Some(i) => Ok(self.pending[i].dek.duplicate()),
            None => Err(AppError::VaultLocked),
        }
    }

    /// Turns the pending unlock of a vault into a session.
    pub fn complete_totp_unlock(&mut self, vault_id: u128, now_ms: u64) -> (r: AppResult<()>)
        ensures
            r is Ok <==> old(self).pending_dek(vault_id) is Some,
            r is Err ==> (r matches Err(AppError::VaultLocked) && *final(self) == *old(self)),
            r is Ok ==> final(self).pending_dek(vault_id) is None && (final(self).session(
                vault_id,
            ) matches Some(s) && Some(s.dek.0@) == old(self).pending_dek(vault_id)
                && s.last_used_ms == now_ms),
            forall|other: u128|
                other != vault_id ==> #[trigger] final(self).session(other) == old(self).session(
                    other,
                ) && final(self).pending_dek(other) == old(self).pending_dek(other),
            final(self).spec_setups() == old(self).spec_setups(),
            final(self).spec_attempts() == old(self).spec_attempts(),
            final(self).spec_auto_lock_secs() == old(self).spec_auto_lock_secs(),
            final(self).spec_launch_target() == old(self).spec_launch_target(),
    {
        let dek = match position(&self.pending, vault_id) {
            Some(i) => self.pending[i].dek.duplicate(),
            None => {
                return Err(AppError::VaultLocked);
            },
        };
        remove_key(&mut self.pending, vault_id);
        self.open_session(vault_id, dek, now_ms);
        Ok(())
    }

    /// The DEK of an unlocked vault, counting as activity. A session idle
    /// for longer than the auto-lock delay is closed instead.
    pub fn get_active_dek(&mut self, vault_id: u128, now_ms: u64) -> (r: AppResult<VaultKey>)
        ensures
            r is Ok <==> old(self).unlocked(vault_id, now_ms),
            r is Err ==> (r matches Err(AppError::VaultLocked) && final(self).session(vault_id)
                is None),
            r matches Ok(k) ==> (old(self).session(vault_id) matches Some(s) && k.0@ == s.dek.0@
                && (final(self).session(vault_id) matches Some(t) && t.dek.0@ == s.dek.0@
                && t.last_used_ms == now_ms)),
            forall|other: u128|
                other != vault_id ==> #[trigger] final(self).session(other) == old(self).session(
                    other,
                ),
            final(self).spec_pending() == old(self).spec_pending(),
            final(self).spec_setups() == old(self).spec_setups(),
            final(self).spec_attempts() == old(self).spec_attempts(),
            final(self).spec_auto_lock_secs() == old(self).spec_auto_lock_secs(),
            final(self).spec_launch_target() == old(self).spec_launch_target(),
    {
        let i = match position(&self.sessions, vault_id) {
            Some(i) => i,
            None => {
                return Err(AppError::VaultLocked);
            },
        };
        let last = self.sessions[i].last_used_ms;
        let timeout_ms: u64 = if self.auto_lock_secs > u64::MAX / 1000 {
            u64::MAX
        } else {
            self.auto_lock_secs * 1000
        };
        if now_ms >= last && now_ms - last > timeout_ms {
            remove_key(&mut self.sessions, vault_id);
            return Err(AppError::VaultLocked);
        }
        let dek = self.sessions[i].dek.duplicate();
        self.open_session(vault_id, dek.duplicate(), now_ms);
        Ok(dek)
    }

    /// Whether the vault is unlocked (has a session that has not expired).
    pub fn is_unlocked(&self, vault_id: u128, now_ms: u64) -> (r: bool)
        ensures
            r == self.unlocked(vault_id, now_ms),
    {
        match position(&self.sessions, vault_id) {
            Some(i) => {
                let last = self.sessions[i].last_used_ms;
                let timeout_ms: u64 = if self.auto_lock_secs > u64::MAX / 1000 {
                    u64::MAX
                } else {
                    self.auto_lock_secs * 1000
                };
                !(now_ms >= last && now_ms - last > timeout_ms)
            },
            None => false,
        }
    }

    /// Whether at least one vault has a session.
    pub fn any_session_open(&self) -> (r: bool)
        ensures
            r == (self.session_count() > 0),
    {
        self.sessions.len() > 0
    }

    /// Locks a vault: its session, pending unlock and 2FA setup are gone.
    pub fn lock_vault(&mut self, vault_id: u128)
        ensures
            final(self).session(vault_id) is None,
            final(self).pending_dek(vault_id) is None,
            final(self).setup_secret(vault_id) is None,
            forall|other: u128|
                other != vault_id ==> #[trigger] final(self).session(other) == old(self).session(
                    other,
                ) && final(self).pending_dek(other) == old(self).pending_dek(other)
                    && final(self).setup_secret(other) == old(self).setup_secret(other),
            final(self).spec_attempts() == old(self).spec_attempts(),
            final(self).spec_auto_lock_secs() == old(self).spec_auto_lock_secs(),
            final(self).spec_launch_target() == old(self).spec_launch_target(),
    {
        remove_key(&mut self.sessions, vault_id);
        remove_key(&mut self.pending, vault_id);
        remove_key(&mut self.setups, vault_id);
    }

    /// Locks every vault at once.
    pub fn lock_all(&mut self)
        ensures
            forall|id: u128| #[trigger] final(self).session(id) is None,
            forall|id: u128| #[trigger] final(self).pending_dek(id) is None,
            forall|id: u128| #[trigger] final(self).setup_secret(id) is None,
            final(self).session_count() == 0,
            final(self).spec_attempts() == old(self).spec_attempts(),
            final(self).spec_auto_lock_secs() == old(self).spec_auto_lock_secs(),
            final(self).spec_launch_target() == old(self).spec_launch_target(),
    {
        self.sessions = Vec::new();
        self.pending = Vec::new();
        self.setups = Vec::new();
    }

    /// Remembers the TOTP secret being set up for a vault.
    pub fn start_totp_setup(&mut self, vault_id: u128, secret: String)
        ensures
            final(self).setup_secret(vault_id) == Some(secret@),
            forall|other: u128|
                other != vault_id ==> #[trigger] final(self).setup_secret(other) == old(
                    self,
                ).setup_secret(other),
            final(self).spec_sessions() == old(self).spec_sessions(),
            final(self).spec_pending() == old(self).spec_pending(),
            final(self).spec_attempts() == old(self).spec_attempts(),
            final(self).spec_auto_lock_secs() == old(self).spec_auto_lock_secs(),
            final(self).spec_launch_target() == old(self).spec_launch_target(),
    {
        upsert(&mut self.setups, TotpSetupDraft { vault_id, secret });
    }

    /// Takes the TOTP secret being set up for a vault.
    pub fn take_totp_setup(&mut self, vault_id: u128) -> (r: AppResult<String>)
        ensures
            r is Ok <==> old(self).setup_secret(vault_id) is Some,
            r matches Ok(s) ==> Some(s@) == old(self).setup_secret(vault_id),
            r matches Err(e) ==> e is Crypto,
            final(self).setup_secret(vault_id) is None,
            forall|other: u128|
                other != vault_id ==> #[trigger] final(self).setup_secret(other) == old(
                    self,
                ).setup_secret(other),
            final(self).spec_sessions() == old(self).spec_sessions(),
            final(self).spec_pending() == old(self).spec_pending(),
            final(self).spec_attempts() == old(self).spec_attempts(),
            final(self).spec_auto_lock_secs() == old(self).spec_auto_lock_secs(),
            final(self).spec_launch_target() == old(self).spec_launch_target(),
    {
        let secret = match position(&self.setups, vault_id) {
            Some(i) => self.setups[i].secret.clone(),
            None => {
                return Err(AppError::Crypto("aucune configuration 2FA en cours".to_string()));
            },
        };
        remove_key(&mut self.setups, vault_id);
        Ok(secret)
    }

    pub fn auto_lock_timeout(&self) -> (r: u64)
        ensures
            r == self.spec_auto_lock_secs(),
    {
        self.auto_lock_secs
    }

    /// Changes the auto-lock delay; it applies to every open session.
    pub fn set_auto_lock_timeout(&mut self, secs: u64)
        ensures
            final(self).spec_auto_lock_secs() == secs,
            final(self).spec_sessions() == old(self).spec_sessions(),
            final(self).spec_pending() == old(self).spec_pending(),
            final(self).spec_setups() == old(self).spec_setups(),
            final(self).spec_attempts() == old(self).spec_attempts(),
            final(self).spec_launch_target() == old(self).spec_launch_target(),
    {
        self.auto_lock_secs = secs;
    }

    /// Records the vault folder the app was launched on.
    pub fn set_launch_target(&mut self, path: String)
        ensures
            final(self).spec_launch_target() == Some(path@),
            final(self).spec_sessions() == old(self).spec_sessions(),
            final(self).spec_pending() == old(self).spec_pending(),
            final(self).spec_setups() == old(self).spec_setups(),
            final(self).spec_attempts() == old(self).spec_attempts(),
            final(self).spec_auto_lock_secs() == old(self).spec_auto_lock_secs(),
    {
        self.launch_target = Some(path);
    }

    /// The launch target, consumed on first read.
    pub fn take_launch_target(&mut self) -> (r: Option<String>)
        ensures
            match r {
                Some(s) => old(self).spec_launch_target() == Some(s@),
                None => old(self).spec_launch_target() is None,
            },
            final(self).spec_launch_target() is None,
            final(self).spec_sessions() == old(self).spec_sessions(),
            final(self).spec_pending() == old(self).spec_pending(),
            final(self).spec_setups() == old(self).spec_setups(),
            final(self).spec_attempts() == old(self).spec_attempts(),
            final(self).spec_auto_lock_secs() == old(self).spec_auto_lock_secs(),
    {
        let mut taken: Option<String> = None;
        std::mem::swap(&mut taken, &mut self.launch_target);
        taken
    }
}


/// The unlock delay never shrinks as failures pile up, and never exceeds
/// five minutes.
pub proof fn lockout_grows_and_is_capped(fewer: nat, more: nat)
    requires
        fewer <= more,
    ensures
        lockout_secs(fewer) <= lockout_secs(more),
        lockout_secs(more) <= MAX_LOCKOUT_SECS,
{
    if fewer > FREE_ATTEMPTS {
        lemma_doubled_grows(
            FIRST_LOCKOUT_SECS as nat,
            (fewer - FREE_ATTEMPTS - 1) as nat,
            (more - FREE_ATTEMPTS - 1) as nat,
        );
    }
}

/// The first four failed attempts never delay the next one.
pub proof fn first_failures_are_free(failures: nat)
    requires
        failures <= FREE_ATTEMPTS,
    ensures
        lockout_secs(failures) == 0,
{
}

/// Once a vault's failures are forgotten (a successful attempt), the rate
/// limit lets the next attempt through at any time.
pub proof fn success_lifts_the_lockout(before: AppState, after: AppState, vault_id: u128, now_ms: u64)
    requires
        success_recorded(before, after, vault_id),
    ensures
        now_ms >= after.locked_until(vault_id),
        after.failures(vault_id) == 0,
{
}

/// A failed attempt made once the vault is past its lockout never brings
/// the end of the lockout forward, and from the fifth failure on it locks
/// the vault for at least five seconds from now (less only where that
/// would pass the end of time).
pub proof fn failures_never_shorten_a_lockout(
    before: AppState,
    after: AppState,
    vault_id: u128,
    now_ms: u64,
)
    requires
        failure_recorded(before, after, vault_id, now_ms),
        now_ms >= before.locked_until(vault_id),
    ensures
        after.locked_until(vault_id) >= before.locked_until(vault_id),
        after.failures(vault_id) > FREE_ATTEMPTS ==> after.locked_until(vault_id) >= now_ms
            && (now_ms + FIRST_LOCKOUT_SECS * 1000 <= u64::MAX ==> after.locked_until(vault_id)
            >= now_ms + FIRST_LOCKOUT_SECS * 1000),
{
    let f = after.failures(vault_id);
    if f > FREE_ATTEMPTS {
        lemma_doubled_grows(FIRST_LOCKOUT_SECS as nat, 0, (f - FREE_ATTEMPTS - 1) as nat);
    }
}

/// A locked vault (no session) does not count as unlocked, whatever the
/// time, so its DEK is not handed out.
pub proof fn locked_vault_stays_locked(state: AppState, vault_id: u128, now_ms: u64)
    requires
        state.session(vault_id) is None,
    ensures
        !state.unlocked(vault_id, now_ms),
{
}

} // verus!
