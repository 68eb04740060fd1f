//! The steps of getting into a vault and of turning on its second factor:
//! what each attempt checks, in which order, and what it leaves in the
//! session state. Reading and writing `vault.json` is the caller's part:
//! it hands over what it read (or why it could not), and writes back the
//! metadata these steps return.

use vstd::prelude::*;
use vstd::utf8::*;

use crate::commands::{password_from_bytes, ConfirmTotpResult, TotpSetup, UnlockResult};
use crate::error::{AppError, AppResult};
use crate::state::{failure_recorded, lemma_same_views, secs_left, AppState};
use crate::totp;
use crate::vault::{self, opens_to, unlock_refusal, vault_opens_with, VaultMetadata};

verus! {

broadcast use vstd::string::group_string_axioms;

/// `password` unlocks `m` with some DEK.
pub open spec fn unlocks(m: VaultMetadata, password: Seq<char>) -> bool {
    exists|dek: Seq<u8>| #[trigger] vault_opens_with(m, password, dek)
}

/// An attempt on `id` at `now_ms` is past the lockout.
pub open spec fn admitted(state: AppState, id: u128, now_ms: u64) -> bool {
    now_ms >= state.locked_until(id)
}

/// `after` is `before` with `dek` waiting for the TOTP code of `id`, and
/// nothing else changed.
pub open spec fn totp_awaited(before: AppState, after: AppState, id: u128, dek: Seq<u8>) -> bool {
    &&& after.pending_dek(id) == Some(dek)
    &&& forall|other: u128|
        other != id ==> #[trigger] after.pending_dek(other) == before.pending_dek(other)
    &&& after.spec_sessions() == before.spec_sessions()
    &&& after.spec_setups() == before.spec_setups()
    &&& after.spec_attempts() == before.spec_attempts()
    &&& after.spec_auto_lock_secs() == before.spec_auto_lock_secs()
    &&& after.spec_launch_target() == before.spec_launch_target()
}

/// `after` is `before` with `id` unlocked with `dek` from `now_ms` on and
/// its failures forgotten; no other vault's session, pending unlock or
/// failures changed, nor the 2FA setups.
pub open spec fn logged_in(before: AppState, after: AppState, id: u128, dek: Seq<u8>, now_ms: u64) -> bool {
    &&& after.session(id) matches Some(s) && s.dek.0@ == dek && s.last_used_ms == now_ms
    &&& after.failures(id) == 0
    &&& after.locked_until(id) == 0
    &&& forall|other: u128|
        other != id ==> #[trigger] after.session(other) == before.session(other)
            && after.pending_dek(other) == before.pending_dek(other) && after.failures(other)
            == before.failures(other) && after.locked_until(other) == before.locked_until(other)
    &&& after.spec_setups() == before.spec_setups()
    &&& after.spec_auto_lock_secs() == before.spec_auto_lock_secs()
    &&& after.spec_launch_target() == before.spec_launch_target()
}

/// What a caller found when it went to read a vault's metadata.
#[derive(Debug)]
pub enum VaultRead {
    /// The index has no entry for the vault, or could not be read.
    NotFound(AppError),
    /// The vault is in the index, but its `vault.json` could not be read.
    Unreadable(AppError),
    /// The vault's metadata.
    Read(VaultMetadata),
}

/// Checks the master password of a vault. Refused while the vault is
/// locked out. A wrong password counts as a failed attempt. When the vault
/// has 2FA, the DEK waits for a TOTP code or a recovery code and no session
/// is opened; otherwise the vault is unlocked at once.
///
/// `vault` is what the caller found when it looked the vault up in the
/// index and read its `vault.json`. A vault that is not in the index is
/// refused without counting an attempt; metadata that cannot be read makes
/// the unlock fail, and counts as a failed attempt.
pub fn unlock_vault(
    state: &mut AppState,
    vault_id: u128,
    password: Vec<u8>,
    vault: VaultRead,
    now_ms: u64,
) -> (r: AppResult<UnlockResult>)
    ensures
        !admitted(*old(state), vault_id, now_ms) ==> (r matches Err(AppError::TooManyAttempts(s))
            && s == secs_left(old(state).locked_until(vault_id), now_ms) && *final(state) == *old(
            state,
        )),
        admitted(*old(state), vault_id, now_ms) && !valid_utf8(password@) ==> (r matches Err(
            AppError::Crypto(_),
        ) && *final(state) == *old(state)),
        admitted(*old(state), vault_id, now_ms) && valid_utf8(password@) && vault is NotFound ==> (r
            == Err::<UnlockResult, AppError>(vault->NotFound_0) && *final(state) == *old(state)),
        admitted(*old(state), vault_id, now_ms) && valid_utf8(password@) && vault is Unreadable ==> (
        r == Err::<UnlockResult, AppError>(vault->Unreadable_0) && failure_recorded(
            *old(state),
            *final(state),
            vault_id,
            now_ms,
        )),
        r is Ok <==> admitted(*old(state), vault_id, now_ms) && valid_utf8(password@)
            && vault is Read && unlocks(vault->Read_0, decode_utf8(password@)),
        admitted(*old(state), vault_id, now_ms) && valid_utf8(password@) && vault is Read
            && !unlocks(vault->Read_0, decode_utf8(password@)) ==> (r matches Err(e)
            && unlock_refusal(vault->Read_0, decode_utf8(password@), e) && failure_recorded(
            *old(state),
            *final(state),
            vault_id,
            now_ms,
        )),
        r matches Ok(u) ==> u.requires_totp == vault->Read_0.totp_enabled,
        r is Ok && vault->Read_0.totp_enabled ==> exists|dek: Seq<u8>|
            #[trigger] vault_opens_with(vault->Read_0, decode_utf8(password@), dek)
                && totp_awaited(*old(state), *final(state), vault_id, dek),
        r is Ok && !vault->Read_0.totp_enabled ==> exists|dek: Seq<u8>|
            #[trigger] vault_opens_with(vault->Read_0, decode_utf8(password@), dek) && logged_in(
                *old(state),
                *final(state),
                vault_id,
                dek,
                now_ms,
            ),
{
    state.check_rate_limit(vault_id, now_ms)?;
    let password = password_from_bytes(password)?;
    let metadata = match vault {
        VaultRead::NotFound(e) => {
            return Err(e);
        },
        VaultRead::Unreadable(e) => {
            state.record_failed_attempt(vault_id, now_ms);
            return Err(e);
        },
        VaultRead::Read(m) => m,
    };
    let dek = match vault::unlock(&metadata, password.as_str()) {
        Ok(k) => k,
        Err(e) => {
            state.record_failed_attempt(vault_id, now_ms);
            return Err(e);
        },
    };
    if metadata.totp_enabled {
        state.begin_totp_unlock(vault_id, dek);
        Ok(UnlockResult { requires_totp: true })
    } else {
        let ghost key = dek.0@;
        let ghost s0 = *state;
        state.record_successful_attempt(vault_id);
        let ghost s1 = *state;
        state.open_session(vault_id, dek, now_ms);
        proof {
            lemma_same_views(s0, s1);
            lemma_same_views(s1, *state);
            assert(state.session(vault_id) matches Some(s) && s.dek.0@ == key && s.last_used_ms == now_ms);
            assert(state.failures(vault_id) == 0);
            assert(state.locked_until(vault_id) == 0);
            assert forall|other: u128|
                other != vault_id implies #[trigger] state.session(other) == s0.session(other)
                    && state.pending_dek(other) == s0.pending_dek(other) && state.failures(other)
                    == s0.failures(other) && state.locked_until(other) == s0.locked_until(other) by {
                assert(s1.session(other) == s0.session(other));
                assert(s1.pending_dek(other) == s0.pending_dek(other));
                assert(state.failures(other) == s1.failures(other));
            }
            assert(logged_in(s0, *state, vault_id, key, now_ms));
        }
        assert(vault_opens_with(metadata, password@, key));
        Ok(UnlockResult { requires_totp: false })
    }
}

/// The TOTP secret stored in `m`, as `dek` decrypts it, if it does.
pub open spec fn stored_secret(m: VaultMetadata, dek: Seq<u8>) -> Option<Seq<char>> {
    match m.totp_secret_encrypted {
        Some(v) => if exists|t: Seq<char>| #[trigger] opens_to(dek, v@, encode_utf8(t)) {
            Some(choose|t: Seq<char>| #[trigger] opens_to(dek, v@, encode_utf8(t)))
        } else {
            None
        },
        None => None,
    }
}

/// The stored TOTP secret, if any, is no larger than what encryption can
/// produce: nonce, at most 2^36 bytes, tag.
pub open spec fn secret_fits(m: VaultMetadata) -> bool {
    match m.totp_secret_encrypted {
        Some(v) => v@.len() <= crate::crypto::NONCE_LEN + crate::crypto::AES_GCM_MAX_PLAINTEXT
            + crate::crypto::TAG_LEN,
        None => true,
    }
}

/// The secret of the vault's TOTP, with the DEK that waits for its code.
pub open spec fn awaited_secret(state: AppState, id: u128, m: VaultMetadata) -> Option<Seq<char>> {
    match state.pending_dek(id) {
        Some(dek) => stored_secret(m, dek),
        None => None,
    }
}

/// A code can be checked against this secret and account at `time`.
pub open spec fn code_checkable(secret: Seq<char>, account: Seq<char>, time: u64) -> bool {
    totp::totp_buildable(secret, account) && totp::STEP_SECONDS <= time <= u64::MAX
        - totp::STEP_SECONDS
}

/// `code` is a valid TOTP code for this secret and account at `time`.
pub open spec fn code_accepted(secret: Seq<char>, account: Seq<char>, code: Seq<char>, time: u64) -> bool {
    &&& code_checkable(secret, account, time)
    &&& totp::totp_code_valid(
        totp::base32_decoded(secret)->Some_0,
        totp::DIGITS,
        totp::SKEW,
        totp::STEP_SECONDS,
        code,
        time,
    )
}

/// Completes the login of a vault whose password was accepted and which
/// waits for its TOTP code. Refused while the vault is locked out. A wrong
/// code counts as a failed attempt and leaves the DEK waiting, so that the
/// user does not have to type the password again; a right one opens the
/// session. `unix_time` is the current time in seconds since the epoch.
pub fn verify_totp(
    state: &mut AppState,
    vault_id: u128,
    code: &str,
    metadata: AppResult<VaultMetadata>,
    now_ms: u64,
    unix_time: u64,
) -> (r: AppResult<()>)
    ensures
        !admitted(*old(state), vault_id, now_ms) ==> (r matches Err(AppError::TooManyAttempts(s))
            && s == secs_left(old(state).locked_until(vault_id), now_ms) && *final(state) == *old(
            state,
        )),
        admitted(*old(state), vault_id, now_ms) && metadata is Err ==> (r == Err::<(), AppError>(
            metadata->Err_0,
        ) && *final(state) == *old(state)),
        admitted(*old(state), vault_id, now_ms) && metadata is Ok && old(state).pending_dek(vault_id)
            is None ==> (r matches Err(AppError::VaultLocked) && *final(state) == *old(state)),
        admitted(*old(state), vault_id, now_ms) && metadata is Ok && old(state).pending_dek(vault_id)
            is Some && metadata->Ok_0.totp_secret_encrypted is None ==> (r matches Err(
            AppError::TotpNotEnabled,
        ) && *final(state) == *old(state)),
        admitted(*old(state), vault_id, now_ms) && metadata is Ok && old(state).pending_dek(vault_id)
            is Some && secret_fits(metadata->Ok_0) && awaited_secret(
            *old(state),
            vault_id,
            metadata->Ok_0,
        ) is None ==> ((r matches Err(AppError::TotpNotEnabled) || r matches Err(
            AppError::WrongPassword,
        ) || r matches Err(AppError::Crypto(_))) && *final(state) == *old(state)),
        admitted(*old(state), vault_id, now_ms) && metadata is Ok && awaited_secret(
            *old(state),
            vault_id,
            metadata->Ok_0,
        ) is Some && !code_checkable(
            awaited_secret(*old(state), vault_id, metadata->Ok_0)->Some_0,
            metadata->Ok_0.name@,
            unix_time,
        ) ==> (r matches Err(AppError::Crypto(_)) && *final(state) == *old(state)),
        admitted(*old(state), vault_id, now_ms) && metadata is Ok && awaited_secret(
            *old(state),
            vault_id,
            metadata->Ok_0,
        ) is Some && code_checkable(
            awaited_secret(*old(state), vault_id, metadata->Ok_0)->Some_0,
            metadata->Ok_0.name@,
            unix_time,
        ) && !code_accepted(
            awaited_secret(*old(state), vault_id, metadata->Ok_0)->Some_0,
            metadata->Ok_0.name@,
            code@,
            unix_time,
        ) ==> (r matches Err(AppError::InvalidTotpCode) && failure_recorded(
            *old(state),
            *final(state),
            vault_id,
            now_ms,
        )),
        admitted(*old(state), vault_id, now_ms) && metadata is Ok && awaited_secret(
            *old(state),
            vault_id,
            metadata->Ok_0,
        ) is Some && code_accepted(
            awaited_secret(*old(state), vault_id, metadata->Ok_0)->Some_0,
            metadata->Ok_0.name@,
            code@,
            unix_time,
        ) ==> r is Ok,
        r is Ok ==> admitted(*old(state), vault_id, now_ms) && metadata is Ok && old(
            state,
        ).pending_dek(vault_id) is Some && (secret_fits(metadata->Ok_0) ==> awaited_secret(
            *old(state),
            vault_id,
            metadata->Ok_0,
        ) is Some && code_accepted(
            awaited_secret(*old(state), vault_id, metadata->Ok_0)->Some_0,
            metadata->Ok_0.name@,
            code@,
            unix_time,
        )),
        r is Ok ==> logged_in(
            *old(state),
            *final(state),
            vault_id,
            old(state).pending_dek(vault_id)->Some_0,
            now_ms,
        ) && final(state).pending_dek(vault_id) is None,
{
    state.check_rate_limit(vault_id, now_ms)?;
    let metadata = metadata?;
    let dek = state.peek_pending_totp_unlock(vault_id)?;
    let secret = vault::decrypt_totp_secret(&metadata, &dek)?;
    proof {
        if secret_fits(metadata) {
            let v = metadata.totp_secret_encrypted->Some_0;
            assert(opens_to(dek.0@, v@, encode_utf8(secret@)));
        }
    }
    if !totp::verify_code_at(secret.as_str(), code, metadata.name.as_str(), unix_time)? {
        state.record_failed_attempt(vault_id, now_ms);
        return Err(AppError::InvalidTotpCode);
    }
    let ghost s0 = *state;
    state.record_successful_attempt(vault_id);
    let ghost s1 = *state;
    let done = state.complete_totp_unlock(vault_id, now_ms);
    proof {
        lemma_same_views(s0, s1);
        lemma_same_views(s1, *state);
        assert forall|other: u128|
            other != vault_id implies #[trigger] state.session(other) == s0.session(other)
                && state.pending_dek(other) == s0.pending_dek(other) && state.failures(other)
                == s0.failures(other) && state.locked_until(other) == s0.locked_until(other) by {
            assert(s1.session(other) == s0.session(other));
            assert(s1.pending_dek(other) == s0.pending_dek(other));
            assert(state.failures(other) == s1.failures(other));
        }
    }
    done
}

/// Completes the login of a vault waiting for its TOTP code with one of
/// its single-use recovery codes instead, for a user who lost the
/// authenticator. Refused while the vault is locked out; a refused code
/// (unknown, already used, or metadata altered outside the app) counts as
/// a failed attempt. On success the code is marked used in the returned
/// metadata, which the caller writes back, and the session opens. Metadata
/// that cannot be read makes the attempt fail, and counts as a failed
/// attempt.
pub fn unlock_with_recovery_code(
    state: &mut AppState,
    vault_id: u128,
    code: &str,
    vault: VaultRead,
    now_ms: u64,
) -> (r: AppResult<VaultMetadata>)
    ensures
        !admitted(*old(state), vault_id, now_ms) ==> (r matches Err(AppError::TooManyAttempts(s))
            && s == secs_left(old(state).locked_until(vault_id), now_ms) && *final(state) == *old(
            state,
        )),
        admitted(*old(state), vault_id, now_ms) && vault is NotFound ==> (r
            == Err::<VaultMetadata, AppError>(vault->NotFound_0) && *final(state) == *old(state)),
        admitted(*old(state), vault_id, now_ms) && !(vault is NotFound) && old(state).pending_dek(
            vault_id,
        ) is None ==> (r matches Err(AppError::VaultLocked) && *final(state) == *old(state)),
        admitted(*old(state), vault_id, now_ms) && vault is Unreadable && old(state).pending_dek(
            vault_id,
        ) is Some ==> (r == Err::<VaultMetadata, AppError>(vault->Unreadable_0) && failure_recorded(
            *old(state),
            *final(state),
            vault_id,
            now_ms,
        )),
        admitted(*old(state), vault_id, now_ms) && vault is Read && old(state).pending_dek(vault_id)
            is Some && !vault::integrity_holds(
            vault->Read_0,
            old(state).pending_dek(vault_id)->Some_0,
        ) ==> (r matches Err(AppError::VaultTampered) && failure_recorded(
            *old(state),
            *final(state),
            vault_id,
            now_ms,
        )),
        admitted(*old(state), vault_id, now_ms) && vault is Read && old(state).pending_dek(vault_id)
            is Some && vault::integrity_holds(
            vault->Read_0,
            old(state).pending_dek(vault_id)->Some_0,
        ) && r is Err ==> (r matches Err(AppError::InvalidRecoveryCode) && failure_recorded(
            *old(state),
            *final(state),
            vault_id,
            now_ms,
        ) && forall|j: int|
            0 <= j < vault->Read_0.recovery_codes@.len() ==> !vault::redeemable(
                #[trigger] vault->Read_0.recovery_codes@[j],
                crate::crypto::recovery_code_hash(code@),
            )),
        r matches Ok(m) ==> admitted(*old(state), vault_id, now_ms) && vault is Read && old(
            state,
        ).pending_dek(vault_id) is Some && vault::integrity_holds(
            vault->Read_0,
            old(state).pending_dek(vault_id)->Some_0,
        ) && (exists|i: int|
            vault::first_redeemable(
                vault->Read_0.recovery_codes@,
                crate::crypto::recovery_code_hash(code@),
                i,
            ) && #[trigger] vault::marked_used(
                vault->Read_0.recovery_codes@,
                m.recovery_codes@,
                i,
            )) && vault::integrity_holds(m, old(state).pending_dek(vault_id)->Some_0)
            && m.totp_enabled == vault->Read_0.totp_enabled && m.totp_secret_encrypted
            == vault->Read_0.totp_secret_encrypted && vault::same_identity(m, vault->Read_0)
            && vault::same_wrapping(m, vault->Read_0),
        r is Ok ==> logged_in(
            *old(state),
            *final(state),
            vault_id,
            old(state).pending_dek(vault_id)->Some_0,
            now_ms,
        ) && final(state).pending_dek(vault_id) is None,
{
    state.check_rate_limit(vault_id, now_ms)?;
    let found = match vault {
        VaultRead::NotFound(e) => {
            return Err(e);
        },
        other => other,
    };
    let dek = state.peek_pending_totp_unlock(vault_id)?;
    let mut metadata = match found {
        VaultRead::Read(m) => m,
        VaultRead::Unreadable(e) => {
            state.record_failed_attempt(vault_id, now_ms);
            return Err(e);
        },
        VaultRead::NotFound(e) => {
            return Err(e);
        },
    };
    match vault::consume_recovery_code(&mut metadata, &dek, code) {
        Ok(()) => {},
        Err(e) => {
            state.record_failed_attempt(vault_id, now_ms);
            return Err(e);
        },
    }
    let ghost s0 = *state;
    state.record_successful_attempt(vault_id);
    let ghost s1 = *state;
    let done = state.complete_totp_unlock(vault_id, now_ms);
    proof {
        lemma_same_views(s0, s1);
        lemma_same_views(s1, *state);
        assert forall|other: u128|
            other != vault_id implies #[trigger] state.session(other) == s0.session(other)
                && state.pending_dek(other) == s0.pending_dek(other) && state.failures(other)
                == s0.failures(other) && state.locked_until(other) == s0.locked_until(other) by {
            assert(s1.session(other) == s0.session(other));
            assert(s1.pending_dek(other) == s0.pending_dek(other));
            assert(state.failures(other) == s1.failures(other));
        }
    }
    match done {
        Ok(()) => Ok(metadata),
        Err(e) => Err(e),
    }
}

/// `after` is `before` with the session of `id`, which was unlocked at
/// `now_ms`, used at `now_ms`; no other session, nor any pending unlock or
/// failure count, changed.
pub open spec fn session_used(before: AppState, after: AppState, id: u128, now_ms: u64) -> bool {
    &&& before.unlocked(id, now_ms)
    &&& after.session(id) matches Some(t) && t.dek.0@ == before.session(id)->Some_0.dek.0@
        && t.last_used_ms == now_ms
    &&& forall|other: u128| other != id ==> #[trigger] after.session(other) == before.session(other)
    &&& after.spec_pending() == before.spec_pending()
    &&& after.spec_attempts() == before.spec_attempts()
    &&& after.spec_auto_lock_secs() == before.spec_auto_lock_secs()
    &&& after.spec_launch_target() == before.spec_launch_target()
}

/// `after` is `before` with the expired or missing session of `id` gone.
pub open spec fn session_refused(before: AppState, after: AppState, id: u128, now_ms: u64) -> bool {
    &&& !before.unlocked(id, now_ms)
    &&& after.session(id) is None
    &&& forall|other: u128| other != id ==> #[trigger] after.session(other) == before.session(other)
    &&& after.spec_pending() == before.spec_pending()
    &&& after.spec_setups() == before.spec_setups()
    &&& after.spec_attempts() == before.spec_attempts()
    &&& after.spec_auto_lock_secs() == before.spec_auto_lock_secs()
    &&& after.spec_launch_target() == before.spec_launch_target()
}

/// A secret as `generate_secret_base32` draws them: 32 base32 characters
/// that decode to 20 bytes.
pub open spec fn generated_secret(s: Seq<char>) -> bool {
    &&& s.len() == 32
    &&& forall|i: int| 0 <= i < 32 ==> totp::is_base32_char(#[trigger] s[i])
    &&& totp::base32_decoded(s) is Some
    &&& totp::base32_decoded(s)->Some_0.len() == 20
}

/// The QR code of the TOTP with this secret, for this account, can be drawn.
pub open spec fn qr_drawable(secret: Seq<char>, account: Seq<char>) -> bool {
    &&& totp::totp_buildable(secret, account)
    &&& totp::totp_qr_png_base64(
        totp::base32_decoded(secret)->Some_0,
        totp::DIGITS,
        totp::STEP_SECONDS,
        totp::ISSUER@,
        account,
    ) is Some
}

/// Starts setting up 2FA on an unlocked vault: draws a new secret, keeps it
/// until the user confirms a first code, and returns it with its QR code.
pub fn setup_totp(
    state: &mut AppState,
    vault_id: u128,
    metadata: AppResult<VaultMetadata>,
    now_ms: u64,
) -> (r: AppResult<TotpSetup>)
    ensures
        metadata is Err ==> (r == Err::<TotpSetup, AppError>(metadata->Err_0) && *final(state)
            == *old(state)),
        metadata is Ok && !old(state).unlocked(vault_id, now_ms) ==> (r matches Err(
            AppError::VaultLocked,
        ) && session_refused(*old(state), *final(state), vault_id, now_ms)),
        metadata is Ok && old(state).unlocked(vault_id, now_ms) ==> session_used(
            *old(state),
            *final(state),
            vault_id,
            now_ms,
        ),
        metadata is Ok && old(state).unlocked(vault_id, now_ms) && r is Err ==> (r matches Err(
            AppError::Crypto(_),
        ) && final(state).spec_setups() == old(state).spec_setups() && exists|s: Seq<char>|
            #[trigger] generated_secret(s) && !qr_drawable(s, metadata->Ok_0.name@)),
        r matches Ok(t) ==> metadata is Ok && old(state).unlocked(vault_id, now_ms)
            && generated_secret(t.secret_base32@) && qr_drawable(
            t.secret_base32@,
            metadata->Ok_0.name@,
        ) && t.qr_code_data_url@ == "data:image/png;base64,"@ + totp::totp_qr_png_base64(
            totp::base32_decoded(t.secret_base32@)->Some_0,
            totp::DIGITS,
            totp::STEP_SECONDS,
            totp::ISSUER@,
            metadata->Ok_0.name@,
        )->Some_0 && final(state).setup_secret(vault_id) == Some(t.secret_base32@) && forall|other: u128|
            other != vault_id ==> #[trigger] final(state).setup_secret(other) == old(
                state,
            ).setup_secret(other),
{
    let metadata = metadata?;
    let ghost start = *state;
    state.get_active_dek(vault_id, now_ms)?;
    proof {
        lemma_same_views(start, *state);
    }
    let secret_base32 = totp::generate_secret_base32();
    assert(generated_secret(secret_base32@));
    let qr_code_data_url = totp::qr_code_data_url(secret_base32.as_str(), metadata.name.as_str())?;
    let ghost s0 = *state;
    state.start_totp_setup(vault_id, secret_base32.clone());
    proof {
        lemma_same_views(s0, *state);
    }
    Ok(TotpSetup { secret_base32, qr_code_data_url })
}

/// Finishes setting up 2FA: the first code from the authenticator must
/// match the secret being set up. A wrong code keeps that secret for
/// another try. On success 2FA is on in the returned metadata, which the
/// caller writes back, and the new recovery codes are returned, to be shown
/// exactly once.
pub fn confirm_totp(
    state: &mut AppState,
    vault_id: u128,
    code: &str,
    metadata: AppResult<VaultMetadata>,
    now_ms: u64,
    unix_time: u64,
) -> (r: AppResult<(ConfirmTotpResult, VaultMetadata)>)
    ensures
        metadata is Err ==> (r == Err::<(ConfirmTotpResult, VaultMetadata), AppError>(
            metadata->Err_0,
        ) && *final(state) == *old(state)),
        metadata is Ok && !old(state).unlocked(vault_id, now_ms) ==> (r matches Err(
            AppError::VaultLocked,
        ) && session_refused(*old(state), *final(state), vault_id, now_ms)),
        metadata is Ok && old(state).unlocked(vault_id, now_ms) ==> session_used(
            *old(state),
            *final(state),
            vault_id,
            now_ms,
        ) && forall|other: u128|
            other != vault_id ==> #[trigger] final(state).setup_secret(other) == old(
                state,
            ).setup_secret(other),
        metadata is Ok && old(state).unlocked(vault_id, now_ms) && old(state).setup_secret(vault_id)
            is None ==> (r matches Err(AppError::Crypto(_)) && final(state).setup_secret(vault_id)
            is None),
        metadata is Ok && old(state).unlocked(vault_id, now_ms) && old(state).setup_secret(vault_id)
            is Some && !code_checkable(
            old(state).setup_secret(vault_id)->Some_0,
            metadata->Ok_0.name@,
            unix_time,
        ) ==> (r matches Err(AppError::Crypto(_)) && final(state).setup_secret(vault_id) is None),
        metadata is Ok && old(state).unlocked(vault_id, now_ms) && old(state).setup_secret(vault_id)
            is Some && code_checkable(
            old(state).setup_secret(vault_id)->Some_0,
            metadata->Ok_0.name@,
            unix_time,
        ) && !code_accepted(
            old(state).setup_secret(vault_id)->Some_0,
            metadata->Ok_0.name@,
            code@,
            unix_time,
        ) ==> (r matches Err(AppError::InvalidTotpCode) && final(state).setup_secret(vault_id)
            == old(state).setup_secret(vault_id)),
        r is Ok <==> metadata is Ok && old(state).unlocked(vault_id, now_ms) && old(
            state,
        ).setup_secret(vault_id) is Some && code_accepted(
            old(state).setup_secret(vault_id)->Some_0,
            metadata->Ok_0.name@,
            code@,
            unix_time,
        ) && encode_utf8(old(state).setup_secret(vault_id)->Some_0).len()
            <= crate::crypto::AES_GCM_MAX_PLAINTEXT,
        r matches Ok((res, m)) ==> vault::fresh_codes(res.recovery_codes@) && vault::stores_codes(
            m.recovery_codes@,
            res.recovery_codes@,
        ) && m.totp_enabled && (m.totp_secret_encrypted matches Some(v)
            && crate::crypto::sealed_under(
            old(state).session(vault_id)->Some_0.dek.0@,
            v@,
            encode_utf8(old(state).setup_secret(vault_id)->Some_0),
        )) && vault::integrity_holds(m, old(state).session(vault_id)->Some_0.dek.0@)
            && vault::same_identity(m, metadata->Ok_0) && vault::same_wrapping(m, metadata->Ok_0)
            && final(state).setup_secret(vault_id) is None,
{
    let mut metadata = metadata?;
    let ghost start = *state;
    let dek = state.get_active_dek(vault_id, now_ms)?;
    let ghost s0 = *state;
    proof {
        lemma_same_views(start, s0);
    }
    let taken = state.take_totp_setup(vault_id);
    proof {
        lemma_same_views(s0, *state);
    }
    let secret = taken?;
    if !totp::verify_code_at(secret.as_str(), code, metadata.name.as_str(), unix_time)? {
        state.start_totp_setup(vault_id, secret);
        proof {
            lemma_same_views(s0, *state);
        }
        return Err(AppError::InvalidTotpCode);
    }
    proof {
        lemma_same_views(s0, *state);
    }
    let recovery_codes = vault::enable_totp(&mut metadata, &dek, secret.as_str())?;
    Ok((ConfirmTotpResult { recovery_codes }, metadata))
}

} // verus!
