//! Time-based one-time passwords (RFC 6238) for a vault's second factor.

use vstd::prelude::*;

use crate::error::{AppError, AppResult};

verus! {

broadcast use vstd::string::group_string_axioms;

pub const ISSUER: &'static str = "SecureFolders";

pub const DIGITS: usize = 6;

pub const STEP_SECONDS: u64 = 30;

/// Allowed clock skew, in steps of `STEP_SECONDS`, to tolerate minor drift
/// between the device and the authenticator app.
pub const SKEW: u8 = 1;

/// Hash function of a TOTP.
#[derive(Debug, Clone, Copy)]
pub enum TotpAlgorithm {
    Sha1,
}

/// The parameters of a vault's TOTP, validated.
#[derive(Debug)]
pub struct TotpConfig {
    pub algorithm: TotpAlgorithm,
    pub digits: usize,
    pub skew: u8,
    pub step: u64,
    /// The raw (decoded) secret.
    pub secret: Vec<u8>,
    pub issuer: String,
    pub account_name: String,
}

/// The bytes that unpadded RFC 4648 base32 text decodes to, if it decodes.
pub uninterp spec fn base32_decoded(text: Seq<char>) -> Option<Seq<u8>>;

/// The base64 PNG of the QR code for the `otpauth://` URL of a TOTP, or
/// `None` where that URL cannot be drawn as a QR code.
pub uninterp spec fn totp_qr_png_base64(
    secret: Seq<u8>,
    digits: usize,
    step: u64,
    issuer: Seq<char>,
    account_name: Seq<char>,
) -> Option<Seq<char>>;

/// Whether `code` is a valid TOTP code at `time` (seconds since the epoch),
/// within `skew` steps on either side.
pub uninterp spec fn totp_code_valid(
    secret: Seq<u8>,
    digits: usize,
    skew: u8,
    step: u64,
    code: Seq<char>,
    time: u64,
) -> bool;

#[verifier::external_type_specification]
#[verifier::external_body]
pub struct ExTotpUrlError(totp_rs::TotpUrlError);


/// Upper-case RFC 4648 base32 alphabet.
pub open spec fn is_base32_char(c: char) -> bool {
    ('A' <= c <= 'Z') || ('2' <= c <= '7')
}

/// `Secret::generate_secret().to_encoded()`: 20 random bytes (160 bits),
/// base32-encoded without padding, hence 32 alphabet characters that decode
/// back to 20 bytes.
#[verifier::external_body]
fn generate_encoded_secret() -> (r: String)
    ensures
        r@.len() == 32,
        forall|i: int| 0 <= i < 32 ==> is_base32_char(#[trigger] r@[i]),
        base32_decoded(r@) is Some && base32_decoded(r@)->Some_0.len() == 20,
{
    totp_rs::Secret::generate_secret().to_encoded().to_string()
}

/// `Secret::Encoded(text).to_bytes()`: unpadded RFC 4648 base32 decoding.
/// A refusal is reported by the error's debug text.
#[verifier::external_body]
fn decode_secret(text: &str) -> (r: Result<Vec<u8>, String>)
    ensures
        r is Ok <==> base32_decoded(text@) is Some,
        r is Ok ==> r->Ok_0@ == base32_decoded(text@)->Some_0,
{
    match totp_rs::Secret::Encoded(text.to_string()).to_bytes() {
        Ok(bytes) => Ok(bytes),
        Err(e) => Err(format!("{:?}", e)),
    }
}

/// `TOTP::new` (with issuer and account name), keeping only whether it
/// accepts its arguments: 6 to 8 digits, a secret of at least 128 bits,
/// no `:` in the issuer nor in the account name.
#[verifier::external_body]
fn totp_new_accepts(
    algorithm: TotpAlgorithm,
    digits: usize,
    skew: u8,
    step: u64,
    secret: &[u8],
    issuer: &str,
    account_name: &str,
) -> (r: Result<(), totp_rs::TotpUrlError>)
    ensures
        r is Ok <==> totp_params_valid(digits, secret@, issuer@, account_name@),
{
    totp_rs::TOTP::new(
        match algorithm {
            TotpAlgorithm::Sha1 => totp_rs::Algorithm::SHA1,
        },
        digits,
        skew,
        step,
        secret.to_vec(),
        Some(issuer.to_string()),
        account_name.to_string(),
    ).map(|_| ())
}

/// `TOTP::get_qr_base64`: the QR code of the TOTP's `otpauth://` URL as a
/// base64 PNG. The URL is made of the secret, the digits, the step, the
/// issuer and the account name (the algorithm is always SHA-1), and the
/// drawing depends on the URL alone: it fails when the URL is too long for
/// a QR code or the PNG cannot be encoded. Which URLs those are is not
/// stated here; the name says whether and what it draws.
#[verifier::external_body]
fn totp_qr_base64(config: &TotpConfig) -> (r: Result<String, String>)
    ensures
        r is Ok <==> totp_qr_png_base64(
            config.secret@,
            config.digits,
            config.step,
            config.issuer@,
            config.account_name@,
        ) is Some,
        r is Ok ==> Some(r->Ok_0@) == totp_qr_png_base64(
            config.secret@,
            config.digits,
            config.step,
            config.issuer@,
            config.account_name@,
        ),
{
    totp_rs::TOTP::new_unchecked(
        match config.algorithm {
            TotpAlgorithm::Sha1 => totp_rs::Algorithm::SHA1,
        },
        config.digits,
        config.skew,
        config.step,
        config.secret.clone(),
        Some(config.issuer.clone()),
        config.account_name.clone(),
    ).get_qr_base64()
}

/// `TOTP::check`: whether `code` matches the code of one of the steps from
/// `skew` steps before `time` to `skew` steps after. The step arithmetic
/// is done in `u64`, hence the bounds on `time`; a code is reduced modulo
/// `10^digits` in `u32`, hence at most nine digits.
#[verifier::external_body]
fn totp_check(config: &TotpConfig, code: &str, time: u64) -> (r: bool)
    requires
        config.digits <= 9,
        config.step > 0,
        time / config.step >= config.skew,
        (time / config.step + config.skew) * config.step <= u64::MAX,
    ensures
        r == totp_code_valid(
            config.secret@,
            config.digits,
            config.skew,
            config.step,
            code@,
            time,
        ),
{
    totp_rs::TOTP::new_unchecked(
        match config.algorithm {
            TotpAlgorithm::Sha1 => totp_rs::Algorithm::SHA1,
        },
        config.digits,
        config.skew,
        config.step,
        config.secret.clone(),
        Some(config.issuer.clone()),
        config.account_name.clone(),
    ).check(code, time)
}

#[verifier::external_type_specification]
#[verifier::external_body]
pub struct ExSystemTime(std::time::SystemTime);

/// `SystemTime::now`: the system clock. Nothing is claimed about it.
#[verifier::external_body]
fn system_time_now() -> std::time::SystemTime {
    std::time::SystemTime::now()
}

/// `SystemTime::duration_since(UNIX_EPOCH)`, in whole seconds; when the
/// time is before the epoch, the error's message. Nothing else is claimed.
#[verifier::external_body]
fn seconds_since_epoch(t: std::time::SystemTime) -> Result<u64, String> {
    match t.duration_since(std::time::UNIX_EPOCH) {
        Ok(d) => Ok(d.as_secs()),
        Err(e) => Err(e.to_string()),
    }
}

/// When `TOTP::new` accepts its parameters.
pub open spec fn totp_params_valid(
    digits: usize,
    secret: Seq<u8>,
    issuer: Seq<char>,
    account_name: Seq<char>,
) -> bool {
    &&& 6 <= digits <= 8
    &&& secret.len() >= 16
    &&& !issuer.contains(':')
    &&& !account_name.contains(':')
}

/// The secret and account of a vault's TOTP are accepted.
pub open spec fn totp_buildable(secret_base32: Seq<char>, account_name: Seq<char>) -> bool {
    &&& base32_decoded(secret_base32) is Some
    &&& totp_params_valid(DIGITS, base32_decoded(secret_base32)->Some_0, ISSUER@, account_name)
}

/// Generates a new random TOTP secret, base32-encoded so it can be shown
/// to the user or embedded in an `otpauth://` URI.
pub fn generate_secret_base32() -> (r: String)
    ensures
        r@.len() == 32,
        forall|i: int| 0 <= i < 32 ==> is_base32_char(#[trigger] r@[i]),
        base32_decoded(r@) is Some && base32_decoded(r@)->Some_0.len() == 20,
{
    generate_encoded_secret()
}

/// The vault's TOTP: SHA-1, 6 digits, 30-second steps, one step of skew,
/// issued by SecureFolders to the vault's name.
pub fn build_totp(secret_base32: &str, account_name: &str) -> (r: AppResult<TotpConfig>)
    ensures
        r is Ok <==> totp_buildable(secret_base32@, account_name@),
        r matches Err(e) ==> e is Crypto,
        r matches Ok(c) ==> c.digits == DIGITS && c.skew == SKEW && c.step == STEP_SECONDS
            && c.secret@ == base32_decoded(secret_base32@)->Some_0 && c.issuer@ == ISSUER@
            && c.account_name@ == account_name@,
{
    let secret = match decode_secret(secret_base32) {
        Ok(b) => b,
        Err(e) => {
            let mut m = "secret TOTP invalide: ".to_string();
            m.append(e.as_str());
            return Err(AppError::Crypto(m));
        },
    };
    match totp_new_accepts(
        TotpAlgorithm::Sha1,
        DIGITS,
        SKEW,
        STEP_SECONDS,
        secret.as_slice(),
        ISSUER,
        account_name,
    ) {
        Ok(()) => Ok(
            TotpConfig {
                algorithm: TotpAlgorithm::Sha1,
                digits: DIGITS,
                skew: SKEW,
                step: STEP_SECONDS,
                secret,
                issuer: ISSUER.to_string(),
                account_name: account_name.to_string(),
            },
        ),
        Err(e) => Err(AppError::Crypto(e.to_string())),
    }
}

/// Builds a `data:image/png;base64,...` QR code for the given vault's TOTP
/// secret, to be scanned by an authenticator app.
pub fn qr_code_data_url(secret_base32: &str, vault_name: &str) -> (r: AppResult<String>)
    ensures
        r is Ok <==> totp_buildable(secret_base32@, vault_name@) && totp_qr_png_base64(
            base32_decoded(secret_base32@)->Some_0,
            DIGITS,
            STEP_SECONDS,
            ISSUER@,
            vault_name@,
        ) is Some,
        r matches Ok(url) ==> url@ == "data:image/png;base64,"@ + totp_qr_png_base64(
            base32_decoded(secret_base32@)->Some_0,
            DIGITS,
            STEP_SECONDS,
            ISSUER@,
            vault_name@,
        )->Some_0,
        r matches Err(e) ==> e is Crypto,
{
    let totp = build_totp(secret_base32, vault_name)?;
    match totp_qr_base64(&totp) {
        Ok(png) => {
            let mut url = "data:image/png;base64,".to_string();
            url.append(png.as_str());
            Ok(url)
        },
        Err(e) => Err(AppError::Crypto(e)),
    }
}

/// Checks a code against the vault's TOTP at a given time (seconds since
/// the epoch). Times within 30 seconds of either end of the `u64` range
/// are refused: the step arithmetic would leave the range.
pub fn verify_code_at(secret_base32: &str, code: &str, vault_name: &str, time: u64) -> (r:
    AppResult<bool>)
    ensures
        r is Ok <==> totp_buildable(secret_base32@, vault_name@) && STEP_SECONDS <= time <= u64::MAX
            - STEP_SECONDS,
        r matches Err(e) ==> e is Crypto,
        r matches Ok(b) ==> b == totp_code_valid(
            base32_decoded(secret_base32@)->Some_0,
            DIGITS,
            SKEW,
            STEP_SECONDS,
            code@,
            time,
        ),
{
    let totp = build_totp(secret_base32, vault_name)?;
    if time < STEP_SECONDS || time > u64::MAX - STEP_SECONDS {
        return Err(AppError::Crypto("horloge systeme invalide".to_string()));
    }
    assert((time / 30 + 1) * 30 <= time + 30) by (nonlinear_arith)
        requires
            time >= 30,
    ;
    Ok(totp_check(&totp, code, time))
}

/// Verifies a 6-digit code entered by the user against the current time
/// window (with one step of tolerance for clock skew).
pub fn verify_code(secret_base32: &str, code: &str, vault_name: &str) -> (r: AppResult<bool>)
    ensures
        !totp_buildable(secret_base32@, vault_name@) ==> r matches Err(AppError::Crypto(_)),
        r matches Err(e) ==> e is Crypto,
        r matches Ok(b) ==> totp_buildable(secret_base32@, vault_name@) && exists|time: u64|
            b == totp_code_valid(
                base32_decoded(secret_base32@)->Some_0,
                DIGITS,
                SKEW,
                STEP_SECONDS,
                code@,
                time,
            ),
{
    let _ = build_totp(secret_base32, vault_name)?;
    match seconds_since_epoch(system_time_now()) {
        Ok(t) => verify_code_at(secret_base32, code, vault_name, t),
        Err(m) => Err(AppError::Crypto(m)),
    }
}

} // verus!
