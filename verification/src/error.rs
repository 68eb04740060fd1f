//! The library's error type and the message shown for each error.

use vstd::prelude::*;
use crate::text::{decimal_chars, push_decimal_chars};

verus! {

broadcast use vstd::string::group_string_axioms;

/// Every way an operation on a vault can fail. The variants that wrap an
/// I/O, (de)serialization or archive failure carry that failure's message.
#[derive(Debug, Clone)]
pub enum AppError {
    VaultNotFound,
    VaultAlreadyExists,
    VaultLocked,
    WrongPassword,
    InvalidTotpCode,
    InvalidRecoveryCode,
    TotpNotEnabled,
    VaultTampered,
    /// Unlocking is refused for this many more seconds.
    TooManyAttempts(u64),
    FileNotFound,
    Io(String),
    Serialization(String),
    Zip(String),
    Crypto(String),
}

pub type AppResult<T> = Result<T, AppError>;

/// The text shown to the user for an error (French, as in the interface).
pub open spec fn error_message(e: AppError) -> Seq<char> {
    match e {
        AppError::VaultNotFound => "Vault introuvable"@,
        AppError::VaultAlreadyExists => "Un coffre avec ce nom existe deja"@,
        AppError::VaultLocked => "Le coffre est verrouille"@,
        AppError::WrongPassword => "Mot de passe incorrect"@,
        AppError::InvalidTotpCode => "Code 2FA invalide"@,
        AppError::InvalidRecoveryCode => "Code de recuperation invalide ou deja utilise"@,
        AppError::TotpNotEnabled => "Le 2FA n'est pas active pour ce coffre"@,
        AppError::VaultTampered =>
            "Ce coffre semble avoir ete modifie en dehors de l'application. Ouverture refusee par securite."@,
        AppError::TooManyAttempts(secs) => "Trop de tentatives echouees. Reessayez dans "@
            + decimal_chars(secs as nat) + " secondes."@,
        AppError::FileNotFound => "Fichier introuvable dans le coffre"@,
        AppError::Io(m) => "Erreur d'entree/sortie: "@ + m@,
        AppError::Serialization(m) => "Erreur de (de)serialisation: "@ + m@,
        AppError::Zip(m) => "Erreur d'archive de sauvegarde: "@ + m@,
        AppError::Crypto(m) => "Erreur cryptographique: "@ + m@,
    }
}

impl AppError {
    /// The message shown to the user for this error.
    pub fn message(&self) -> (r: String)
        ensures
            r@ == error_message(*self),
    {
        match self {
            AppError::VaultNotFound => "Vault introuvable".to_string(),
            AppError::VaultAlreadyExists => "Un coffre avec ce nom existe deja".to_string(),
            AppError::VaultLocked => "Le coffre est verrouille".to_string(),
            AppError::WrongPassword => "Mot de passe incorrect".to_string(),
            AppError::InvalidTotpCode => "Code 2FA invalide".to_string(),
            AppError::InvalidRecoveryCode => "Code de recuperation invalide ou deja utilise".to_string(),
            AppError::TotpNotEnabled => "Le 2FA n'est pas active pour ce coffre".to_string(),
            AppError::VaultTampered =>
                "Ce coffre semble avoir ete modifie en dehors de l'application. Ouverture refusee par securite.".to_string(),
            AppError::TooManyAttempts(secs) => {
                let mut s = "Trop de tentatives echouees. Reessayez dans ".to_string();
                push_decimal_chars(&mut s, *secs);
                s.append(" secondes.");
                s
            },
            AppError::FileNotFound => "Fichier introuvable dans le coffre".to_string(),
            AppError::Io(m) => {
                let mut s = "Erreur d'entree/sortie: ".to_string();
                s.append(m.as_str());
                s
            },
            AppError::Serialization(m) => {
                let mut s = "Erreur de (de)serialisation: ".to_string();
                s.append(m.as_str());
                s
            },
            AppError::Zip(m) => {
                let mut s = "Erreur d'archive de sauvegarde: ".to_string();
                s.append(m.as_str());
                s
            },
            AppError::Crypto(m) => {
                let mut s = "Erreur cryptographique: ".to_string();
                s.append(m.as_str());
                s
            },
        }
    }
}

} // verus!
