//! Contains application common types.

use data_encoding::{DecodeError, HEXLOWER_PERMISSIVE};
use vstd::prelude::*;
use vstd::string::StringSliceAdditionalSpecFns;
use vstd::utf8::encode_utf8;

verus! {

/// Captured environment variables.
#[derive(Debug, Clone, PartialEq, Eq)]
pub struct Environments {
    pub secret_key: String,
    pub listen_at: String,
    pub hosted_at: String,
    pub database_uri: String,
    pub redis_uri: String,
    pub public_dir: String,
    pub media_dir: String,
    pub account_name: String,
    pub account_password: String,
    pub api_token: String,
}

/// Minimal, single-user, and fast image upload service
#[derive(Debug)]
pub struct Arguments {
    /// Executing subcommand (default to `serve`)
    pub subcommand: Option<SubCommand>,
}

/// What the program is asked to do.
#[derive(Debug, Clone, Copy, PartialEq, Eq, Structural)]
pub enum SubCommand {
    /// Starts the server
    Serve,
    /// Generates password hash
    GeneratePassword,
}

impl Arguments {
    /// The subcommand to execute: the one that was given, `Serve` where none
    /// was.
    pub fn command(&self) -> (command: SubCommand)
        ensures
            command == match self.subcommand {
                Some(given) => given,
                None => SubCommand::Serve,
            },
    {
        match self.subcommand {
            Some(given) => given,
            None => SubCommand::Serve,
        }
    }
}


/// Length of the secret key in bytes.
pub const SECRET_KEY_LENGTH: usize = 32;

/// The bytes that data-encoding reads from hexadecimal text given as bytes,
/// digits of either case; `None` where the text is not hexadecimal.
pub uninterp spec fn hex_bytes(text: Seq<u8>) -> Option<Seq<u8>>;

/// `HEXLOWER_PERMISSIVE.decode` of data-encoding: the bytes that the
/// hexadecimal text stands for, or the error that the text is met with.
#[verifier::external_body]
fn decode_hex(text: &[u8]) -> (bytes: Result<Vec<u8>, DecodeError>)
    requires
        text@.len() <= usize::MAX / 8,
    ensures
        match bytes {
            Ok(bytes) => hex_bytes(text@) == Some(bytes@),
            Err(_) => hex_bytes(text@).is_none(),
        },
{
    HEXLOWER_PERMISSIVE.decode(text)
}

/// Why the secret key cannot be used.
#[derive(Debug, Clone, Copy, PartialEq, Eq, Structural)]
pub enum KeyError {
    /// The key is not hexadecimal text.
    Encoding,
    /// The key is not of `SECRET_KEY_LENGTH` bytes.
    Length,
}

/// The secret key that hexadecimal text stands for.
pub open spec fn secret_key_of(text: Seq<u8>) -> Result<Seq<u8>, KeyError> {
    if text.len() > usize::MAX / 8 {
        Err(KeyError::Encoding)
    } else {
        match hex_bytes(text) {
            Some(bytes) => if bytes.len() == SECRET_KEY_LENGTH {
                Ok(bytes)
            } else {
                Err(KeyError::Length)
            },
            None => Err(KeyError::Encoding),
        }
    }
}

/// Makes the secret key of what the decoder read of its text.
pub fn accept_key(decoded: Option<Vec<u8>>) -> (key: Result<Vec<u8>, KeyError>)
    ensures
        match decoded {
            Some(bytes) => if bytes@.len() == SECRET_KEY_LENGTH {
                key == Ok::<Vec<u8>, KeyError>(bytes)
            } else {
                key == Err::<Vec<u8>, KeyError>(KeyError::Length)
            },
            None => key == Err::<Vec<u8>, KeyError>(KeyError::Encoding),
        },
{
    match decoded {
        Some(bytes) => if bytes.len() == SECRET_KEY_LENGTH {
            Ok(bytes)
        } else {
            Err(KeyError::Length)
        },
        None => Err(KeyError::Encoding),
    }
}

impl Environments {
    /// The secret key as bytes: what its hexadecimal text stands for,
    /// provided that this is a key of `SECRET_KEY_LENGTH` bytes.
    pub fn secret_key_bytes(&self) -> (key: Result<Vec<u8>, KeyError>)
        ensures
            match key {
                Ok(bytes) => secret_key_of(encode_utf8(self.secret_key@)) == Ok::<
                    Seq<u8>,
                    KeyError,
                >(bytes@),
                Err(error) => secret_key_of(encode_utf8(self.secret_key@)) == Err::<
                    Seq<u8>,
                    KeyError,
                >(error),
            },
    {
        let text = self.secret_key.as_str().as_bytes();
        if text.len() > usize::MAX / 8 {
            return Err(KeyError::Encoding);
        }
        let decoded = match decode_hex(text) {
            Ok(bytes) => Some(bytes),
            Err(_) => None,
        };
        accept_key(decoded)
    }
}

} // verus!
