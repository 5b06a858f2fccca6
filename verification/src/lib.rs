pub mod ascii;
pub mod cli;
pub mod error;
pub mod matrix;
pub mod process;

pub use cli::{
    Base64Format, Base64SubCommand, HttpSubCommand, Opts, Outputformat, SubCommand,
    TextSignFormat, TextSubCommand,
};
pub use error::Error;
pub use matrix::{multiply, Matrix};
pub use process::{
    process_decode, process_encode, process_genpass, Blake3, Ed25519Signer, Ed25519Verifier,
    KeyGenerator, KeyLoader, TextSign, TextVerify,
};
pub use process::text::{
    encrypt_with_nonce, process_decrypt, process_encrypt, process_generate, process_text_sign,
    process_text_verify,
};
