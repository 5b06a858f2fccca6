use vstd::prelude::*;

pub mod base64;
pub mod csv;
pub mod genpass;
pub mod http;
pub mod jwt;
pub mod text;

pub use base64::{Base64DecodeOpts, Base64EncodeOpts, Base64Format, Base64SubCommand};
pub use csv::{CsvOpts, Outputformat};
pub use genpass::GenpassOpts;
pub use http::{HttpServeOpts, HttpSubCommand};
pub use jwt::{JsonWebTokenSignOpts, JsonWebTokenSubCommand, JsonWebTokenVerifyOpts};
pub use text::{
    TextDecryptOpts, TextEncryptOpts, TextKeyGenerateOpts, TextSignFormat, TextSignOpts,
    TextSubCommand, TextVerifyOpts,
};

verus! {

/// The parsed command line: one subcommand per invocation.
pub struct Opts {
    pub cmd: SubCommand,
}

/// The closed set of subcommands the tool offers.
pub enum SubCommand {
    Csv(CsvOpts),
    Genpass(GenpassOpts),
    Base64(Base64SubCommand),
    Text(TextSubCommand),
    Http(HttpSubCommand),
}

/// Accepts `-` (standard input) unconditionally; any other name must
/// exist on disk. The existence check depends on the environment, so
/// only the success value and the error text are pinned down.
pub fn verify_file(filename: &str) -> (r: Result<String, &'static str>)
    ensures
        filename@ == "-"@ ==> r is Ok,
        r matches Ok(s) ==> s@ == filename@,
        r matches Err(e) ==> e@ == "File does not exist!"@ && filename@ != "-"@,
{
    let name = filename.to_owned();
    if name == String::from_str("-") || path_exists(filename) {
        Ok(name)
    } else {
        Err("File does not exist!")
    }
}

/// Accepts a path only when it names an existing directory. As with
/// `verify_file`, the outcome depends on the filesystem, so the
/// contract pins the success value and the error text.
pub fn verify_path(path: &str) -> (r: Result<String, &'static str>)
    ensures
        r matches Ok(s) ==> s@ == path@,
        r matches Err(e) ==> e@ == "Path does not exist or is not a directory!"@,
{
    if path_exists(path) && path_is_dir(path) {
        Ok(path.to_owned())
    } else {
        Err("Path does not exist or is not a directory!")
    }
}

/// Relies on std::path::Path::exists; the answer depends on the state
/// of the filesystem, so nothing is promised of it.
#[verifier::external_body]
fn path_exists(name: &str) -> bool {
    std::path::Path::new(name).exists()
}

/// Relies on std::path::Path::is_dir; the answer depends on the state
/// of the filesystem, so nothing is promised of it.
#[verifier::external_body]
fn path_is_dir(name: &str) -> bool {
    std::path::Path::new(name).is_dir()
}

} // verus!
