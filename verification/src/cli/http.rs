use vstd::prelude::*;

verus! {

/// The HTTP utility subcommands.
pub enum HttpSubCommand {
    Serve(HttpServeOpts),
}

/// Options of the static file server: the directory to serve and the
/// port to listen on.
pub struct HttpServeOpts {
    pub path: String,
    pub port: u16,
}

} // verus!
