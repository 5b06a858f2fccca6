use vstd::prelude::*;

verus! {

/// The JSON web token subcommands.
pub enum JsonWebTokenSubCommand {
    Sign(JsonWebTokenSignOpts),
    Verify(JsonWebTokenVerifyOpts),
}

/// Claims of a token to issue: subject, audience, and a relative
/// expiry such as `14d`, `2h`, `30m` or `45s`.
pub struct JsonWebTokenSignOpts {
    pub sub: String,
    pub aud: String,
    pub exp: String,
}

pub struct JsonWebTokenVerifyOpts {
    pub token: String,
}

} // verus!
