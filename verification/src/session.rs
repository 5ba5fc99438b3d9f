//! Session data and the credential check. The server keeps a `LoginData`
//! per session and a shared `OriginDomain` for response headers; the binary
//! owns the middleware, this module owns the values and the decisions.

use vstd::prelude::*;

use vstd::string::StringSliceAdditionalSpecFns;

verus! {

/// What a session stores about its user.
pub struct LoginData {
    pub user_id: String,
    pub connected: bool,
    pub last_interaction: String,
}

/// The configured origin domain, echoed in response headers.
pub struct OriginDomain {
    pub origin_domain: String,
}

impl OriginDomain {
    /// Creates a new origin domain to allow cross domain sharing.
    pub fn new(origin: String) -> (r: Self)
        ensures
            r.origin_domain@ == origin@,
    {
        Self { origin_domain: origin }
    }
}

/// The bytes of the one accepted user name.
pub open spec fn expected_user() -> Seq<u8> {
    seq![83u8, 112u8, 111u8, 99u8, 107u8]
}

/// The bytes of the one accepted password.
pub open spec fn expected_password() -> Seq<u8> {
    seq![101u8, 110u8, 105u8, 103u8, 109u8, 97u8, 52u8, 50u8]
}

/// Check if credentials are valid: true exactly for the one default login
/// pair this stub accepts.
pub fn is_credential_valid(username: &str, password: &str) -> (r: bool)
    ensures
        r == (username.spec_bytes() == expected_user() && password.spec_bytes()
            == expected_password()),
{
    let user = vec![83u8, 112u8, 111u8, 99u8, 107u8];
    let pass = vec![101u8, 110u8, 105u8, 103u8, 109u8, 97u8, 52u8, 50u8];
    proof {
        assert(user@ =~= expected_user());
        assert(pass@ =~= expected_password());
    }
    let u_ok = crate::text::bytes_eq(username.as_bytes(), user.as_slice());
    let p_ok = crate::text::bytes_eq(password.as_bytes(), pass.as_slice());
    u_ok && p_ok
}

/// Whether a session's data says its user is connected: an absent record
/// means not connected.
pub fn login_connected(login: &Option<LoginData>) -> (r: bool)
    ensures
        r == match login {
            Some(d) => d.connected,
            None => false,
        },
{
    match login {
        Some(d) => d.connected,
        None => false,
    }
}

} // verus!
