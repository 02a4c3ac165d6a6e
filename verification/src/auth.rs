//! Admin session claims as plain data. Signing them into a cookie and
//! verifying the signature happen outside the library; the expiry rule
//! lives here.

use vstd::prelude::*;

verus! {

/// The claims of an admin session token.
#[derive(Debug)]
pub struct AdminClaims {
    pub admin_id: String,
    pub username: String,
    pub exp: i64,
    pub iat: i64,
}

impl AdminClaims {
    /// Claims issued now and expiring after the given duration.
    pub fn new(admin_id: String, username: String, now: i64, session_duration_secs: i64) -> (r:
        AdminClaims)
        requires
            0 <= now,
            0 <= session_duration_secs,
            now + session_duration_secs <= i64::MAX,
        ensures
            r.admin_id == admin_id,
            r.username == username,
            r.iat == now,
            r.exp == now + session_duration_secs,
    {
        AdminClaims { admin_id, username, exp: now + session_duration_secs, iat: now }
    }

    /// Whether the claims are expired at the given time.
    pub fn is_expired(&self, now: i64) -> (r: bool)
        ensures
            r == (now > self.exp),
    {
        now > self.exp
    }
}

/// An authenticated admin context; only verified claims go in.
#[derive(Debug)]
pub struct AdminToken(AdminClaims);

impl AdminToken {
    /// The verified claims inside the token.
    pub closed spec fn claims(&self) -> AdminClaims {
        self.0
    }

    /// The admin id of the verified claims.
    pub fn admin_id(&self) -> (r: &str)
        ensures
            r@ == self.claims().admin_id@,
    {
        self.0.admin_id.as_str()
    }

    /// The username of the verified claims.
    pub fn username(&self) -> (r: &str)
        ensures
            r@ == self.claims().username@,
    {
        self.0.username.as_str()
    }

    /// The expiry timestamp of the verified claims.
    pub fn exp(&self) -> (r: i64)
        ensures
            r == self.claims().exp,
    {
        self.0.exp
    }

    /// The issue timestamp of the verified claims.
    pub fn iat(&self) -> (r: i64)
        ensures
            r == self.claims().iat,
    {
        self.0.iat
    }

    /// Wraps claims that the caller has verified.
    pub fn from_verified_claims(claims: AdminClaims) -> (r: AdminToken)
        ensures
            r.claims() == claims,
    {
        AdminToken(claims)
    }
}

/// Why a password change is refused.
#[derive(Clone, Copy, Debug, PartialEq, Eq, Structural)]
pub enum PasswordChangeError {
    Mismatch,
    TooShort,
}

impl PasswordChangeError {
    /// The refusal in words.
    pub fn message(&self) -> (r: &'static str)
        ensures
            *self == PasswordChangeError::Mismatch ==> r@ == "New passwords do not match"@,
            *self == PasswordChangeError::TooShort ==> r@
                == "New password must be at least 8 characters"@,
    {
        match self {
            PasswordChangeError::Mismatch => "New passwords do not match",
            PasswordChangeError::TooShort => "New password must be at least 8 characters",
        }
    }
}

/// Accepts a password change exactly when the two entries agree and the
/// new password has at least 8 characters; a mismatch is reported before
/// a short length.
pub fn validate_password_change(new_password: &str, confirm_password: &str) -> (r: Result<
    (),
    PasswordChangeError,
>)
    ensures
        new_password@ != confirm_password@ ==> r == Err::<(), PasswordChangeError>(
            PasswordChangeError::Mismatch,
        ),
        new_password@ == confirm_password@ && new_password@.len() < 8 ==> r == Err::<
            (),
            PasswordChangeError,
        >(PasswordChangeError::TooShort),
        new_password@ == confirm_password@ && new_password@.len() >= 8 ==> r == Ok::<
            (),
            PasswordChangeError,
        >(()),
{
    if !crate::text::str_eq(new_password, confirm_password) {
        Err(PasswordChangeError::Mismatch)
    } else if new_password.unicode_len() < 8 {
        Err(PasswordChangeError::TooShort)
    } else {
        Ok(())
    }
}

} // verus!
