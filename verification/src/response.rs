//! The gateway's reply to a token request, and the small data carriers the
//! surrounding HTTP demo exchanges with its clients.

use vstd::prelude::*;
use crate::basket::Cart;

verus! {

/// The gateway's structured reply: a status, a token present only on
/// success, and a human-readable reason present typically on failure.
pub struct PaytrResponse {
    pub status: Option<String>,
    pub token: Option<String>,
    pub reason: Option<String>,
}

/// Whether a gateway reply reports success.
pub open spec fn response_success(resp: PaytrResponse) -> bool {
    match resp.status {
        Some(s) => s@ == "success"@,
        None => false,
    }
}

impl PaytrResponse {
    /// True exactly when the reply's status is the literal `success`.
    pub fn is_success(&self) -> (r: bool)
        ensures
            r == response_success(*self),
    {
        match &self.status {
            Some(s) => {
                let success_literal = String::from_str("success");
                *s == success_literal
            },
            None => false,
        }
    }

    /// The iframe token of the reply, or the empty string where the
    /// gateway sent none.
    pub fn iframe_token(&self) -> (r: String)
        ensures
            r@ == (match self.token {
                Some(t) => t@,
                None => Seq::<char>::empty(),
            }),
    {
        match &self.token {
            Some(t) => t.clone(),
            None => String::new(),
        }
    }
}

/// Successful reply of the demo payment endpoint.
pub struct HttpSuccess {
    pub code: i16,
    pub message: String,
    pub iframe: String,
}

/// Failure reply of the demo payment endpoint.
pub struct HttpError {
    pub code: i16,
    pub message: String,
}

/// A minimal request body used to exercise the demo endpoints.
pub struct TestRequest {
    pub name: String,
    pub id: i32,
}

/// The demo payment endpoint's request body: the cart plus payer details.
pub struct Request {
    pub basket: Vec<Cart>,
    pub username: String,
    pub email: String,
    pub user_address: String,
    pub user_phone: String,
    pub total_payment: i64,
}

/// The payer IP the request is signed with: the first forwarding header
/// that is present, in the order the handler consults them, and the empty
/// string where neither is.
pub fn pick_user_ip(real_ip: Option<String>, forwarded_for: Option<String>) -> (r: String)
    ensures
        r@ == (match real_ip {
            Some(ip) => ip@,
            None => (match forwarded_for {
                Some(ip) => ip@,
                None => Seq::<char>::empty(),
            }),
        }),
{
    match real_ip {
        Some(ip) => ip,
        None => match forwarded_for {
            Some(ip) => ip,
            None => String::new(),
        },
    }
}

} // verus!
