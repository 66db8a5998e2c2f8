use vstd::prelude::*;

verus! {

/// The kind of credential a client offered.
#[derive(Clone, Copy, Debug, PartialEq, Eq, Structural)]
pub enum Credential {
    Password,
    PublicKey,
}

#[derive(Clone, Copy, Debug, PartialEq, Eq, Structural)]
pub enum AuthDecision {
    Accept,
    Reject,
}

/// Who may join: everyone (the open broadcast room), only clients that
/// present a public key, or nobody.
#[derive(Clone, Copy, Debug, PartialEq, Eq, Structural)]
pub enum AuthPolicy {
    AcceptAll,
    PublicKeyOnly,
    RejectAll,
}

pub open spec fn decision_of(policy: AuthPolicy, offered: Credential) -> AuthDecision {
    match policy {
        AuthPolicy::AcceptAll => AuthDecision::Accept,
        AuthPolicy::PublicKeyOnly => if offered == Credential::PublicKey {
            AuthDecision::Accept
        } else {
            AuthDecision::Reject
        },
        AuthPolicy::RejectAll => AuthDecision::Reject,
    }
}

impl AuthPolicy {
    /// The decision on one authentication attempt. A rejection is a result,
    /// never an error; the caller applies the rejection delay.
    pub fn decide(&self, offered: Credential) -> (r: AuthDecision)
        ensures
            r == decision_of(*self, offered),
    {
        match self {
            AuthPolicy::AcceptAll => AuthDecision::Accept,
            AuthPolicy::PublicKeyOnly => match offered {
                Credential::PublicKey => AuthDecision::Accept,
                Credential::Password => AuthDecision::Reject,
            },
            AuthPolicy::RejectAll => AuthDecision::Reject,
        }
    }
}

/// The knobs the listener is started with.
#[derive(Clone, Copy, Debug, PartialEq, Eq, Structural)]
pub struct ServerSettings {
    pub port: u16,
    pub connection_timeout_secs: u64,
    pub auth_rejection_secs: u64,
    pub policy: AuthPolicy,
}

impl ServerSettings {
    /// The open broadcast room: port 2281, a 3 s handshake timeout, a 3 s
    /// delay after a rejected attempt, and every credential accepted.
    pub fn open_room() -> (r: Self)
        ensures
            r.port == 2281,
            r.connection_timeout_secs == 3,
            r.auth_rejection_secs == 3,
            r.policy == AuthPolicy::AcceptAll,
    {
        ServerSettings {
            port: 2281,
            connection_timeout_secs: 3,
            auth_rejection_secs: 3,
            policy: AuthPolicy::AcceptAll,
        }
    }
}

} // verus!
