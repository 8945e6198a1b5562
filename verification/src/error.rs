//! Error taxonomy and server result codes.
//!
//! Errors fall into six classes: transport failures (retriable by the
//! dispatcher), protocol failures (fatal to a connection, retriable for the
//! operation on a fresh one), server exceptions carrying the numeric result
//! code and message, authentication failures (fatal for an endpoint proxy),
//! client-usage mistakes, and deadline expiry.

use vstd::prelude::*;

verus! {

/// Result codes the server puts in response headers. `Other` carries a code
/// the client has no dedicated handling for.
#[derive(Clone, Copy, PartialEq, Eq, Structural, Debug)]
pub enum ResultCodes {
    ObSuccess,
    ObErrPrimaryKeyDuplicate,
    ObNotMaster,
    ObRsNotMaster,
    ObLocationNotExist,
    ObMasterChanged,
    ObMinorFreezeNotAllow,
    ObSchemaError,
    Other(i32),
}

impl ResultCodes {
    /// The numeric code as the wire carries it.
    pub open spec fn spec_errno(self) -> i32 {
        match self {
            ResultCodes::ObSuccess => 0i32,
            ResultCodes::ObErrPrimaryKeyDuplicate => -5024i32,
            ResultCodes::ObNotMaster => -4038i32,
            ResultCodes::ObRsNotMaster => -4039i32,
            ResultCodes::ObLocationNotExist => -4018i32,
            ResultCodes::ObMasterChanged => -4041i32,
            ResultCodes::ObMinorFreezeNotAllow => -4058i32,
            ResultCodes::ObSchemaError => -4029i32,
            ResultCodes::Other(n) => n,
        }
    }

    /// Decodes a header code. Codes without dedicated handling map to `Other`.
    pub fn from_i32(n: i32) -> (c: ResultCodes)
        ensures
            c.spec_errno() == n,
            c is Other ==> !ResultCodes::dedicated(n),
            ResultCodes::dedicated(n) ==> !(c is Other),
    {
        match n {
            0 => ResultCodes::ObSuccess,
            -5024 => ResultCodes::ObErrPrimaryKeyDuplicate,
            -4038 => ResultCodes::ObNotMaster,
            -4039 => ResultCodes::ObRsNotMaster,
            -4018 => ResultCodes::ObLocationNotExist,
            -4041 => ResultCodes::ObMasterChanged,
            -4058 => ResultCodes::ObMinorFreezeNotAllow,
            -4029 => ResultCodes::ObSchemaError,
            _ => ResultCodes::Other(n),
        }
    }

    /// Codes that decode to a variant of their own rather than to `Other`.
    pub open spec fn dedicated(n: i32) -> bool {
        n == 0 || n == -5024 || n == -4038 || n == -4039 || n == -4018 || n == -4041 || n == -4058
            || n == -4029
    }

    /// The numeric code, executably.
    pub fn errno(self) -> (n: i32)
        ensures
            n == self.spec_errno(),
    {
        match self {
            ResultCodes::ObSuccess => 0,
            ResultCodes::ObErrPrimaryKeyDuplicate => -5024,
            ResultCodes::ObNotMaster => -4038,
            ResultCodes::ObRsNotMaster => -4039,
            ResultCodes::ObLocationNotExist => -4018,
            ResultCodes::ObMasterChanged => -4041,
            ResultCodes::ObMinorFreezeNotAllow => -4058,
            ResultCodes::ObSchemaError => -4029,
            ResultCodes::Other(n) => n,
        }
    }

    /// Whether a non-success code lets the dispatcher invalidate the route
    /// and retry: the server is telling the client its routing or schema view
    /// is stale, not that the operation itself is invalid.
    pub open spec fn spec_retriable(self) -> bool {
        match self {
            ResultCodes::ObNotMaster => true,
            ResultCodes::ObRsNotMaster => true,
            ResultCodes::ObLocationNotExist => true,
            ResultCodes::ObMasterChanged => true,
            ResultCodes::ObMinorFreezeNotAllow => true,
            ResultCodes::ObSchemaError => true,
            _ => false,
        }
    }

    /// Executable counterpart of [`Self::spec_retriable`].
    pub fn is_retriable(self) -> (r: bool)
        ensures
            r == self.spec_retriable(),
    {
        match self {
            ResultCodes::ObNotMaster => true,
            ResultCodes::ObRsNotMaster => true,
            ResultCodes::ObLocationNotExist => true,
            ResultCodes::ObMasterChanged => true,
            ResultCodes::ObMinorFreezeNotAllow => true,
            ResultCodes::ObSchemaError => true,
            _ => false,
        }
    }
}

/// Ways a caller can misuse the client API.
#[derive(Clone, Copy, PartialEq, Eq, Structural, Debug)]
pub enum UsageKind {
    /// A typed accessor was called on a value of a different tag.
    TypeMismatch,
    /// An atomic batch routed to more than one partition.
    CrossPartitionAtomic,
    /// A stream cursor was used after `close`.
    AlreadyClosed,
    /// A builder was finished without a required field.
    MissingField,
    /// An empty or malformed argument.
    InvalidParam,
}

/// What a failed operation reports to the caller.
#[derive(Clone, Debug)]
pub enum Error {
    /// Connect, read, write or framing failed on the transport.
    Transport(String),
    /// A send was attempted on a connection no longer connected.
    NotConnected,
    /// The pending table of the chosen connection is at its high-water mark.
    Congestion,
    /// The response could not be interpreted.
    Protocol(String),
    /// The server answered with a non-success result code.
    Server(ResultCodes, String),
    /// The login handshake was rejected.
    Auth(String),
    /// The caller broke the API contract.
    Usage(UsageKind),
    /// The per-operation deadline expired.
    Timeout,
}

impl Error {
    /// Whether the dispatcher may retry the operation after this error:
    /// transport-level failures and the stale-route family of server codes.
    pub open spec fn spec_retriable(self) -> bool {
        match self {
            Error::Transport(_) => true,
            Error::NotConnected => true,
            Error::Congestion => true,
            Error::Protocol(_) => true,
            Error::Server(code, _) => code.spec_retriable(),
            Error::Timeout => true,
            _ => false,
        }
    }

    /// Executable counterpart of [`Self::spec_retriable`].
    pub fn is_retriable(&self) -> (r: bool)
        ensures
            r == self.spec_retriable(),
    {
        match self {
            Error::Transport(_) => true,
            Error::NotConnected => true,
            Error::Congestion => true,
            Error::Protocol(_) => true,
            Error::Server(code, _) => code.is_retriable(),
            Error::Timeout => true,
            _ => false,
        }
    }

    /// Whether a retry should first drop the cached route of the key the
    /// operation targeted.
    pub open spec fn spec_invalidates_route(self) -> bool {
        match self {
            Error::Server(code, _) => code.spec_retriable(),
            _ => false,
        }
    }

    /// Executable counterpart of [`Self::spec_invalidates_route`].
    pub fn invalidates_route(&self) -> (r: bool)
        ensures
            r == self.spec_invalidates_route(),
    {
        match self {
            Error::Server(code, _) => code.is_retriable(),
            _ => false,
        }
    }
}

} // verus!
