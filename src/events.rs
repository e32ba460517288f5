//! Events that a client reports, and the server's reasons for refusing a
//! connection.

use vstd::prelude::*;
use crate::jid::Jid;
use crate::text::{dec, push_all, push_decimal, string_of};

verus! {

/// std's wall-clock time, carried through opaquely.
#[verifier::external_type_specification]
#[verifier::external_body]
pub struct ExSystemTime(std::time::SystemTime);

/// Relies on `SystemTime` being `Copy`: a clone is the same time.
pub assume_specification[ <std::time::SystemTime as core::clone::Clone>::clone ](t: &std::time::SystemTime) -> (r: std::time::SystemTime)
    ensures
        r == *t,
;

/// Relies on `Duration` being `Copy`: a clone is the same duration.
pub assume_specification[ <core::time::Duration as core::clone::Clone>::clone ](d: &core::time::Duration) -> (r: core::time::Duration)
    ensures
        r == *d,
;

/// Identifier of a message.
pub type MessageId = String;

/// Reason code for a refused connection.
#[derive(Clone, Copy, Debug, PartialEq, Eq, Structural)]
pub enum ConnectFailureReason {
    Generic,
    LoggedOut,
    TempBanned,
    MainDeviceGone,
    ClientOutdated,
    UnknownLogout,
    BadUserAgent,
    CATExpired,
    CATInvalid,
    NotFound,
    ClientUnknown,
    InternalServerError,
    Experimental,
    ServiceUnavailable,
}

/// The numeric code of each reason.
pub open spec fn reason_code(r: ConnectFailureReason) -> int {
    match r {
        ConnectFailureReason::Generic => 400,
        ConnectFailureReason::LoggedOut => 401,
        ConnectFailureReason::TempBanned => 402,
        ConnectFailureReason::MainDeviceGone => 403,
        ConnectFailureReason::ClientOutdated => 405,
        ConnectFailureReason::UnknownLogout => 406,
        ConnectFailureReason::BadUserAgent => 409,
        ConnectFailureReason::CATExpired => 413,
        ConnectFailureReason::CATInvalid => 414,
        ConnectFailureReason::NotFound => 415,
        ConnectFailureReason::ClientUnknown => 418,
        ConnectFailureReason::InternalServerError => 500,
        ConnectFailureReason::Experimental => 501,
        ConnectFailureReason::ServiceUnavailable => 503,
    }
}

impl ConnectFailureReason {
    /// The reason with numeric code `code`, if there is one.
    pub fn from_code(code: i32) -> (r: Option<ConnectFailureReason>)
        ensures
            match r {
                Some(x) => reason_code(x) == code,
                None => forall|x: ConnectFailureReason| reason_code(x) != code,
            },
    {
        match code {
            400 => Some(ConnectFailureReason::Generic),
            401 => Some(ConnectFailureReason::LoggedOut),
            402 => Some(ConnectFailureReason::TempBanned),
            403 => Some(ConnectFailureReason::MainDeviceGone),
            405 => Some(ConnectFailureReason::ClientOutdated),
            406 => Some(ConnectFailureReason::UnknownLogout),
            409 => Some(ConnectFailureReason::BadUserAgent),
            413 => Some(ConnectFailureReason::CATExpired),
            414 => Some(ConnectFailureReason::CATInvalid),
            415 => Some(ConnectFailureReason::NotFound),
            418 => Some(ConnectFailureReason::ClientUnknown),
            500 => Some(ConnectFailureReason::InternalServerError),
            501 => Some(ConnectFailureReason::Experimental),
            503 => Some(ConnectFailureReason::ServiceUnavailable),
            _ => None,
        }
    }

    /// The numeric code.
    pub fn code(&self) -> (r: i32)
        ensures
            r == reason_code(*self),
    {
        match self {
            ConnectFailureReason::Generic => 400,
            ConnectFailureReason::LoggedOut => 401,
            ConnectFailureReason::TempBanned => 402,
            ConnectFailureReason::MainDeviceGone => 403,
            ConnectFailureReason::ClientOutdated => 405,
            ConnectFailureReason::UnknownLogout => 406,
            ConnectFailureReason::BadUserAgent => 409,
            ConnectFailureReason::CATExpired => 413,
            ConnectFailureReason::CATInvalid => 414,
            ConnectFailureReason::NotFound => 415,
            ConnectFailureReason::ClientUnknown => 418,
            ConnectFailureReason::InternalServerError => 500,
            ConnectFailureReason::Experimental => 501,
            ConnectFailureReason::ServiceUnavailable => 503,
        }
    }

    /// Whether the reason ends the session: the device was logged out.
    pub fn is_logged_out(&self) -> (r: bool)
        ensures
            r == (*self == ConnectFailureReason::LoggedOut || *self == ConnectFailureReason::MainDeviceGone
                || *self == ConnectFailureReason::UnknownLogout),
    {
        match self {
            ConnectFailureReason::LoggedOut | ConnectFailureReason::MainDeviceGone
            | ConnectFailureReason::UnknownLogout => true,
            _ => false,
        }
    }

    /// A sentence for people: what happened, then the code in parentheses.
    pub fn describe(&self) -> (r: String)
        ensures
            r@ == reason_text(*self) + " (code "@ + dec(reason_code(*self) as nat) + ")"@,
    {
        let msg: &str = match self {
            ConnectFailureReason::LoggedOut => "logged out from another device",
            ConnectFailureReason::TempBanned => "account temporarily banned",
            ConnectFailureReason::MainDeviceGone => "primary device was logged out",
            ConnectFailureReason::UnknownLogout => "logged out for unknown reason",
            ConnectFailureReason::ClientOutdated => "client is out of date",
            ConnectFailureReason::BadUserAgent => "client user agent was rejected",
            ConnectFailureReason::CATExpired => "messenger crypto auth token has expired",
            ConnectFailureReason::CATInvalid => "messenger crypto auth token is invalid",
            _ => "connection failure",
        };
        let mut out: Vec<char> = Vec::new();
        let m = crate::text::chars_of(msg);
        push_all(&mut out, m.as_slice());
        let open = crate::text::chars_of(" (code ");
        push_all(&mut out, open.as_slice());
        push_decimal(&mut out, self.code() as u64);
        out.push(')');
        proof {
            reveal_strlit(")");
        }
        assert(out@ =~= reason_text(*self) + " (code "@ + dec(reason_code(*self) as nat) + ")"@);
        string_of(out.as_slice())
    }
}

/// The words of `describe` for each reason.
pub open spec fn reason_text(r: ConnectFailureReason) -> Seq<char> {
    match r {
        ConnectFailureReason::LoggedOut => "logged out from another device"@,
        ConnectFailureReason::TempBanned => "account temporarily banned"@,
        ConnectFailureReason::MainDeviceGone => "primary device was logged out"@,
        ConnectFailureReason::UnknownLogout => "logged out for unknown reason"@,
        ConnectFailureReason::ClientOutdated => "client is out of date"@,
        ConnectFailureReason::BadUserAgent => "client user agent was rejected"@,
        ConnectFailureReason::CATExpired => "messenger crypto auth token has expired"@,
        ConnectFailureReason::CATInvalid => "messenger crypto auth token is invalid"@,
        _ => "connection failure"@,
    }
}

/// Reason for a temporary ban.
#[derive(Clone, Copy, Debug, PartialEq, Eq, Structural)]
pub enum TempBanReason {
    SentToTooManyPeople,
    BlockedByUsers,
    CreatedTooManyGroups,
    SentTooManySameMessage,
    BroadcastList,
}

/// An incoming message.
#[derive(Clone, Debug)]
pub struct MessageEvent {
    pub from: Jid,
    pub to: Jid,
    pub id: MessageId,
    pub timestamp: std::time::SystemTime,
    pub is_group: bool,
    pub is_from_me: bool,
    /// The raw message payload.
    pub raw: Vec<u8>,
}

/// A delivery or read receipt.
#[derive(Clone, Debug)]
pub struct ReceiptEvent {
    pub from: Jid,
    pub id: MessageId,
    pub timestamp: std::time::SystemTime,
    pub is_read: bool,
    pub is_from_me: bool,
}

/// What a client reports to its handlers.
#[derive(Clone, Debug)]
pub enum Event {
    /// Codes to show as QR codes for pairing, one after the other.
    Qr { codes: Vec<String> },
    /// Pairing completed.
    PairSuccess { id: Jid, lid: Jid, business_name: String, platform: String },
    /// Pairing failed after the server confirmed it.
    PairError { id: Jid, lid: Jid, business_name: String, platform: String, error: String },
    /// A QR code was scanned by a phone without multidevice support.
    QrScannedWithoutMultidevice,
    /// Connected and authenticated.
    Connected,
    /// Keepalive pings are timing out.
    KeepAliveTimeout { error_count: u32, last_success: Option<std::time::SystemTime> },
    /// Keepalive pings work again.
    KeepAliveRestored,
    /// Logged out from another device, or refused at connect.
    LoggedOut { on_connect: bool, reason: Option<ConnectFailureReason> },
    /// Another client connected with the same keys.
    StreamReplaced,
    /// A temporary ban.
    TemporaryBan { code: TempBanReason, expire: std::time::Duration },
    /// Disconnected for a while.
    Disconnected { reason: String },
    /// An incoming message.
    Message(MessageEvent),
    /// A receipt.
    Receipt(ReceiptEvent),
    /// History sync progress.
    HistorySync { chunk_order: u32, progress: u32 },
    /// App state was updated.
    AppStateSync,
}

} // verus!
