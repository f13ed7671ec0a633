//! What a session writes to its durable log.

use crate::failure::Failure;
use crate::model::Command;
use vstd::prelude::*;

verus! {

/// A session identifier. Nothing is known of its contents.
#[verifier::external_type_specification]
#[verifier::external_body]
pub struct ExUuid(uuid::Uuid);

/// Seconds since the start of 1970.
#[derive(Debug, Clone, Copy, PartialEq, Eq, Structural, Hash, PartialOrd, Ord)]
pub struct UnixTimestamp(pub u64);

/// The whole seconds that the system clock counts since the start of
/// 1970, by `SystemTime::elapsed` of std on `UNIX_EPOCH`; nothing where the
/// clock stands before that. The value depends on when it is asked for.
#[verifier::external_body]
fn seconds_since_epoch() -> (r: Option<u64>) {
    match std::time::UNIX_EPOCH.elapsed() {
        Ok(elapsed) => Some(elapsed.as_secs()),
        Err(_) => None,
    }
}

/// A random identifier, by `Uuid::new_v4` of the uuid crate. Each call
/// gives another one.
#[verifier::external_body]
fn random_uuid() -> (id: uuid::Uuid) {
    uuid::Uuid::new_v4()
}

impl UnixTimestamp {
    /// The timestamp for what the clock gave: the seconds it counted, or a
    /// failure where it could not be read.
    pub fn from_clock(seconds: Option<u64>) -> (r: Result<Self, Failure>)
        ensures
            r == (match seconds {
                Some(s) => Ok::<UnixTimestamp, Failure>(UnixTimestamp(s)),
                None => Err::<UnixTimestamp, Failure>(Failure::IoFailure),
            }),
    {
        match seconds {
            Some(s) => Ok(UnixTimestamp(s)),
            None => Err(Failure::IoFailure),
        }
    }

    /// The present time. It fails only where the clock cannot be read, and
    /// then with `IoFailure`.
    pub fn now() -> (r: Result<Self, Failure>)
        ensures
            r is Err ==> r == Err::<UnixTimestamp, Failure>(Failure::IoFailure),
    {
        UnixTimestamp::from_clock(seconds_since_epoch())
    }

    pub fn as_secs(self) -> (s: u64)
        ensures
            s == self.0,
    {
        self.0
    }
}

/// The version that a session writes into its log.
pub open spec fn version_text() -> Seq<char> {
    "0.1.0"@
}

/// The record that opens a session's log.
#[derive(Debug)]
pub struct OpenRecord {
    pub timestamp: UnixTimestamp,
    pub version: String,
    pub port: u16,
    pub uuid: uuid::Uuid,
}

impl OpenRecord {
    /// The opening record of a session that began at `timestamp`, listens
    /// on `port` and is known by `uuid`.
    pub fn assemble(timestamp: UnixTimestamp, port: u16, uuid: uuid::Uuid) -> (r: Self)
        ensures
            r.timestamp == timestamp,
            r.version@ == version_text(),
            r.port == port,
            r.uuid == uuid,
    {
        OpenRecord { timestamp, version: String::from_str("0.1.0"), port, uuid }
    }

    /// The opening record of a session that begins now on `port`, with a
    /// new identifier. It fails only where the clock cannot be read.
    pub fn new(port: u16) -> (r: Result<Self, Failure>)
        ensures
            match r {
                Ok(record) => record.port == port && record.version@ == version_text(),
                Err(failure) => failure == Failure::IoFailure,
            },
    {
        match UnixTimestamp::now() {
            Ok(timestamp) => Ok(OpenRecord::assemble(timestamp, port, random_uuid())),
            Err(failure) => Err(failure),
        }
    }
}

/// One entry of a session's log: the opening record, or an effect that
/// was carried out.
#[derive(Debug)]
pub enum Record {
    Open(OpenRecord),
    Model(Command),
}

} // verus!
