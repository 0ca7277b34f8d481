//! A working session: its id, its project, the paths it may touch, and the
//! time at which each file was last seen.

use vstd::prelude::*;
use vstd::string::*;
use crate::keyed::KeyedTable;

verus! {

/// Bits 76 to 79 of a UUID's 128 bits: its version.
pub open spec fn uuid_version(bits: u128) -> u128 {
    (bits >> 76u128) & 15u128
}

/// Bits 62 and 63 of a UUID's 128 bits: its variant.
pub open spec fn uuid_variant(bits: u128) -> u128 {
    (bits >> 62u128) & 3u128
}

/// The lowercase hexadecimal digit of `d` (0 to 15).
pub open spec fn hex_digit(d: u128) -> char {
    if d < 10 {
        (48 + d) as char
    } else {
        (87 + d) as char
    }
}

/// The `k`-th hexadecimal digit of `bits`, counted from the most significant.
pub open spec fn uuid_nibble(bits: u128, k: int) -> u128 {
    (bits >> ((124 - 4 * k) as u128)) & 15u128
}

/// Which digit stands at position `i` of the hyphenated text.
pub open spec fn digit_at(i: int) -> int {
    if i < 8 {
        i
    } else if i < 13 {
        i - 1
    } else if i < 18 {
        i - 2
    } else if i < 23 {
        i - 3
    } else {
        i - 4
    }
}

/// The hyphenated lowercase text of a UUID, as `uuid::Uuid`'s `Display`
/// writes it: 32 hexadecimal digits, most significant first, in groups of
/// 8, 4, 4, 4 and 12 separated by `-`.
pub open spec fn uuid_hyphenated(bits: u128) -> Seq<char> {
    Seq::new(
        36,
        |i: int|
            if i == 8 || i == 13 || i == 18 || i == 23 {
                '-'
            } else {
                hex_digit(uuid_nibble(bits, digit_at(i)))
            },
    )
}

/// `uuid::Uuid::new_v4().as_u128()`: the contract claims only what every
/// outcome has, the version 4 and the RFC 4122 variant that `new_v4` sets
/// over random bits.
#[verifier::external_body]
fn random_uuid() -> (r: u128)
    ensures
        uuid_version(r) == 4,
        uuid_variant(r) == 2,
{
    uuid::Uuid::new_v4().as_u128()
}

/// `uuid::Uuid::from_u128(bits).to_string()`: the contract claims the
/// hyphenated lowercase text that the crate's `Display` writes.
#[verifier::external_body]
fn uuid_text(bits: u128) -> (r: String)
    ensures
        r@ == uuid_hyphenated(bits),
{
    uuid::Uuid::from_u128(bits).to_string()
}

/// The id of a session: the 128 bits of a random UUID.
#[derive(Debug, Clone, Copy, PartialEq, Eq, Hash, Structural)]
pub struct SessionId(pub u128);

impl SessionId {
    /// A fresh random id.
    pub fn new() -> (r: Self)
        ensures
            uuid_version(r.0) == 4,
            uuid_variant(r.0) == 2,
    {
        SessionId(random_uuid())
    }

    /// The id as the hyphenated text that names the session.
    pub fn to_string(&self) -> (r: String)
        ensures
            r@ == uuid_hyphenated(self.0),
    {
        uuid_text(self.0)
    }
}

impl Default for SessionId {
    fn default() -> (r: Self)
        ensures
            uuid_version(r.0) == 4,
            uuid_variant(r.0) == 2,
    {
        Self::new()
    }
}

/// A session: its id, the project it works on, the paths it may touch,
/// and, for each file it has seen (by path), the file's time at that moment.
#[derive(Debug, Clone)]
pub struct Session {
    id: SessionId,
    project_name: String,
    allowed_paths: Vec<String>,
    file_timestamps: KeyedTable<std::time::SystemTime>,
}

impl Session {
    /// The session's parts are well formed.
    pub closed spec fn wf(&self) -> bool {
        self.file_timestamps.wf()
    }

    pub closed spec fn spec_id(&self) -> SessionId {
        self.id
    }

    pub closed spec fn spec_project_name(&self) -> Seq<char> {
        self.project_name@
    }

    pub closed spec fn spec_allowed_paths(&self) -> Seq<String> {
        self.allowed_paths@
    }

    /// The time recorded for each path.
    pub closed spec fn timestamps(&self) -> Map<Seq<char>, std::time::SystemTime> {
        self.file_timestamps.map()
    }

    /// A new session with a fresh id and no file seen yet.
    pub fn new(project_name: String, allowed_paths: Vec<String>) -> (r: Self)
        ensures
            r.wf(),
            uuid_version(r.spec_id().0) == 4,
            uuid_variant(r.spec_id().0) == 2,
            r.spec_project_name() == project_name@,
            r.spec_allowed_paths() == allowed_paths@,
            r.timestamps() =~= Map::<Seq<char>, std::time::SystemTime>::empty(),
    {
        Session { id: SessionId::new(), project_name, allowed_paths, file_timestamps: KeyedTable::new() }
    }

    /// A session put back together from its parts, as they were stored.
    pub fn from_parts(
        id: SessionId,
        project_name: String,
        allowed_paths: Vec<String>,
        file_timestamps: KeyedTable<std::time::SystemTime>,
    ) -> (r: Self)
        requires
            file_timestamps.wf(),
        ensures
            r.wf(),
            r.spec_id() == id,
            r.spec_project_name() == project_name@,
            r.spec_allowed_paths() == allowed_paths@,
            r.timestamps() == file_timestamps.map(),
    {
        Session { id, project_name, allowed_paths, file_timestamps }
    }

    pub fn id(&self) -> (r: &SessionId)
        ensures
            *r == self.spec_id(),
    {
        &self.id
    }

    pub fn project_name(&self) -> (r: &str)
        ensures
            r@ == self.spec_project_name(),
    {
        self.project_name.as_str()
    }

    pub fn allowed_paths(&self) -> (r: &[String])
        ensures
            r@ == self.spec_allowed_paths(),
    {
        self.allowed_paths.as_slice()
    }

    /// The recorded times, by path.
    pub fn file_timestamps(&self) -> (r: &KeyedTable<std::time::SystemTime>)
        requires
            self.wf(),
        ensures
            r.wf(),
            r.map() == self.timestamps(),
    {
        &self.file_timestamps
    }

    /// Records `timestamp` as the time of the file at `path` (its canonical
    /// form where it has one), replacing what was recorded for it.
    pub fn update_timestamp(&mut self, path: String, timestamp: std::time::SystemTime)
        requires
            old(self).wf(),
        ensures
            final(self).wf(),
            final(self).spec_id() == old(self).spec_id(),
            final(self).spec_project_name() == old(self).spec_project_name(),
            final(self).spec_allowed_paths() == old(self).spec_allowed_paths(),
            final(self).timestamps() == old(self).timestamps().insert(path@, timestamp),
    {
        self.file_timestamps.insert(path, timestamp);
    }

    /// Whether a write to a path may go ahead: a path that does not exist
    /// may always be written; an existing one only once its time has been
    /// recorded (under `check_path`, its canonical form where it has one).
    pub fn check_timestamp(&self, path_exists: bool, check_path: &str) -> (r: bool)
        requires
            self.wf(),
        ensures
            r == (!path_exists || self.timestamps().contains_key(check_path@)),
    {
        if !path_exists {
            return true;
        }
        self.file_timestamps.contains_key(check_path)
    }
}

/// After a time is recorded for a path, a check on that path passes and
/// finds that time, and what other paths had recorded is unchanged.
pub proof fn law_update_then_check(before: Session, after: Session, path: Seq<char>, timestamp: std::time::SystemTime)
    requires
        after.timestamps() == before.timestamps().insert(path, timestamp),
    ensures
        after.timestamps().contains_key(path),
        after.timestamps()[path] == timestamp,
        forall|q: Seq<char>|
            q != path ==> (#[trigger] after.timestamps().contains_key(q) == before.timestamps().contains_key(q)
                && (after.timestamps().contains_key(q) ==> after.timestamps()[q] == before.timestamps()[q])),
{
}

} // verus!
