//! The cached authorisation key of a game and its 24-hour validity.
use vstd::prelude::*;
use crate::config::{GameConfig, GameConfigModel};

verus! {

/// An instant: seconds and nanoseconds since 1970-01-01T00:00:00Z.
#[derive(Debug, Clone, Copy, PartialEq, Eq)]
pub struct Timestamp {
    pub secs: i64,
    pub nanos: u32,
}

/// Earliest second that a `chrono` date-time holds (the start of the year
/// -262143).
pub open spec fn min_timestamp() -> int {
    -8334601228800
}

/// Latest second that a `chrono` date-time holds (the end of the year
/// 262142).
pub open spec fn max_timestamp() -> int {
    8210266876799
}

/// First second of the year 10000, from which on the year is written with
/// more than four digits.
pub open spec fn year_10000() -> int {
    253402300800
}

/// `a` is earlier than `b`.
pub open spec fn earlier(a: (i64, u32), b: (i64, u32)) -> bool {
    a.0 < b.0 || (a.0 == b.0 && a.1 < b.1)
}

/// How long a key stays valid.
pub open spec fn key_lifetime_secs() -> int {
    86400
}

/// The RFC 3339 text that `chrono` writes for the instant.
pub uninterp spec fn rfc3339_text(secs: i64, nanos: u32) -> Seq<char>;

/// The instant that `chrono` reads from an RFC 3339 text, if it reads one.
pub uninterp spec fn rfc3339_instant(text: Seq<char>) -> Option<(i64, u32)>;

/// The current instant as `chrono::Utc::now` reads it (the system clock's
/// time since the Unix epoch, made a `DateTime` by
/// `chrono::DateTime::from_timestamp`), without its panics: `None` where the
/// clock reads before the epoch or beyond the dates `chrono` holds. An
/// instant returned lies between the two, with fewer than 10^9
/// nanoseconds. Which instant it is, nothing states.
#[verifier::external_body]
fn clock_now() -> (t: Option<Timestamp>)
    ensures
        t matches Some(t) ==> 0 <= t.secs <= max_timestamp() && t.nanos < 1_000_000_000,
{
    let since = std::time::SystemTime::now().duration_since(std::time::UNIX_EPOCH).ok()?;
    let secs = i64::try_from(since.as_secs()).ok()?;
    let now = chrono::DateTime::from_timestamp(secs, since.subsec_nanos())?;
    Some(Timestamp { secs: now.timestamp(), nanos: now.timestamp_subsec_nanos() })
}

/// `chrono::DateTime::<Utc>::from_timestamp(..).to_rfc3339()`: the RFC 3339
/// text of an instant, named by [`rfc3339_text`]. For years 0 to 9999 the
/// text has a four-digit year and every non-zero fraction digit group, so
/// `DateTime::parse_from_rfc3339` reads the same instant back.
#[verifier::external_body]
fn format_rfc3339(t: Timestamp) -> (s: String)
    requires
        min_timestamp() <= t.secs <= max_timestamp(),
        t.nanos < 1_000_000_000,
    ensures
        s@ == rfc3339_text(t.secs, t.nanos),
        0 <= t.secs < year_10000() ==> rfc3339_instant(s@) == Some((t.secs, t.nanos)),
{
    match chrono::DateTime::from_timestamp(t.secs, t.nanos) {
        Some(d) => d.to_rfc3339(),
        None => String::new(),
    }
}

/// `chrono::DateTime::parse_from_rfc3339`: the instant (seconds and
/// nanoseconds since the epoch, in UTC) that the text denotes, named by
/// [`rfc3339_instant`]; `None` where `chrono` refuses the text.
#[verifier::external_body]
fn parse_rfc3339(s: &str) -> (r: Option<(i64, u32)>)
    ensures
        r == rfc3339_instant(s@),
{
    match chrono::DateTime::parse_from_rfc3339(s) {
        Ok(d) => Some((d.timestamp(), d.timestamp_subsec_nanos())),
        Err(_) => None,
    }
}

/// The key of the configuration is present and its expiry is a readable
/// RFC 3339 time later than `now`.
pub open spec fn key_valid_at(c: GameConfigModel, now: (i64, u32)) -> bool {
    &&& c.authkey is Some
    &&& c.authkey_expires_at matches Some(e) && rfc3339_instant(e) matches Some(exp) && earlier(
        now,
        exp,
    )
}

/// The configuration after storing `key` with the RFC 3339 text of the
/// instant `expiry` as its expiry; nothing else changes.
pub open spec fn key_stored(
    before: GameConfigModel,
    after: GameConfigModel,
    key: Seq<char>,
    expiry: (i64, u32),
) -> bool {
    &&& after.authkey == Some(key)
    &&& after.authkey_expires_at == Some(rfc3339_text(expiry.0, expiry.1))
    &&& after.log_dirs == before.log_dirs
    &&& after.api_url == before.api_url
    &&& after.extra_params == before.extra_params
    &&& after.gacha_types == before.gacha_types
}

/// The configuration after caching `key` at `now`: the key, and as expiry
/// the RFC 3339 text of the instant 24 hours later; nothing else changes.
pub open spec fn key_cached(before: GameConfigModel, after: GameConfigModel, key: Seq<char>, now: Timestamp) -> bool {
    key_stored(before, after, key, ((now.secs + key_lifetime_secs()) as i64, now.nanos))
}

/// When a key cached at `now` expires: 24 hours later, or the last instant
/// that `chrono` holds if that comes first.
pub open spec fn expiry_after(now: Timestamp) -> (i64, u32) {
    if now.secs + key_lifetime_secs() <= max_timestamp() {
        ((now.secs + key_lifetime_secs()) as i64, now.nanos)
    } else {
        (max_timestamp() as i64, 999_999_999)
    }
}

impl GameConfig {
    /// Whether the cached key is still valid at the instant `now`.
    pub fn authkey_valid_at(&self, now: Timestamp) -> (r: bool)
        ensures
            r == key_valid_at(self@, (now.secs, now.nanos)),
    {
        let expires = match &self.authkey_expires_at {
            Some(e) => e,
            None => return false,
        };
        if self.authkey.is_none() {
            return false;
        }
        match parse_rfc3339(expires.as_str()) {
            Some((secs, nanos)) => now.secs < secs || (now.secs == secs && now.nanos < nanos),
            None => false,
        }
    }

    /// Whether the cached key is still valid now (it is valid for 24 hours
    /// after it was cached); not where the clock cannot be read.
    pub fn is_authkey_valid(&self) -> (r: bool)
        ensures
            r ==> exists|now: Timestamp|
                {
                    &&& 0 <= now.secs <= max_timestamp()
                    &&& now.nanos < 1_000_000_000
                    &&& key_valid_at(self@, (now.secs, now.nanos))
                },
    {
        match clock_now() {
            Some(now) => self.authkey_valid_at(now),
            None => false,
        }
    }

    /// Caches `authkey` as received at the instant `now`; it stays valid
    /// for 24 hours.
    pub fn set_authkey_at(&mut self, authkey: String, now: Timestamp)
        requires
            0 <= now.secs,
            now.secs + key_lifetime_secs() <= max_timestamp(),
            now.nanos < 1_000_000_000,
        ensures
            key_cached(old(self)@, final(self)@, authkey@, now),
            now.secs + key_lifetime_secs() < year_10000() ==> forall|t: (i64, u32)|
                #[trigger] key_valid_at(final(self)@, t) == earlier(
                    t,
                    ((now.secs + key_lifetime_secs()) as i64, now.nanos),
                ),
    {
        let expires = Timestamp { secs: now.secs + 86400, nanos: now.nanos };
        let text = format_rfc3339(expires);
        self.authkey = Some(authkey);
        self.authkey_expires_at = Some(text);
    }

    /// Caches `authkey`, valid for 24 hours from now. Should the clock read
    /// less than a day before the last instant that `chrono` holds, the key
    /// expires at that last instant. Where the clock cannot be read, nothing
    /// is stored.
    pub fn set_authkey(&mut self, authkey: String)
        ensures
            final(self)@ == old(self)@ || exists|now: Timestamp|
                {
                    &&& 0 <= now.secs <= max_timestamp()
                    &&& now.nanos < 1_000_000_000
                    &&& key_stored(old(self)@, final(self)@, authkey@, expiry_after(now))
                    &&& expiry_after(now).0 < year_10000() ==> forall|t: (i64, u32)|
                        #[trigger] key_valid_at(final(self)@, t) == earlier(t, expiry_after(now))
                },
    {
        let now = match clock_now() {
            Some(now) => now,
            None => return,
        };
        if now.secs <= 8210266876799 - 86400 {
            self.set_authkey_at(authkey, now);
            assert(key_stored(old(self)@, self@, authkey@, expiry_after(now)));
        } else {
            let text = format_rfc3339(Timestamp { secs: 8210266876799, nanos: 999_999_999 });
            self.authkey = Some(authkey);
            self.authkey_expires_at = Some(text);
            assert(key_stored(old(self)@, self@, authkey@, expiry_after(now)));
        }
    }
}

} // verus!
