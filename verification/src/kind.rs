//! Dialect identity: which supported database kind a connection URL names.

use vstd::prelude::*;
use vstd::string::StrSliceExecFns;
use vstd::string::StringExecFns;
use crate::error::DescribeFailure;

verus! {

/// Identity tag of a supported database kind. One description cache exists
/// per kind compiled into the build; the set of kinds is closed.
#[derive(Clone, Copy, Debug, PartialEq, Eq, Structural)]
pub enum AnyKind {
    Postgres,
}

/// `p` is an exact leading segment of `s`.
pub open spec fn has_prefix(s: Seq<char>, p: Seq<char>) -> bool {
    p.len() <= s.len() && s.subrange(0, p.len() as int) == p
}

/// Whether `p` is an exact leading segment of `s`, character by character.
pub fn str_has_prefix(s: &str, p: &str) -> (r: bool)
    ensures
        r == has_prefix(s@, p@),
{
    let n = p.unicode_len();
    if n > s.unicode_len() {
        return false;
    }
    let mut i: usize = 0;
    while i < n
        invariant
            i <= n,
            n == p@.len(),
            n <= s@.len(),
            forall|j: int| 0 <= j < i ==> s@[j] == p@[j],
        decreases n - i,
    {
        if s.get_char(i) != p.get_char(i) {
            proof {
                assert(s@.subrange(0, n as int)[i as int] != p@[i as int]);
            }
            return false;
        }
        i = i + 1;
    }
    proof {
        assert(s@.subrange(0, n as int) =~= p@);
    }
    true
}

impl AnyKind {
    /// The kind a database URL names, decided by its scheme alone: a URL
    /// beginning with `postgres:` or `postgresql:` names PostgreSQL; any
    /// other URL is a configuration failure.
    pub fn from_url(url: &str) -> (r: Result<AnyKind, DescribeFailure>)
        ensures
            r matches Ok(k) ==> k == AnyKind::Postgres && (has_prefix(url@, "postgres:"@)
                || has_prefix(url@, "postgresql:"@)),
            r is Err ==> !has_prefix(url@, "postgres:"@) && !has_prefix(url@, "postgresql:"@),
            r matches Err(e) ==> (e matches DescribeFailure::Configuration(m) && m@
                == unrecognized_url_text(url@)),
    {
        if str_has_prefix(url, "postgres:") || str_has_prefix(url, "postgresql:") {
            Ok(AnyKind::Postgres)
        } else {
            Err(DescribeFailure::Configuration(unrecognized_url_message(url)))
        }
    }
}

impl core::str::FromStr for AnyKind {
    type Err = DescribeFailure;

    fn from_str(url: &str) -> Result<AnyKind, DescribeFailure> {
        AnyKind::from_url(url)
    }
}

/// What one dialect supplies at build-configuration time: its identity and
/// the paths of its database and row types, as the emitted bindings name
/// them. The describe capability itself is registered by the driver that
/// owns the wire protocol.
pub struct DialectRegistration {
    pub kind: AnyKind,
    pub database_path: String,
    pub row_path: String,
}

/// The PostgreSQL dialect's registration.
pub fn postgres_registration() -> (r: DialectRegistration)
    ensures
        r.kind == AnyKind::Postgres,
        r.database_path@ == "sqlx::postgres::Postgres"@,
        r.row_path@ == "sqlx::postgres::PgRow"@,
{
    DialectRegistration {
        kind: AnyKind::Postgres,
        database_path: String::from_str("sqlx::postgres::Postgres"),
        row_path: String::from_str("sqlx::postgres::PgRow"),
    }
}

/// The exact diagnostic text for a URL with no recognized scheme: the
/// offending URL, quoted, after a fixed prefix.
pub open spec fn unrecognized_url_text(url: Seq<char>) -> Seq<char> {
    "unrecognized database url: \""@ + url + "\""@
}

/// The diagnostic text for a URL with no recognized scheme: a fixed prefix
/// followed by the URL itself in quotes.
pub fn unrecognized_url_message(url: &str) -> (m: String)
    ensures
        m@ == unrecognized_url_text(url@),
{
    let mut m = String::from_str("unrecognized database url: \"");
    m.append(url);
    m.append("\"");
    m
}

} // verus!
