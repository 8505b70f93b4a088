//! Parsed driver settings, dialect-scoped. The describe core receives this
//! object already parsed and never mutates it; an unrecognized driver key
//! has already failed at configuration time before reaching the core.

use vstd::prelude::*;
use vstd::string::StringExecFns;
use crate::description::string_eq;
use crate::error::DescribeFailure;

verus! {

/// Declares the key/value map of the TOML data model, so that its values
/// can pass through this library opaquely.
#[verifier::external_type_specification]
#[verifier::external_body]
#[verifier::reject_recursive_types(K)]
#[verifier::reject_recursive_types(V)]
pub struct ExTomlMap<K, V>(toml::map::Map<K, V>);

/// Declares the TOML value type, the payload of a driver's settings table.
#[verifier::external_type_specification]
#[verifier::external_body]
pub struct ExTomlValue(toml::Value);

/// Configuration for the PostgreSQL driver. No parameter is defined yet;
/// the key exists so that parsing validates it.
#[derive(Clone, Copy, Debug, PartialEq, Eq, Structural)]
pub struct PgConfig {
}

impl Default for PgConfig {
    fn default() -> (r: PgConfig)
        ensures
            r == (PgConfig {  }),
    {
        PgConfig {  }
    }
}

/// Some position of `s` holds the driver name `k`.
pub open spec fn drivers_has_key(s: Seq<(String, toml::Table)>, k: Seq<char>) -> bool {
    exists|i: int| 0 <= i < s.len() && (#[trigger] s[i]).0@ == k
}

/// The position of `s` that holds the driver name `k`.
pub open spec fn drivers_key_index(s: Seq<(String, toml::Table)>, k: Seq<char>) -> int {
    choose|i: int| 0 <= i < s.len() && (#[trigger] s[i]).0@ == k
}

/// No driver name twice.
pub open spec fn driver_keys_unique(s: Seq<(String, toml::Table)>) -> bool {
    forall|i: int, j: int| 0 <= i < j < s.len() ==> (#[trigger] s[i]).0@ != (#[trigger] s[j]).0@
}

/// The name-to-table map that a sequence of driver entries denotes.
pub open spec fn drivers_model(s: Seq<(String, toml::Table)>) -> Map<Seq<char>, toml::Table> {
    Map::new(|k: Seq<char>| drivers_has_key(s, k), |k| s[drivers_key_index(s, k)].1)
}

proof fn lemma_drivers_lookup(s: Seq<(String, toml::Table)>, i: int)
    requires
        driver_keys_unique(s),
        0 <= i < s.len(),
    ensures
        drivers_model(s).contains_key(s[i].0@),
        drivers_model(s)[s[i].0@] == s[i].1,
{
    let k = s[i].0@;
    assert(drivers_has_key(s, k));
    let j = drivers_key_index(s, k);
    assert(0 <= j < s.len() && s[j].0@ == k);
    assert(j == i);
}

proof fn lemma_drivers_push(s: Seq<(String, toml::Table)>, name: String, table: toml::Table)
    requires
        driver_keys_unique(s),
        !drivers_has_key(s, name@),
    ensures
        driver_keys_unique(s.push((name, table))),
        drivers_model(s.push((name, table))) == drivers_model(s).insert(name@, table),
{
    let s2 = s.push((name, table));
    assert forall|i: int, j: int| 0 <= i < j < s2.len() implies (#[trigger] s2[i]).0@
        != (#[trigger] s2[j]).0@ by {
        if j == s.len() {
            assert(s2[i] == s[i]);
        } else {
            assert(s2[i] == s[i] && s2[j] == s[j]);
        }
    }
    let m2 = drivers_model(s2);
    let target = drivers_model(s).insert(name@, table);
    assert forall|k: Seq<char>| #[trigger] m2.contains_key(k) implies target.contains_key(k)
        && m2[k] == target[k] by {
        let i = drivers_key_index(s2, k);
        assert(0 <= i < s2.len() && s2[i].0@ == k);
        lemma_drivers_lookup(s2, i);
        if i == s.len() {
            assert(k == name@);
        } else {
            assert(s2[i] == s[i]);
            lemma_drivers_lookup(s, i);
            assert(k != name@);
        }
    }
    assert forall|k: Seq<char>| #[trigger] target.contains_key(k) implies m2.contains_key(k) by {
        if k == name@ {
            assert(s2[s.len() as int].0@ == k);
        } else {
            let i = drivers_key_index(s, k);
            assert(0 <= i < s.len() && s[i].0@ == k);
            assert(s2[i].0@ == k);
        }
    }
    assert(m2 =~= target);
}

/// Configuration for external database drivers: one opaque TOML table per
/// driver name.
pub struct ExternalDriverConfig {
    by_name: Vec<(String, toml::Table)>,
}

impl View for ExternalDriverConfig {
    type V = Map<Seq<char>, toml::Table>;

    closed spec fn view(&self) -> Map<Seq<char>, toml::Table> {
        drivers_model(self.by_name@)
    }
}

impl ExternalDriverConfig {
    /// At most one table per driver name.
    pub closed spec fn wf(&self) -> bool {
        driver_keys_unique(self.by_name@)
    }

    /// No driver configured.
    pub fn new() -> (c: ExternalDriverConfig)
        ensures
            c.wf(),
            c@ == Map::<Seq<char>, toml::Table>::empty(),
    {
        let c = ExternalDriverConfig { by_name: Vec::new() };
        proof {
            assert(c@ =~= Map::<Seq<char>, toml::Table>::empty());
        }
        c
    }

    /// Record the settings table of one driver, not seen before.
    pub fn insert_driver(&mut self, name: String, table: toml::Table)
        requires
            old(self).wf(),
            !old(self)@.contains_key(name@),
        ensures
            final(self).wf(),
            final(self)@ == old(self)@.insert(name@, table),
    {
        proof {
            if drivers_has_key(self.by_name@, name@) {
                let i = drivers_key_index(self.by_name@, name@);
                lemma_drivers_lookup(self.by_name@, i);
            }
            lemma_drivers_push(self.by_name@, name, table);
        }
        self.by_name.push((name, table));
    }

    /// The raw settings table recorded for a driver name, if any.
    pub fn get_table(&self, name: &str) -> (r: Option<&toml::Table>)
        requires
            self.wf(),
        ensures
            match r {
                Some(t) => self@.contains_key(name@) && self@[name@] == *t,
                None => !self@.contains_key(name@),
            },
    {
        let owned: String = name.to_owned();
        let mut i: usize = 0;
        while i < self.by_name.len()
            invariant
                i <= self.by_name@.len(),
                self.wf(),
                owned@ == name@,
                forall|j: int| 0 <= j < i ==> (#[trigger] self.by_name@[j]).0@ != name@,
            decreases self.by_name@.len() - i,
        {
            let pair = &self.by_name[i];
            if string_eq(&pair.0, &owned) {
                proof {
                    lemma_drivers_lookup(self.by_name@, i as int);
                }
                return Some(&self.by_name[i].1);
            }
            i = i + 1;
        }
        None
    }

    /// The recorded driver entries, in insertion order.
    pub closed spec fn entries_seq(&self) -> Seq<(String, toml::Table)> {
        self.by_name@
    }

    /// The recorded driver entries, in insertion order.
    pub fn entries(&self) -> (r: &Vec<(String, toml::Table)>)
        ensures
            r@ == self.entries_seq(),
    {
        &self.by_name
    }

    /// Parse the settings for a driver name into `T`: `Ok(None)` exactly
    /// when no table is recorded under the name; otherwise `T`'s own
    /// deserializer decides between the parsed value and a configuration
    /// failure carrying its diagnostic.
    pub fn try_parse<T: serde::de::DeserializeOwned>(&self, name: &str) -> (r: Result<
        Option<T>,
        DescribeFailure,
    >)
        requires
            self.wf(),
        ensures
            !self@.contains_key(name@) ==> (r matches Ok(o) && o is None),
            self@.contains_key(name@) ==> ((r matches Ok(o) && o is Some) || (r matches Err(e)
                && e is Configuration)),
    {
        match self.get_table(name) {
            None => Ok(None),
            Some(table) => match parse_driver_table::<T>(table) {
                Ok(v) => Ok(Some(v)),
                Err(message) => Err(DescribeFailure::Configuration(message)),
            },
        }
    }
}

impl Default for ExternalDriverConfig {
    fn default() -> (r: ExternalDriverConfig)
        ensures
            r.wf(),
            r@ == Map::<Seq<char>, toml::Table>::empty(),
    {
        ExternalDriverConfig::new()
    }
}

/// Relies on `toml::Table::try_into`: interprets the table as a `T` through
/// `T`'s serde deserializer, whose acceptance or rejection is its own
/// decision; on rejection, the error's diagnostic text is returned.
#[verifier::external_body]
fn parse_driver_table<T: serde::de::DeserializeOwned>(table: &toml::Table) -> (r: Result<
    T,
    String,
>) {
    match table.clone().try_into() {
        Ok(v) => Ok(v),
        Err(e) => Err(e.to_string()),
    }
}

/// Configuration for specific database drivers, as the build-time tooling
/// parses it: the PostgreSQL section and the tables of external drivers.
pub struct Config {
    pub postgres: PgConfig,
    pub external: ExternalDriverConfig,
}

impl Config {
    /// Sanity of the driver tables.
    pub open spec fn wf(&self) -> bool {
        self.external.wf()
    }

    /// The empty configuration: no setting given.
    pub fn new() -> (c: Config)
        ensures
            c.wf(),
            c.external@ == Map::<Seq<char>, toml::Table>::empty(),
            c.postgres == (PgConfig {  }),
    {
        Config { postgres: PgConfig {  }, external: ExternalDriverConfig::new() }
    }
}

impl Default for Config {
    fn default() -> (c: Config)
        ensures
            c.wf(),
            c.external@ == Map::<Seq<char>, toml::Table>::empty(),
            c.postgres == (PgConfig {  }),
    {
        Config::new()
    }
}

} // verus!
