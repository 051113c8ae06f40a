//! The configuration file: what its sections hold, and what stands in for what is not written.

use vstd::prelude::*;

use crate::text::{
    law_trimmed_drops_outer_slashes_only, law_trimmed_ignores_slashes, law_trimmed_is_clean,
    lemma_prefixes_order_by_bytes, same_text, trim_slashes, trimmed,
};

verus! {

/// How many seconds a day has.
pub const SECS_PER_DAY: i64 = 86_400;

/// How many days an untagged manifest is kept when the configuration does not say.
pub const DEFAULT_RETENTION_DAYS: u32 = 7;

/// Which images may be run in the cluster.
#[derive(Clone, Debug)]
pub struct ImageValidationConfig {
    pub default: String,
    pub allow: Vec<String>,
    pub deny: Vec<String>,
}

/// The whole configuration, with every default filled in.
#[derive(Clone, Debug)]
pub struct ConfigFile {
    pub registry_proxies: RegistryProxiesConfig,
    pub image_validation: Option<ImageValidationConfig>,
    pub garbage_collection: GarbageCollectionConfig,
}

/// What the registry is started with.
#[derive(Clone, Debug)]
pub struct TrowConfig {
    pub config_file: ConfigFile,
}

#[derive(Clone, Debug)]
pub struct GarbageCollectionConfig {
    /// How long an untagged manifest must have gone untouched before it is reclaimed.
    ///
    /// Untagged manifests are still pullable by digest, so this is the window in which a
    /// digest-pinned deployment that never re-pulls (and therefore never warms the manifest's
    /// config blob) is protected. Raise it if you pin images by digest and roll nodes rarely.
    ///
    /// A configuration that was read holds at least 1: `0` reads as "off" but would mean the
    /// opposite, collecting every untagged manifest on the next pass.
    pub untagged_manifest_retention_days: u32,
}

/// The upstream registries that may be proxied.
#[derive(Clone, Debug)]
pub struct RegistryProxyConfigs(pub Vec<SingleRegistryProxyConfig>);

#[derive(Clone, Debug)]
pub struct RegistryProxiesConfig {
    pub registries: RegistryProxyConfigs,
    pub offline: bool,
    /// The storage limit in bytes, if there is one.
    pub max_size: Option<i64>,
}

#[derive(Clone, Debug, PartialEq)]
pub struct SingleRegistryProxyConfig {
    /// What containerd calls "namespace" (ghcr.io, docker.io, ...). It may be empty.
    pub host: String,
    /// Optional path prefix for scoped credential matching.
    /// Allows different credentials for different projects on the same registry host.
    /// Example: "system" matches repos like "system/app", "system/worker".
    /// When several entries match the same host, the longest matching prefix wins.
    pub path_prefix: Option<String>,
    /// Use HTTP.
    pub insecure: bool,
    pub username: Option<String>,
    pub password: Option<String>,
}

/// Why a configuration is refused.
#[derive(Clone, Copy, Debug, PartialEq, Eq, Structural)]
pub enum ConfigError {
    /// `untagged_manifest_retention_days` is 0.
    ZeroRetention,
}

/// The configuration as it is written.
#[derive(Clone, Debug)]
pub struct RawConfigFile {
    /// `None` where the section is null. The key has to be there: a file without it is refused
    /// before it comes to this.
    pub registry_proxies: Option<RawRegistryProxies>,
    /// `None` where the section is left out or null.
    pub image_validation: Option<ImageValidationConfig>,
    /// `None` where the section is left out or null.
    pub garbage_collection: Option<RawGarbageCollection>,
}

/// The `garbage_collection` section as it is written: `None` where the key is left out.
#[derive(Clone, Debug)]
pub struct RawGarbageCollection {
    pub untagged_manifest_retention_days: Option<u32>,
}

/// The `registry_proxies` section as it is written: `None` where a key is left out.
#[derive(Clone, Debug)]
pub struct RawRegistryProxies {
    pub registries: Option<Vec<RawRegistryProxy>>,
    pub offline: Option<bool>,
    pub max_size: Option<i64>,
}

/// One entry of `registries` as it is written: `None` where a key is left out.
#[derive(Clone, Debug)]
pub struct RawRegistryProxy {
    pub host: String,
    pub path_prefix: Option<String>,
    pub insecure: Option<bool>,
    pub username: Option<String>,
    pub password: Option<String>,
}

impl ConfigError {
    /// What the user is told.
    pub fn message(&self) -> (r: String)
        ensures
            r@ == "untagged_manifest_retention_days must be at least 1: 0 does not disable collection, it collects every untagged manifest on the next pass"@,
    {
        "untagged_manifest_retention_days must be at least 1: 0 does not disable collection, it collects every untagged manifest on the next pass".to_owned()
    }
}

pub fn default_untagged_manifest_retention_days() -> (days: u32)
    ensures
        days == DEFAULT_RETENTION_DAYS,
{
    DEFAULT_RETENTION_DAYS
}

/// Accepts a retention that was written down, unless it is 0.
pub fn de_retention_days(days: u32) -> (r: Result<u32, ConfigError>)
    ensures
        days == 0 ==> r == Err::<u32, ConfigError>(ConfigError::ZeroRetention),
        days > 0 ==> r == Ok::<u32, ConfigError>(days),
{
    if days == 0 {
        return Err(ConfigError::ZeroRetention);
    }
    Ok(days)
}

/// A section that is null, or left out where it may be, takes its default.
pub fn de_unwrap_or_default<T: Default>(section: Option<T>) -> (r: T)
    ensures
        section matches Some(x) ==> r == x,
        section is None ==> call_ensures(T::default, (), r),
{
    match section {
        Some(x) => x,
        None => T::default(),
    }
}

/// What a path prefix means: slashes around it do not count, and an empty one is none.
pub open spec fn normalized(prefix: Option<Seq<char>>) -> Option<Seq<char>> {
    match prefix {
        Some(s) => if trimmed(s).len() == 0 {
            None
        } else {
            Some(trimmed(s))
        },
        None => None,
    }
}

/// Brings a path prefix as it was written into the form that repositories are matched against.
pub fn normalize_path_prefix(prefix: Option<String>) -> (r: Option<String>)
    ensures
        r.deep_view() == normalized(prefix.deep_view()),
        r is None <==> (prefix matches Some(s) ==> forall|i: int|
            0 <= i < s@.len() ==> #[trigger] s@[i] == '/'),
        r matches Some(p) ==> p@.len() > 0 && p@.first() != '/' && p@.last() != '/',
        r matches Some(p) ==> prefix is Some && exists|from: int, to: int|
            0 <= from <= to <= prefix->0@.len() && p@ == #[trigger] prefix->0@.subrange(from, to)
                && forall|i: int|
                0 <= i < from || to <= i < prefix->0@.len() ==> #[trigger] prefix->0@[i] == '/',
{
    match prefix {
        Some(s) => {
            proof {
                law_trimmed_is_clean(s@);
                let _ = law_trimmed_drops_outer_slashes_only(s@);
            }
            let t = trim_slashes(s.as_str());
            if t.as_str().is_empty() {
                None
            } else {
                Some(t)
            }
        },
        None => None,
    }
}

impl GarbageCollectionConfig {
    /// The retention window in seconds.
    pub fn untagged_manifest_retention_secs(&self) -> (secs: i64)
        ensures
            secs == self.untagged_manifest_retention_days * SECS_PER_DAY,
            secs == self.untagged_manifest_retention_days * 86_400,
    {
        self.untagged_manifest_retention_days as i64 * SECS_PER_DAY
    }
}

impl Default for GarbageCollectionConfig {
    fn default() -> (r: Self)
        ensures
            r.untagged_manifest_retention_days == DEFAULT_RETENTION_DAYS,
    {
        GarbageCollectionConfig {
            untagged_manifest_retention_days: default_untagged_manifest_retention_days(),
        }
    }
}

impl Default for RegistryProxyConfigs {
    fn default() -> (r: Self)
        ensures
            r@ == Seq::<SingleRegistryProxyConfig>::empty(),
    {
        RegistryProxyConfigs(Vec::new())
    }
}

impl Default for RegistryProxiesConfig {
    fn default() -> (r: Self)
        ensures
            r.registries@ == Seq::<SingleRegistryProxyConfig>::empty(),
            r.offline,
            r.max_size is None,
    {
        RegistryProxiesConfig {
            registries: RegistryProxyConfigs(Vec::new()),
            offline: true,
            max_size: None,
        }
    }
}

impl Default for SingleRegistryProxyConfig {
    fn default() -> (r: Self)
        ensures
            r.host@ == Seq::<char>::empty(),
            r.path_prefix is None,
            !r.insecure,
            r.username is None,
            r.password is None,
    {
        SingleRegistryProxyConfig {
            host: String::new(),
            path_prefix: None,
            insecure: false,
            username: None,
            password: None,
        }
    }
}

impl Default for ConfigFile {
    fn default() -> (r: Self)
        ensures
            r.registry_proxies.registries@ == Seq::<SingleRegistryProxyConfig>::empty(),
            r.registry_proxies.offline,
            r.registry_proxies.max_size is None,
            r.image_validation is None,
            r.garbage_collection.untagged_manifest_retention_days == DEFAULT_RETENTION_DAYS,
    {
        ConfigFile {
            registry_proxies: RegistryProxiesConfig::default(),
            image_validation: None,
            garbage_collection: GarbageCollectionConfig::default(),
        }
    }
}

impl View for RegistryProxyConfigs {
    type V = Seq<SingleRegistryProxyConfig>;

    open spec fn view(&self) -> Seq<SingleRegistryProxyConfig> {
        self.0@
    }
}

impl From<Vec<SingleRegistryProxyConfig>> for RegistryProxyConfigs {
    fn from(vec: Vec<SingleRegistryProxyConfig>) -> (r: Self) {
        RegistryProxyConfigs(vec)
    }
}

impl vstd::std_specs::convert::FromSpecImpl<Vec<SingleRegistryProxyConfig>> for RegistryProxyConfigs {
    open spec fn obeys_from_spec() -> bool {
        true
    }

    open spec fn from_spec(vec: Vec<SingleRegistryProxyConfig>) -> Self {
        RegistryProxyConfigs(vec)
    }
}

/// Whether a path prefix takes in a repository: the repository itself, or anything below it.
/// "org" takes in "org" and "org/toto", but not "org_b/toto".
pub open spec fn covers(prefix: Seq<char>, repo: Seq<char>) -> bool {
    ||| repo == prefix
    ||| prefix.is_prefix_of(repo) && prefix.len() < repo.len() && repo[prefix.len() as int] == '/'
}

impl SingleRegistryProxyConfig {
    /// The part of the path that this entry is limited to; empty if it is not limited.
    pub open spec fn scope(self) -> Seq<char> {
        match self.path_prefix {
            Some(p) => p@,
            None => Seq::empty(),
        }
    }

    /// Whether this entry speaks of `repo` on `registry`.
    pub open spec fn applies_to(self, registry: Seq<char>, repo: Seq<char>) -> bool {
        &&& self.host@ == registry
        &&& self.path_prefix matches Some(p) ==> covers(p@, repo)
    }

    /// Whether this entry speaks of `repo` on `registry`.
    fn applies(&self, registry: &str, repo: &str) -> (r: bool)
        ensures
            r == self.applies_to(registry@, repo@),
    {
        if !same_text(self.host.as_str(), registry) {
            return false;
        }
        match &self.path_prefix {
            None => true,
            Some(prefix) => {
                let n: usize = prefix.as_str().unicode_len();
                let len: usize = repo.unicode_len();
                if n > len {
                    return false;
                }
                if !same_text(repo.substring_char(0, n), prefix.as_str()) {
                    proof {
                        if covers(prefix@, repo@) {
                            assert(repo@.subrange(0, n as int) =~= prefix@);
                        }
                    }
                    return false;
                }
                assert(repo@.subrange(0, n as int) == prefix@);
                if n == len {
                    assert(repo@ =~= repo@.subrange(0, n as int));
                    return true;
                }
                assert(prefix@.is_prefix_of(repo@));
                repo.get_char(n) == '/'
            },
        }
    }

    /// How many bytes the scope takes up.
    fn scope_len(&self) -> (n: usize)
        ensures
            n == vstd::utf8::encode_utf8(self.scope()).len(),
    {
        match &self.path_prefix {
            Some(p) => p.as_str().as_bytes().len(),
            None => 0,
        }
    }
}

impl RegistryProxyConfigs {
    /// Whether entry `i` is the one to use for `repo` on `registry`: it applies, no entry that
    /// applies has a longer scope, and no later one has a scope as long.
    pub open spec fn is_best(self, registry: Seq<char>, repo: Seq<char>, i: int) -> bool {
        &&& 0 <= i < self@.len()
        &&& self@[i].applies_to(registry, repo)
        &&& forall|j: int|
            0 <= j < self@.len() && #[trigger] self@[j].applies_to(registry, repo) ==> {
                &&& self@[j].scope().len() <= self@[i].scope().len()
                &&& self@[j].scope().len() == self@[i].scope().len() ==> j <= i
            }
    }

    /// The entry to use for `repo` on `registry`.
    pub fn get_for<'a>(&'a self, registry: &str, repo: &str) -> (r: Option<
        &'a SingleRegistryProxyConfig,
    >)
        ensures
            r is None <==> forall|i: int|
                0 <= i < self@.len() ==> !(#[trigger] self@[i].applies_to(registry@, repo@)),
            r matches Some(proxy) ==> exists|i: int| #[trigger]
                self.is_best(registry@, repo@, i) && *proxy == self@[i],
            forall|i: int|
                #![trigger self.0@[i]]
                0 <= i < self.0@.len() && self.0@[i].host@ == registry@ && (
                self.0@[i].path_prefix matches Some(p) ==> repo@ == p@ || p@.push(
                    '/',
                ).is_prefix_of(repo@)) ==> r is Some,
            r matches Some(proxy) ==> {
                &&& proxy.host@ == registry@
                &&& proxy.path_prefix matches Some(p) ==> repo@ == p@ || p@.push(
                    '/',
                ).is_prefix_of(repo@)
            },
            r matches Some(proxy) ==> exists|i: int|
                0 <= i < self.0@.len() && #[trigger] self.0@[i] == *proxy,
            forall|i: int, p: String|
                #![trigger self.0@[i], p@]
                0 <= i < self.0@.len() && self.0@[i].host@ == registry@ && self.0@[i].path_prefix
                    == Some(p) && p@.len() > 0 && (repo@ == p@ || p@.push('/').is_prefix_of(repo@))
                    ==> r is Some && r->0.path_prefix is Some && r->0.path_prefix->0@.len()
                    >= p@.len(),
    {
        let n: usize = self.0.len();
        let mut best: Option<usize> = None;
        let mut i: usize = 0;
        while i < n
            invariant
                i <= n,
                n == self@.len(),
                best is None ==> forall|j: int|
                    0 <= j < i ==> !(#[trigger] self@[j].applies_to(registry@, repo@)),
                best matches Some(b) ==> {
                    &&& b < i
                    &&& self@[b as int].applies_to(registry@, repo@)
                    &&& forall|j: int|
                        0 <= j < i && #[trigger] self@[j].applies_to(registry@, repo@) ==> {
                            &&& self@[j].scope().len() <= self@[b as int].scope().len()
                            &&& self@[j].scope().len() == self@[b as int].scope().len() ==> j <= b
                        }
                },
            decreases n - i,
        {
            if self.0[i].applies(registry, repo) {
                let longest = match best {
                    Some(b) => {
                        proof {
                            lemma_scope_is_prefix(self@[i as int], registry@, repo@);
                            lemma_scope_is_prefix(self@[b as int], registry@, repo@);
                            lemma_prefixes_order_by_bytes(
                                self@[b as int].scope(),
                                self@[i as int].scope(),
                                repo@,
                            );
                        }
                        self.0[b].scope_len() <= self.0[i].scope_len()
                    },
                    None => true,
                };
                if longest {
                    best = Some(i);
                }
            }
            i = i + 1;
        }
        match best {
            Some(b) => {
                assert(self.is_best(registry@, repo@, b as int));
                proof {
                    law_host_and_prefix_decide(self@[b as int], registry@, repo@);
                    assert forall|i: int, p: String|
                        #![trigger self.0@[i], p@]
                        0 <= i < self.0@.len() && self.0@[i].host@ == registry@
                            && self.0@[i].path_prefix == Some(p) && p@.len() > 0 && (repo@ == p@
                            || p@.push('/').is_prefix_of(repo@)) implies self.0@[b as int].path_prefix is Some
                        && self.0@[b as int].path_prefix->0@.len() >= p@.len() by {
                        law_best_entry_is_longest_and_last(*self, registry@, repo@, b as int, i);
                    }
                }
                Some(&self.0[b])
            },
            None => {
                proof {
                    assert forall|i: int| #![trigger self.0@[i]] 0 <= i < self.0@.len() implies !(
                    self.0@[i].host@ == registry@ && (self.0@[i].path_prefix matches Some(p) ==> repo@
                        == p@ || p@.push('/').is_prefix_of(repo@))) by {
                        law_host_and_prefix_decide(self@[i], registry@, repo@);
                        assert(!self@[i].applies_to(registry@, repo@));
                    }
                }
                None
            },
        }
    }
}

proof fn lemma_scope_is_prefix(proxy: SingleRegistryProxyConfig, registry: Seq<char>, repo: Seq<char>)
    requires
        proxy.applies_to(registry, repo),
    ensures
        proxy.scope().is_prefix_of(repo),
{
}

impl RawGarbageCollection {
    /// Whether the section is accepted: anything but a retention of 0 is.
    pub open spec fn is_accepted(self) -> bool {
        self.untagged_manifest_retention_days != Some(0u32)
    }

    /// Fills in the default.
    pub fn resolve(self) -> (r: Result<GarbageCollectionConfig, ConfigError>)
        ensures
            r is Ok <==> self.is_accepted(),
            r is Err <==> self.untagged_manifest_retention_days == Some(0u32),
            r matches Err(e) ==> e == ConfigError::ZeroRetention,
            self.untagged_manifest_retention_days matches Some(days) ==> days > 0 ==> r is Ok
                && r->Ok_0.untagged_manifest_retention_days == days,
            r matches Ok(gc) ==> gc.untagged_manifest_retention_days == (
            match self.untagged_manifest_retention_days {
                Some(days) => days,
                None => DEFAULT_RETENTION_DAYS,
            }),
    {
        match self.untagged_manifest_retention_days {
            Some(days) => match de_retention_days(days) {
                Ok(days) => Ok(GarbageCollectionConfig { untagged_manifest_retention_days: days }),
                Err(e) => Err(e),
            },
            None => Ok(
                GarbageCollectionConfig {
                    untagged_manifest_retention_days: default_untagged_manifest_retention_days(),
                },
            ),
        }
    }
}

impl RawRegistryProxy {
    /// Whether `proxy` is what the entry means.
    pub open spec fn means(self, proxy: SingleRegistryProxyConfig) -> bool {
        &&& proxy.host == self.host
        &&& proxy.path_prefix.deep_view() == normalized(self.path_prefix.deep_view())
        &&& proxy.insecure == (self.insecure == Some(true))
        &&& proxy.username == self.username
        &&& proxy.password == self.password
    }

    /// Fills in the defaults and normalizes the path prefix.
    pub fn resolve(self) -> (proxy: SingleRegistryProxyConfig)
        ensures
            self.means(proxy),
            proxy.host@ == self.host@,
            proxy.insecure <==> self.insecure == Some(true),
            proxy.username == self.username,
            proxy.password == self.password,
            proxy.path_prefix is None <==> (self.path_prefix matches Some(s) ==> forall|i: int|
                0 <= i < s@.len() ==> #[trigger] s@[i] == '/'),
    {
        SingleRegistryProxyConfig {
            host: self.host,
            path_prefix: normalize_path_prefix(self.path_prefix),
            insecure: match self.insecure {
                Some(insecure) => insecure,
                None => false,
            },
            username: self.username,
            password: self.password,
        }
    }
}

impl RawRegistryProxies {
    /// The entries as they are written.
    pub open spec fn entries(self) -> Seq<RawRegistryProxy> {
        match self.registries {
            Some(registries) => registries@,
            None => Seq::empty(),
        }
    }

    /// Whether `proxies` is what the section means.
    pub open spec fn means(self, proxies: RegistryProxiesConfig) -> bool {
        &&& proxies.registries@.len() == self.entries().len()
        &&& forall|i: int|
            0 <= i < self.entries().len() ==> (#[trigger] self.entries()[i]).means(
                proxies.registries@[i],
            )
        &&& proxies.offline == (self.offline == Some(true))
        &&& proxies.max_size == self.max_size
    }

    /// Fills in the defaults.
    pub fn resolve(self) -> (proxies: RegistryProxiesConfig)
        ensures
            self.means(proxies),
            self.registries matches Some(written) ==> proxies.registries.0@.len() == written@.len(),
            self.registries is None ==> proxies.registries.0@.len() == 0,
            proxies.offline <==> self.offline == Some(true),
            proxies.max_size == self.max_size,
    {
        let ghost all = self.entries();
        let written = match self.registries {
            Some(registries) => registries,
            None => Vec::new(),
        };
        let mut registries: Vec<SingleRegistryProxyConfig> = Vec::new();
        assert(written@ =~= all);
        for entry in it: written
            invariant
                it.seq() == all,
                registries@.len() == it.index(),
                forall|i: int| 0 <= i < it.index() ==> (#[trigger] all[i]).means(registries@[i]),
        {
            registries.push(entry.resolve());
        }
        RegistryProxiesConfig {
            registries: RegistryProxyConfigs(registries),
            offline: match self.offline {
                Some(offline) => offline,
                None => false,
            },
            max_size: self.max_size,
        }
    }
}

impl RawConfigFile {
    /// Whether the configuration is accepted: anything but a retention of 0 is.
    pub open spec fn is_accepted(self) -> bool {
        self.garbage_collection matches Some(gc) ==> gc.is_accepted()
    }

    /// How many days an untagged manifest is kept.
    pub open spec fn retention_days(self) -> u32 {
        match self.garbage_collection {
            Some(gc) => match gc.untagged_manifest_retention_days {
                Some(days) => days,
                None => DEFAULT_RETENTION_DAYS,
            },
            None => DEFAULT_RETENTION_DAYS,
        }
    }

    /// Reads the configuration: fills in every default, or says why it is refused. Where the
    /// `registry_proxies` section is null the registry is offline; otherwise it is only if the
    /// section says so.
    pub fn resolve(self) -> (r: Result<ConfigFile, ConfigError>)
        ensures
            r is Ok <==> self.is_accepted(),
            r is Err <==> self.garbage_collection is Some
                && self.garbage_collection->0.untagged_manifest_retention_days == Some(0u32),
            r matches Err(e) ==> e == ConfigError::ZeroRetention,
            self.garbage_collection matches Some(gc) ==> gc.untagged_manifest_retention_days
                matches Some(days) ==> days > 0 ==> r is Ok
                && r->Ok_0.garbage_collection.untagged_manifest_retention_days == days,
            r matches Ok(config) ==> {
                &&& self.registry_proxies matches Some(raw) ==> raw.means(config.registry_proxies)
                &&& self.registry_proxies is None ==> {
                    &&& config.registry_proxies.registries@.len() == 0
                    &&& config.registry_proxies.offline
                    &&& config.registry_proxies.max_size is None
                }
                &&& config.image_validation == self.image_validation
                &&& config.garbage_collection.untagged_manifest_retention_days
                    == self.retention_days()
                &&& config.garbage_collection.untagged_manifest_retention_days >= 1
            },
    {
        let garbage_collection = match self.garbage_collection {
            Some(gc) => match gc.resolve() {
                Ok(gc) => Some(gc),
                Err(e) => {
                    return Err(e);
                },
            },
            None => None,
        };
        let registry_proxies = match self.registry_proxies {
            Some(proxies) => Some(proxies.resolve()),
            None => None,
        };
        Ok(
            ConfigFile {
                registry_proxies: de_unwrap_or_default(registry_proxies),
                image_validation: self.image_validation,
                garbage_collection: de_unwrap_or_default(garbage_collection),
            },
        )
    }
}

/// A path prefix is normalized once and for all, is never empty, and neither begins nor ends with a
/// slash.
pub proof fn law_normalized_is_clean(prefix: Option<Seq<char>>)
    ensures
        normalized(normalized(prefix)) == normalized(prefix),
        normalized(prefix) matches Some(s) ==> s.len() > 0 && s.first() != '/' && s.last() != '/',
{
    if let Some(s) = prefix {
        law_trimmed_is_clean(s);
    }
}

/// Slashes around a path prefix make no difference.
pub proof fn law_outer_slashes_do_not_count(prefix: Seq<char>)
    ensures
        normalized(Some(seq!['/'] + prefix)) == normalized(Some(prefix)),
        normalized(Some(prefix.push('/'))) == normalized(Some(prefix)),
{
    law_trimmed_ignores_slashes(prefix);
}

/// A path prefix takes in itself and what is below it, and nothing that merely begins alike.
pub proof fn law_prefix_ends_at_slash(prefix: Seq<char>, next: char, rest: Seq<char>)
    ensures
        covers(prefix, prefix),
        covers(prefix, prefix.push(next) + rest) <==> next == '/',
{
    let repo = prefix.push(next) + rest;
    assert(prefix.is_prefix_of(repo));
    assert(repo[prefix.len() as int] == next);
    assert(repo.len() > prefix.len());
}

/// There is at most one entry to use.
pub proof fn law_best_is_unique(proxies: RegistryProxyConfigs, registry: Seq<char>, repo: Seq<char>, i: int, j: int)
    requires
        proxies.is_best(registry, repo, i),
        proxies.is_best(registry, repo, j),
    ensures
        i == j,
{
    assert(proxies@[i].applies_to(registry, repo));
    assert(proxies@[j].applies_to(registry, repo));
}

/// An entry without a path prefix is used only where no entry with one applies.
pub proof fn law_unscoped_entry_is_fallback(proxies: RegistryProxyConfigs, registry: Seq<char>, repo: Seq<char>, i: int, j: int)
    requires
        proxies.is_best(registry, repo, i),
        proxies@[i].path_prefix is None,
        0 <= j < proxies@.len(),
        proxies@[j].path_prefix matches Some(p) && p@.len() > 0,
    ensures
        !proxies@[j].applies_to(registry, repo),
{
}

/// Whether an entry applies is decided by its host and its path prefix alone: the host is the
/// registry, and there is no prefix, or it is the repository, or the repository goes on with a slash
/// behind it.
pub proof fn law_host_and_prefix_decide(entry: SingleRegistryProxyConfig, registry: Seq<char>, repo: Seq<char>)
    ensures
        entry.applies_to(registry, repo) <==> entry.host@ == registry && (
        entry.path_prefix matches Some(p) ==> repo == p@ || p@.push('/').is_prefix_of(repo)),
{
    if let Some(p) = entry.path_prefix {
        let longer = p@.push('/');
        if covers(p@, repo) && repo != p@ {
            assert(longer =~= repo.subrange(0, longer.len() as int));
        }
        if longer.is_prefix_of(repo) {
            assert(longer == repo.subrange(0, longer.len() as int));
            assert(repo[p@.len() as int] == longer[p@.len() as int]);
            assert(p@ =~= repo.subrange(0, p@.len() as int)) by {
                assert(forall|k: int| 0 <= k < p@.len() ==> #[trigger] p@[k] == longer[k]);
            }
        }
    }
}

/// Two entries that differ in whether they are insecure, and in user name and password, apply to the
/// same repositories and are ranked the same.
pub proof fn law_credentials_do_not_decide(
    a: SingleRegistryProxyConfig,
    b: SingleRegistryProxyConfig,
    registry: Seq<char>,
    repo: Seq<char>,
)
    requires
        a.host@ == b.host@,
        a.path_prefix is Some <==> b.path_prefix is Some,
        a.path_prefix is Some ==> a.path_prefix->0@ == b.path_prefix->0@,
    ensures
        a.applies_to(registry, repo) == b.applies_to(registry, repo),
        a.scope() == b.scope(),
{
}

/// The entry to use is one that applies; any other one that applies has a shorter path prefix, or one
/// as long and stands before it.
pub proof fn law_best_entry_is_longest_and_last(
    proxies: RegistryProxyConfigs,
    registry: Seq<char>,
    repo: Seq<char>,
    i: int,
    j: int,
)
    requires
        proxies.is_best(registry, repo, i),
        0 <= j < proxies.0@.len(),
        proxies.0@[j].host@ == registry,
        proxies.0@[j].path_prefix matches Some(p) ==> repo == p@ || p@.push('/').is_prefix_of(repo),
    ensures
        0 <= i < proxies.0@.len(),
        proxies.0@[i].host@ == registry,
        proxies.0@[i].path_prefix matches Some(p) ==> repo == p@ || p@.push('/').is_prefix_of(repo),
        ({
            let used: nat = match proxies.0@[i].path_prefix {
                Some(p) => p@.len(),
                None => 0,
            };
            let other: nat = match proxies.0@[j].path_prefix {
                Some(p) => p@.len(),
                None => 0,
            };
            other < used || (other == used && j <= i)
        }),
{
    law_host_and_prefix_decide(proxies.0@[i], registry, repo);
    law_host_and_prefix_decide(proxies.0@[j], registry, repo);
    assert(proxies@[j].applies_to(registry, repo));
}

/// If an entry applies, there is one to use.
pub proof fn law_some_entry_is_used(proxies: RegistryProxyConfigs, registry: Seq<char>, repo: Seq<char>, i: int) -> (best: int)
    requires
        0 <= i < proxies.0@.len(),
        proxies.0@[i].host@ == registry,
        proxies.0@[i].path_prefix matches Some(p) ==> repo == p@ || p@.push('/').is_prefix_of(repo),
    ensures
        proxies.is_best(registry, repo, best),
{
    law_host_and_prefix_decide(proxies.0@[i], registry, repo);
    lemma_best_of_first(proxies, registry, repo, i, proxies@.len() as int)
}

proof fn lemma_best_of_first(
    proxies: RegistryProxyConfigs,
    registry: Seq<char>,
    repo: Seq<char>,
    i: int,
    n: int,
) -> (best: int)
    requires
        0 <= i < n <= proxies@.len(),
        proxies@[i].applies_to(registry, repo),
    ensures
        0 <= best < n,
        proxies@[best].applies_to(registry, repo),
        forall|j: int|
            0 <= j < n && #[trigger] proxies@[j].applies_to(registry, repo) ==> {
                &&& proxies@[j].scope().len() <= proxies@[best].scope().len()
                &&& proxies@[j].scope().len() == proxies@[best].scope().len() ==> j <= best
            },
    decreases n,
{
    let last = n - 1;
    if !proxies@[last].applies_to(registry, repo) {
        lemma_best_of_first(proxies, registry, repo, i, last)
    } else if exists|k: int| 0 <= k < last && #[trigger] proxies@[k].applies_to(registry, repo) {
        let k = choose|k: int| 0 <= k < last && #[trigger] proxies@[k].applies_to(registry, repo);
        let best = lemma_best_of_first(proxies, registry, repo, k, last);
        if proxies@[best].scope().len() <= proxies@[last].scope().len() {
            last
        } else {
            best
        }
    } else {
        last
    }
}

/// A retention that is written down is the one that holds, whatever it is; only 0 is refused. Where
/// none is written, a week holds.
pub proof fn law_written_retention_holds(raw: RawConfigFile)
    ensures
        raw.garbage_collection matches Some(gc) ==> gc.untagged_manifest_retention_days matches Some(
            days,
        ) ==> raw.retention_days() == days && raw.is_accepted() == (days != 0),
        raw.garbage_collection matches Some(gc) ==> gc.untagged_manifest_retention_days is None
            ==> raw.retention_days() == 7 && raw.is_accepted(),
        raw.garbage_collection is None ==> raw.retention_days() == 7 && raw.is_accepted(),
{
}

/// What an entry means keeps its host, user name and password, is insecure only if that is written,
/// and is limited to the path that is written, without the slashes around it.
pub proof fn law_entry_is_read_as_written(raw: RawRegistryProxy, proxy: SingleRegistryProxyConfig)
    requires
        raw.means(proxy),
    ensures
        proxy.host@ == raw.host@,
        proxy.username == raw.username,
        proxy.password == raw.password,
        raw.insecure matches Some(insecure) ==> proxy.insecure == insecure,
        raw.insecure is None ==> !proxy.insecure,
        proxy.path_prefix is None <==> (raw.path_prefix matches Some(s) ==> forall|i: int|
            0 <= i < s@.len() ==> #[trigger] s@[i] == '/'),
        proxy.path_prefix matches Some(p) ==> p@.len() > 0 && p@.first() != '/' && p@.last() != '/',
        proxy.path_prefix matches Some(p) ==> raw.path_prefix is Some && exists|from: int, to: int|
            0 <= from <= to <= raw.path_prefix->0@.len() && p@
                == #[trigger] raw.path_prefix->0@.subrange(from, to) && forall|i: int|
                0 <= i < from || to <= i < raw.path_prefix->0@.len()
                    ==> #[trigger] raw.path_prefix->0@[i] == '/',
{
    if let Some(s) = raw.path_prefix {
        law_trimmed_is_clean(s@);
        let _ = law_trimmed_drops_outer_slashes_only(s@);
        assert(raw.path_prefix.deep_view() == Some(s@));
    }
    if let Some(p) = proxy.path_prefix {
        assert(proxy.path_prefix.deep_view() == Some(p@));
    }
}

/// What a section means has an entry for each that is written, in the same order, is offline only if
/// that is written, and has the limit that is written.
pub proof fn law_section_is_read_as_written(raw: RawRegistryProxies, proxies: RegistryProxiesConfig)
    requires
        raw.means(proxies),
    ensures
        raw.registries is None ==> proxies.registries.0@.len() == 0,
        raw.registries matches Some(written) ==> proxies.registries.0@.len() == written@.len(),
        raw.registries matches Some(written) ==> forall|i: int|
            0 <= i < written@.len() ==> (#[trigger] written@[i]).means(proxies.registries.0@[i]),
        raw.offline matches Some(offline) ==> proxies.offline == offline,
        raw.offline is None ==> !proxies.offline,
        proxies.max_size == raw.max_size,
{
    if let Some(written) = raw.registries {
        assert forall|i: int| 0 <= i < written@.len() implies (#[trigger] written@[i]).means(
            proxies.registries.0@[i],
        ) by {
            assert(raw.entries()[i] == written@[i]);
        }
    }
}

} // verus!
