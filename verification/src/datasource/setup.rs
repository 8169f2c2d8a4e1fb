//! The enabled providers and the engine's storage setup, out of configuration.

use vstd::prelude::*;
use crate::datasource::options::{
    extra_views, keys_ascend, value_of, ExtraOption, ExtraView, OptionMap,
};
use crate::datasource::secrets::{
    azure_secret, credential_fault, credential_in, first_set, gcs_secret,
    missing_connection, missing_key, no_options, s3_secret, secret_answer, AzureProvider,
    GcsProvider, HttpsProvider, LocalFileProvider, OptionsView, ProviderOptions,
    S3Provider, StorageProvider,
};
use crate::datasource::{
    sealed, CloudCredential, DataSourceError, DataSourceErrorView,
};
use crate::engine::ScopedCredential;
use crate::scan::text_lt;
use crate::text::{str_eq, trim, trim_seq};
use crate::types::{copy_opt_str, copy_strs, opt_str, strs};

verus! {

/// A known storage provider.
#[derive(Debug, Clone, Copy, PartialEq, Eq, Structural)]
pub enum Provider {
    S3,
    Azure,
    Gcs,
    Https,
    Local,
}

impl Provider {
    /// The provider's own name.
    pub open spec fn id(self) -> Seq<char> {
        match self {
            Provider::S3 => "s3"@,
            Provider::Azure => "az"@,
            Provider::Gcs => "gcs"@,
            Provider::Https => "https"@,
            Provider::Local => "local-fake"@,
        }
    }

    /// The provider's own name.
    pub fn provider_id(self) -> (r: &'static str)
        ensures
            r@ == self.id(),
    {
        match self {
            Provider::S3 => S3Provider.provider_id(),
            Provider::Azure => AzureProvider.provider_id(),
            Provider::Gcs => GcsProvider.provider_id(),
            Provider::Https => HttpsProvider.provider_id(),
            Provider::Local => LocalFileProvider.provider_id(),
        }
    }

    /// The statement that creates the secret `name` for a credential.
    pub fn create_secret_sql(
        self,
        name: &str,
        cred: &ScopedCredential,
        decoded: Result<CloudCredential, String>,
        opts: &ProviderOptions,
    ) -> (r: Result<Option<String>, DataSourceError>)
        ensures
            provider_answer(r, self, name@, *cred, decoded, opts@),
    {
        match self {
            Provider::S3 => S3Provider.create_secret_sql(name, cred, decoded, opts),
            Provider::Azure => AzureProvider.create_secret_sql(name, cred, decoded, opts),
            Provider::Gcs => GcsProvider.create_secret_sql(name, cred, decoded, opts),
            Provider::Https => HttpsProvider.create_secret_sql(name, cred, decoded, opts),
            Provider::Local => LocalFileProvider.create_secret_sql(name, cred, decoded, opts),
        }
    }
}

/// What a provider answers, given a credential that the token yields.
pub open spec fn answer_for(
    r: Result<Option<String>, DataSourceError>,
    p: Provider,
    name: Seq<char>,
    c: CloudCredential,
    prefix: Seq<char>,
    opts: OptionsView,
) -> bool {
    match p {
        Provider::S3 => secret_answer(
            r,
            credential_fault(missing_key(c), "s3"@, c),
            s3_secret(name, c, prefix, opts),
        ),
        Provider::Azure => secret_answer(
            r,
            credential_fault(missing_connection(c), "az"@, c),
            azure_secret(name, c, prefix),
        ),
        Provider::Gcs => secret_answer(
            r,
            credential_fault(missing_key(c), "gcs"@, c),
            gcs_secret(name, c, prefix, opts),
        ),
        _ => true,
    }
}

/// What a provider answers: nothing is needed for public HTTPS and local files; else the
/// token's own fault, or the secret of the credential that it yields.
pub open spec fn provider_answer(
    r: Result<Option<String>, DataSourceError>,
    p: Provider,
    name: Seq<char>,
    cred: ScopedCredential,
    decoded: Result<CloudCredential, String>,
    opts: OptionsView,
) -> bool {
    if p == Provider::Https || p == Provider::Local {
        r is Ok && r->Ok_0 is None
    } else {
        &&& forall|c: Result<CloudCredential, DataSourceErrorView>| #[trigger]
            credential_in(cred.token@, decoded, c) && c is Err ==> r is Err && r->Err_0@ == c->Err_0
        &&& exists|c: Result<CloudCredential, DataSourceErrorView>| #[trigger]
            credential_in(cred.token@, decoded, c) && (c is Ok ==> answer_for(
                r,
                p,
                name,
                c->Ok_0,
                cred.prefix@,
                opts,
            ))
    }
}

/// The provider that a configured name stands for.
pub open spec fn provider_named(id: Seq<char>) -> Option<Provider> {
    if id == "s3"@ {
        Some(Provider::S3)
    } else if id == "az"@ || id == "azure"@ || id == "abfss"@ {
        Some(Provider::Azure)
    } else if id == "gcs"@ || id == "gs"@ {
        Some(Provider::Gcs)
    } else if id == "https"@ || id == "http"@ {
        Some(Provider::Https)
    } else if id == "local-fake"@ || id == "local"@ {
        Some(Provider::Local)
    } else {
        None
    }
}

/// The provider that a configured name stands for.
pub fn default_provider(id: &str) -> (r: Option<Provider>)
    ensures
        r == provider_named(id@),
{
    if str_eq(id, "s3") {
        Some(Provider::S3)
    } else if str_eq(id, "az") || str_eq(id, "azure") || str_eq(id, "abfss") {
        Some(Provider::Azure)
    } else if str_eq(id, "gcs") || str_eq(id, "gs") {
        Some(Provider::Gcs)
    } else if str_eq(id, "https") || str_eq(id, "http") {
        Some(Provider::Https)
    } else if str_eq(id, "local-fake") || str_eq(id, "local") {
        Some(Provider::Local)
    } else {
        None
    }
}

#[derive(Debug)]
struct OptionsEntry {
    id: String,
    options: ProviderOptions,
}

/// The options that were set last under a name.
spec fn options_last(v: Seq<OptionsEntry>, id: Seq<char>) -> Option<OptionsView>
    decreases v.len(),
{
    if v.len() == 0 {
        None
    } else if v.last().id@ == id {
        Some(v.last().options@)
    } else {
        options_last(v.drop_last(), id)
    }
}

/// What is registered under a name.
#[derive(Debug, Clone, Copy, PartialEq, Eq, Structural)]
pub enum Registered {
    Known(Provider),
    /// A provider of the caller's own, by the number that the caller gave it.
    Custom(usize),
}

#[derive(Debug)]
struct Slot {
    id: String,
    provider: Registered,
}

/// What was registered last under a name.
spec fn slot_last(v: Seq<Slot>, id: Seq<char>) -> Option<Registered>
    decreases v.len(),
{
    if v.len() == 0 {
        None
    } else if v.last().id@ == id {
        Some(v.last().provider)
    } else {
        slot_last(v.drop_last(), id)
    }
}

/// The enabled providers by name, and their options.
#[derive(Debug)]
pub struct ProviderRegistry {
    providers: Vec<Slot>,
    options: Vec<OptionsEntry>,
}

impl ProviderRegistry {
    /// What is registered under a name.
    pub closed spec fn registered(&self, id: Seq<char>) -> Option<Registered> {
        slot_last(self.providers@, id)
    }

    /// Whether a provider is registered under its own name.
    pub open spec fn has_provider(&self, p: Provider) -> bool {
        self.registered(p.id()) == Some(Registered::Known(p))
    }

    /// Whether a known provider is registered under its own name.
    pub open spec fn known_at(&self, id: Seq<char>) -> bool {
        self.registered(id) matches Some(Registered::Known(p)) && p.id() == id
    }

    /// The options set for a name.
    pub closed spec fn options_set(&self, id: Seq<char>) -> Option<OptionsView> {
        options_last(self.options@, id)
    }

    pub fn new() -> (r: ProviderRegistry)
        ensures
            forall|id: Seq<char>| #[trigger] r.registered(id) is None,
            forall|id: Seq<char>| #[trigger] r.options_set(id) is None,
    {
        ProviderRegistry { providers: Vec::new(), options: Vec::new() }
    }

    /// Registers a provider under its own name, in place of the one before.
    pub fn register(&mut self, provider: Provider)
        ensures
            forall|id: Seq<char>|
                (#[trigger] final(self).registered(id)) == (if id == provider.id() {
                    Some(Registered::Known(provider))
                } else {
                    old(self).registered(id)
                }),
            forall|id: Seq<char>| #[trigger]
                final(self).options_set(id) == old(self).options_set(id),
    {
        let ghost before = self.providers@;
        let id = provider.provider_id().to_owned();
        self.providers.push(Slot { id, provider: Registered::Known(provider) });
        assert(self.providers@.drop_last() =~= before);
    }

    /// Registers a provider of the caller's own under its name, in place of the one before.
    pub fn register_custom(&mut self, provider_id: &str, number: usize)
        ensures
            forall|id: Seq<char>|
                (#[trigger] final(self).registered(id)) == (if id == provider_id@ {
                    Some(Registered::Custom(number))
                } else {
                    old(self).registered(id)
                }),
            forall|id: Seq<char>| #[trigger]
                final(self).options_set(id) == old(self).options_set(id),
    {
        let ghost before = self.providers@;
        self.providers.push(
            Slot { id: provider_id.to_owned(), provider: Registered::Custom(number) },
        );
        assert(self.providers@.drop_last() =~= before);
    }

    /// Sets the options for a name, in place of those before.
    pub fn set_options(&mut self, provider_id: &str, opts: ProviderOptions)
        ensures
            forall|id: Seq<char>| #[trigger]
                final(self).registered(id) == old(self).registered(id),
            forall|id: Seq<char>| #[trigger]
                final(self).options_set(id) == (if id == provider_id@ {
                    Some(opts@)
                } else {
                    old(self).options_set(id)
                }),
    {
        let ghost before = self.options@;
        self.options.push(OptionsEntry { id: provider_id.to_owned(), options: opts });
        assert(self.options@.drop_last() =~= before);
    }

    /// The provider of that name, if one is registered.
    pub fn get(&self, id: &str) -> (r: Option<Registered>)
        ensures
            r == self.registered(id@),
    {
        let mut n: usize = self.providers.len();
        assert(self.providers@.take(n as int) =~= self.providers@);
        while n > 0
            invariant
                n <= self.providers@.len(),
                slot_last(self.providers@.take(n as int), id@) == slot_last(self.providers@, id@),
            decreases n,
        {
            proof {
                let here = self.providers@.take(n as int);
                assert(here.last() == self.providers@[n - 1]);
                assert(here.drop_last() =~= self.providers@.take(n - 1));
            }
            if str_eq(self.providers[n - 1].id.as_str(), id) {
                return Some(self.providers[n - 1].provider);
            }
            n = n - 1;
        }
        None
    }

    /// The options for a name; none where none are set.
    pub fn options_for(&self, id: &str) -> (r: ProviderOptions)
        ensures
            r@ == (match self.options_set(id@) {
                Some(o) => o,
                None => no_options(),
            }),
    {
        let mut n: usize = self.options.len();
        assert(self.options@.take(n as int) =~= self.options@);
        while n > 0
            invariant
                n <= self.options@.len(),
                options_last(self.options@.take(n as int), id@) == options_last(
                    self.options@,
                    id@,
                ),
            decreases n,
        {
            proof {
                let here = self.options@.take(n as int);
                assert(here.last() == self.options@[n - 1]);
                assert(here.drop_last() =~= self.options@.take(n - 1));
            }
            if str_eq(self.options[n - 1].id.as_str(), id) {
                return copy_options(&self.options[n - 1].options);
            }
            n = n - 1;
        }
        ProviderOptions::unset()
    }

    /// The statement that creates the secret `name` for a credential, by the provider
    /// that the credential names. `custom` is what that provider answers, where it is one
    /// of the caller's own.
    pub fn secret_sql_for(
        &self,
        name: &str,
        cred: &ScopedCredential,
        decoded: Result<CloudCredential, String>,
        custom: Result<Option<String>, DataSourceError>,
    ) -> (r: Result<Option<String>, DataSourceError>)
        ensures
            match self.registered(cred.provider@) {
                Some(Registered::Known(p)) => provider_answer(
                    r,
                    p,
                    name@,
                    *cred,
                    decoded,
                    match self.options_set(cred.provider@) {
                        Some(o) => o,
                        None => no_options(),
                    },
                ),
                Some(Registered::Custom(_)) => r == custom,
                None => r is Err && r->Err_0@ == DataSourceErrorView::UnknownProvider(
                    cred.provider@,
                ),
            },
    {
        match self.get(cred.provider.as_str()) {
            Some(Registered::Known(p)) => {
                let opts = self.options_for(cred.provider.as_str());
                p.create_secret_sql(name, cred, decoded, &opts)
            },
            Some(Registered::Custom(_)) => custom,
            None => Err(DataSourceError::UnknownProvider(cred.provider.clone())),
        }
    }
}

/// Different providers have different names.
pub proof fn ids_differ(p: Provider, q: Provider)
    ensures
        p.id() == q.id() ==> p == q,
{
    reveal_strlit("s3");
    reveal_strlit("az");
    reveal_strlit("gcs");
    reveal_strlit("https");
    reveal_strlit("local-fake");
    let a = p.id();
    let b = q.id();
    if a == b {
        assert(a.len() == b.len());
        assert(a[0] == b[0]);
    }
}

fn copy_options(o: &ProviderOptions) -> (r: ProviderOptions)
    ensures
        r@ == o@,
{
    ProviderOptions {
        endpoint: copy_opt_str(&o.endpoint),
        region: copy_opt_str(&o.region),
        url_style: copy_opt_str(&o.url_style),
        use_ssl: o.use_ssl,
        extra: o.extra.clone(),
    }
}

/// The configured options of one provider.
#[derive(Debug, Clone, PartialEq, Eq)]
pub struct OptionsTable {
    pub provider: String,
    pub options: OptionMap,
}

/// The storage section of the configuration.
#[derive(Debug, Clone, PartialEq, Eq)]
pub struct StorageConfig {
    pub enabled_providers: Vec<String>,
    /// The providers' tables; of several for one provider the first counts.
    pub provider_options: Vec<OptionsTable>,
    pub endpoint: Option<String>,
    pub region: Option<String>,
    pub url_style: Option<String>,
    pub use_ssl: Option<bool>,
    pub enable_remote_access: bool,
    pub preload_extensions: Vec<String>,
    pub allowed_local_paths: Vec<String>,
    pub require_extensions: bool,
    pub temp_file_encryption: bool,
    /// The most bytes a result may hold (`0` for no bound).
    pub max_result_bytes: u64,
}

/// The table of a provider; empty where it has none.
pub open spec fn table_of(tables: Seq<OptionsTable>, id: Seq<char>, from: int) -> Seq<ExtraView>
    decreases tables.len() - from,
{
    if from >= tables.len() {
        Seq::empty()
    } else if tables[from].provider@ == id {
        tables[from].options@
    } else {
        table_of(tables, id, from + 1)
    }
}

/// Whether a key sets one of the named options.
pub open spec fn reserved(key: Seq<char>) -> bool {
    key == "endpoint"@ || key == "region"@ || key == "url_style"@ || key == "use_ssl"@
}

/// The options that are not named ones.
pub open spec fn unreserved_only(options: Seq<ExtraView>) -> Seq<ExtraView>
    decreases options.len(),
{
    if options.len() == 0 {
        options
    } else if reserved(options.last().key) {
        unreserved_only(options.drop_last())
    } else {
        unreserved_only(options.drop_last()).push(options.last())
    }
}

/// A switch written as `true` or `false`.
pub open spec fn switch_of(value: Option<Seq<char>>) -> Option<bool> {
    match value {
        Some(v) => if trim_seq(v) == "true"@ {
            Some(true)
        } else if trim_seq(v) == "false"@ {
            Some(false)
        } else {
            None
        },
        None => None,
    }
}

/// The options of a provider: its own table over the general settings.
pub open spec fn resolved_options(cfg: StorageConfig, id: Seq<char>) -> OptionsView {
    let table = table_of(cfg.provider_options@, id, 0);
    OptionsView {
        endpoint: first_set(value_of(table, "endpoint"@, 0), opt_str(cfg.endpoint)),
        region: first_set(value_of(table, "region"@, 0), opt_str(cfg.region)),
        url_style: first_set(value_of(table, "url_style"@, 0), opt_str(cfg.url_style)),
        use_ssl: match switch_of(value_of(table, "use_ssl"@, 0)) {
            Some(b) => Some(b),
            None => cfg.use_ssl,
        },
        extra: unreserved_only(table),
    }
}

pub open spec fn table_names(tables: Seq<OptionsTable>) -> Seq<Seq<char>> {
    tables.map_values(|t: OptionsTable| t.provider@)
}

/// Whether a provider's options are resolved: it is enabled, or has a table.
pub open spec fn configured(cfg: StorageConfig, id: Seq<char>) -> bool {
    strs(cfg.enabled_providers@).contains(id) || table_names(cfg.provider_options@).contains(id)
}

/// Whether a provider is enabled under any of its names.
pub open spec fn enabled(cfg: StorageConfig, p: Provider) -> bool {
    exists|i: int|
        0 <= i < cfg.enabled_providers@.len() && provider_named(
            (#[trigger] cfg.enabled_providers@[i])@,
        ) == Some(p)
}

fn is_reserved(key: &str) -> (r: bool)
    ensures
        r == reserved(key@),
{
    str_eq(key, "endpoint") || str_eq(key, "region") || str_eq(key, "url_style") || str_eq(
        key,
        "use_ssl",
    )
}

fn or_else(a: Option<String>, b: &Option<String>) -> (r: Option<String>)
    ensures
        opt_str(r) == first_set(opt_str(a), opt_str(*b)),
{
    match a {
        Some(x) => Some(x),
        None => copy_opt_str(b),
    }
}

fn parse_switch(v: &Option<String>) -> (r: Option<bool>)
    ensures
        r == switch_of(opt_str(*v)),
{
    match v {
        Some(s) => {
            let t = trim(s.as_str());
            if str_eq(t.as_str(), "true") {
                proof {
                    reveal_strlit("true");
                    reveal_strlit("false");
                }
                Some(true)
            } else if str_eq(t.as_str(), "false") {
                Some(false)
            } else {
                None
            }
        },
        None => None,
    }
}

fn find_table(cfg: &StorageConfig, id: &str) -> (r: OptionMap)
    ensures
        r@ == table_of(cfg.provider_options@, id@, 0),
{
    let mut i: usize = 0;
    while i < cfg.provider_options.len()
        invariant
            i <= cfg.provider_options@.len(),
            table_of(cfg.provider_options@, id@, i as int) == table_of(
                cfg.provider_options@,
                id@,
                0,
            ),
        decreases cfg.provider_options@.len() - i,
    {
        if str_eq(cfg.provider_options[i].provider.as_str(), id) {
            return cfg.provider_options[i].options.clone();
        }
        i = i + 1;
    }
    let r = OptionMap::new();
    assert(r@ =~= Seq::empty());
    r
}

fn drop_reserved(table: &OptionMap) -> (r: OptionMap)
    ensures
        r@ == unreserved_only(table@),
{
    let options = table.entries();
    let ghost views = extra_views(options@);
    let mut r: Vec<ExtraOption> = Vec::new();
    let mut i: usize = 0;
    assert(extra_views(r@) =~= views.take(0));
    while i < options.len()
        invariant
            i <= options@.len(),
            views == extra_views(options@),
            keys_ascend(views),
            keys_ascend(extra_views(r@)),
            extra_views(r@) == unreserved_only(views.take(i as int)),
            forall|a: int, b: int|
                0 <= a < r@.len() && i <= b < views.len() ==> text_lt(
                    (#[trigger] extra_views(r@)[a]).key,
                    (#[trigger] views[b]).key,
                ),
        decreases options@.len() - i,
    {
        let ghost before = extra_views(r@);
        proof {
            let next = views.take(i + 1);
            assert(next.drop_last() =~= views.take(i as int));
            assert(next.last() == options@[i as int]@);
        }
        if !is_reserved(options[i].key.as_str()) {
            let e = ExtraOption { key: options[i].key.clone(), value: options[i].value.clone() };
            r.push(e);
            assert(extra_views(r@) =~= before.push(e@));
        }
        i = i + 1;
    }
    assert(views.take(i as int) =~= views);
    OptionMap::of_ascending(r)
}

fn resolve_options(cfg: &StorageConfig, id: &str) -> (r: ProviderOptions)
    ensures
        r@ == resolved_options(*cfg, id@),
{
    let table = find_table(cfg, id);
    let ssl = parse_switch(&table.get("use_ssl"));
    ProviderOptions {
        endpoint: or_else(table.get("endpoint"), &cfg.endpoint),
        region: or_else(table.get("region"), &cfg.region),
        url_style: or_else(table.get("url_style"), &cfg.url_style),
        use_ssl: match ssl {
            Some(b) => Some(b),
            None => cfg.use_ssl,
        },
        extra: drop_reserved(&table),
    }
}

/// The engine's storage setup: what it may reach, fixed by configuration alone.
#[derive(Debug)]
pub struct StorageSetup {
    /// Whether the engine may use the network.
    pub enable_remote_access: bool,
    pub preload_extensions: Vec<String>,
    /// The local directories the engine may read.
    pub allowed_local_paths: Vec<String>,
    /// Whether an extension that cannot be loaded is an error.
    pub require_extensions: bool,
    /// Whether spilled data is encrypted.
    pub temp_file_encryption: bool,
    pub providers: ProviderRegistry,
    /// Whether this node has a key that opens sealed tokens.
    pub sealing: bool,
    /// The most bytes a result may hold (`0` for no bound).
    pub max_result_bytes: u64,
}

/// A sealed token's credential, opened and written as a plain token; or why not.
pub enum Unsealed {
    Token(String),
    Failed(DataSourceError),
}

impl StorageSetup {
    /// The strict setup: no network, no local directories, no providers.
    pub fn strict() -> (r: StorageSetup)
        ensures
            !r.enable_remote_access,
            r.preload_extensions@.len() == 0,
            r.allowed_local_paths@.len() == 0,
            !r.require_extensions,
            r.temp_file_encryption,
            forall|id: Seq<char>| #[trigger] r.providers.registered(id) is None,
            forall|id: Seq<char>| #[trigger] r.providers.options_set(id) is None,
            !r.sealing,
            r.max_result_bytes == 0,
    {
        StorageSetup {
            enable_remote_access: false,
            preload_extensions: Vec::new(),
            allowed_local_paths: Vec::new(),
            require_extensions: false,
            temp_file_encryption: true,
            providers: ProviderRegistry::new(),
            sealing: false,
            max_result_bytes: 0,
        }
    }

    /// The setup of a node that can open sealed tokens.
    pub fn with_sealing(self) -> (r: StorageSetup)
        ensures
            r == (StorageSetup { sealing: true, ..self }),
    {
        let mut r = self;
        r.sealing = true;
        r
    }

    /// The credential with a plain token. A plain token passes unchanged; a sealed one
    /// takes the node's key, and `unsealed` is what opening it gave.
    pub fn resolve_credential(&self, cred: &ScopedCredential, unsealed: Unsealed) -> (r: Result<
        ScopedCredential,
        DataSourceError,
    >)
        ensures
            !sealed(cred.token@) ==> r is Ok && same_credential(r->Ok_0, *cred),
            sealed(cred.token@) && !self.sealing ==> r is Err && r->Err_0@
                == DataSourceErrorView::SealingKeyUnavailable,
            sealed(cred.token@) && self.sealing ==> (match unsealed {
                Unsealed::Token(t) => r is Ok && same_credential(
                    r->Ok_0,
                    (ScopedCredential { token: t, ..*cred }),
                ),
                Unsealed::Failed(e) => r is Err && r->Err_0 == e,
            }),
    {
        if !CloudCredential::is_sealed_token(cred.token.as_str()) {
            return Ok(
                ScopedCredential {
                    provider: cred.provider.clone(),
                    token: cred.token.clone(),
                    prefix: cred.prefix.clone(),
                    expires_at: cred.expires_at,
                },
            );
        }
        if !self.sealing {
            return Err(DataSourceError::SealingKeyUnavailable);
        }
        match unsealed {
            Unsealed::Token(token) => Ok(
                ScopedCredential {
                    provider: cred.provider.clone(),
                    token,
                    prefix: cred.prefix.clone(),
                    expires_at: cred.expires_at,
                },
            ),
            Unsealed::Failed(e) => Err(e),
        }
    }

    /// The setup that a configuration describes.
    pub fn from_config(cfg: &StorageConfig) -> (r: StorageSetup)
        ensures
            r.enable_remote_access == cfg.enable_remote_access,
            strs(r.preload_extensions@) == strs(cfg.preload_extensions@),
            strs(r.allowed_local_paths@) == strs(cfg.allowed_local_paths@),
            r.require_extensions == cfg.require_extensions,
            r.temp_file_encryption == cfg.temp_file_encryption,
            r.max_result_bytes == cfg.max_result_bytes,
            !r.sealing,
            forall|p: Provider| #[trigger] r.providers.has_provider(p) == enabled(*cfg, p),
            forall|id: Seq<char>|
                (#[trigger] r.providers.registered(id)) is Some ==> r.providers.known_at(id),
            forall|id: Seq<char>| #[trigger]
                r.providers.options_set(id) == (if configured(*cfg, id) {
                    Some(resolved_options(*cfg, id))
                } else {
                    None
                }),
    {
        let mut registry = ProviderRegistry::new();
        register_enabled(&mut registry, cfg);
        let ghost names = strs(cfg.enabled_providers@);
        let mut i: usize = 0;
        while i < cfg.enabled_providers.len()
            invariant
                i <= cfg.enabled_providers@.len(),
                names == strs(cfg.enabled_providers@),
                forall|p: Provider| #[trigger] registry.has_provider(p) == enabled(*cfg, p),
                forall|id: Seq<char>|
                    (#[trigger] registry.registered(id)) is Some ==> registry.known_at(id),
                forall|id: Seq<char>| #[trigger]
                    registry.options_set(id) == (if names.take(i as int).contains(id) {
                        Some(resolved_options(*cfg, id))
                    } else {
                        None
                    }),
            decreases cfg.enabled_providers@.len() - i,
        {
            let ghost before = registry;
            let id = &cfg.enabled_providers[i];
            registry.set_options(id.as_str(), resolve_options(cfg, id.as_str()));
            proof {
                take_contains(names, i as int);
                assert forall|p: Provider| #[trigger] registry.has_provider(p) == enabled(
                    *cfg,
                    p,
                ) by {
                    assert(before.has_provider(p) == enabled(*cfg, p));
                }
            }
            i = i + 1;
        }
        assert(names.take(i as int) =~= names);
        let ghost tables = table_names(cfg.provider_options@);
        let mut j: usize = 0;
        while j < cfg.provider_options.len()
            invariant
                j <= cfg.provider_options@.len(),
                names == strs(cfg.enabled_providers@),
                tables == table_names(cfg.provider_options@),
                forall|p: Provider| #[trigger] registry.has_provider(p) == enabled(*cfg, p),
                forall|id: Seq<char>|
                    (#[trigger] registry.registered(id)) is Some ==> registry.known_at(id),
                forall|id: Seq<char>| #[trigger]
                    registry.options_set(id) == (if names.contains(id) || tables.take(
                        j as int,
                    ).contains(id) {
                        Some(resolved_options(*cfg, id))
                    } else {
                        None
                    }),
            decreases cfg.provider_options@.len() - j,
        {
            let ghost before = registry;
            let id = &cfg.provider_options[j].provider;
            registry.set_options(id.as_str(), resolve_options(cfg, id.as_str()));
            proof {
                assert(tables[j as int] == id@);
                assert forall|p: Provider| #[trigger] registry.has_provider(p) == enabled(
                    *cfg,
                    p,
                ) by {
                    assert(before.has_provider(p) == enabled(*cfg, p));
                }
                take_contains(tables, j as int);
            }
            j = j + 1;
        }
        assert(tables.take(j as int) =~= tables);
        StorageSetup {
            enable_remote_access: cfg.enable_remote_access,
            preload_extensions: copy_strs(&cfg.preload_extensions),
            allowed_local_paths: copy_strs(&cfg.allowed_local_paths),
            require_extensions: cfg.require_extensions,
            temp_file_encryption: cfg.temp_file_encryption,
            providers: registry,
            sealing: false,
            max_result_bytes: cfg.max_result_bytes,
        }
    }
}

/// Whether two credentials hold the same.
pub open spec fn same_credential(a: ScopedCredential, b: ScopedCredential) -> bool {
    a.provider@ == b.provider@ && a.token@ == b.token@ && a.prefix@ == b.prefix@ && a.expires_at
        == b.expires_at
}

/// One more element is contained.
proof fn take_contains(s: Seq<Seq<char>>, i: int)
    requires
        0 <= i < s.len(),
    ensures
        forall|x: Seq<char>| #[trigger]
            s.take(i + 1).contains(x) == (s.take(i).contains(x) || x == s[i]),
{
    let a = s.take(i);
    let b = s.take(i + 1);
    assert forall|x: Seq<char>| #[trigger] b.contains(x) == (a.contains(x) || x == s[i]) by {
        if a.contains(x) {
            let k = choose|k: int| 0 <= k < a.len() && a[k] == x;
            assert(b[k] == x);
        }
        if x == s[i] {
            assert(b[i] == x);
        }
        if b.contains(x) {
            let k = choose|k: int| 0 <= k < b.len() && b[k] == x;
            if k < i {
                assert(a[k] == x);
            }
        }
    }
}

fn register_enabled(registry: &mut ProviderRegistry, cfg: &StorageConfig)
    requires
        forall|id: Seq<char>| #[trigger] old(registry).registered(id) is None,
        forall|id: Seq<char>| #[trigger] old(registry).options_set(id) is None,
    ensures
        forall|p: Provider| #[trigger] final(registry).has_provider(p) == enabled(*cfg, p),
        forall|id: Seq<char>|
            (#[trigger] final(registry).registered(id)) is Some ==> final(registry).known_at(id),
        forall|id: Seq<char>| #[trigger] final(registry).options_set(id) is None,
{
    let mut i: usize = 0;
    while i < cfg.enabled_providers.len()
        invariant
            i <= cfg.enabled_providers@.len(),
            forall|id: Seq<char>| #[trigger] registry.options_set(id) is None,
            forall|id: Seq<char>|
                (#[trigger] registry.registered(id)) is Some ==> registry.known_at(id),
            forall|p: Provider| #[trigger]
                registry.has_provider(p) == exists|k: int|
                    0 <= k < i && provider_named((#[trigger] cfg.enabled_providers@[k])@) == Some(
                        p,
                    ),
        decreases cfg.enabled_providers@.len() - i,
    {
        let ghost before = *registry;
        match default_provider(cfg.enabled_providers[i].as_str()) {
            Some(p) => {
                registry.register(p);
                proof {
                    assert forall|q: Provider| #[trigger] registry.has_provider(q) == exists|k: int|
                        0 <= k < i + 1 && provider_named((#[trigger] cfg.enabled_providers@[k])@)
                            == Some(q) by {
                        ids_differ(p, q);
                        assert(before.has_provider(q) == exists|k: int|
                            0 <= k < i && provider_named((#[trigger] cfg.enabled_providers@[k])@)
                                == Some(q));
                        if before.has_provider(q) {
                            let k = choose|k: int|
                                0 <= k < i && provider_named(
                                    (#[trigger] cfg.enabled_providers@[k])@,
                                ) == Some(q);
                            assert(provider_named(cfg.enabled_providers@[k]@) == Some(q));
                        }
                        if q == p {
                            assert(provider_named(cfg.enabled_providers@[i as int]@) == Some(q));
                        }
                    }
                }
            },
            None => {
                proof {
                    assert forall|q: Provider| #[trigger] registry.has_provider(q) == exists|k: int|
                        0 <= k < i + 1 && provider_named((#[trigger] cfg.enabled_providers@[k])@)
                            == Some(q) by {
                        if before.has_provider(q) {
                            let k = choose|k: int|
                                0 <= k < i && provider_named(
                                    (#[trigger] cfg.enabled_providers@[k])@,
                                ) == Some(q);
                            assert(provider_named(cfg.enabled_providers@[k]@) == Some(q));
                        }
                    }
                }
            },
        }
        i = i + 1;
    }
}

/// The providers go by their names, and have the names that credentials call them by.
pub proof fn providers_go_by_their_names(id: Seq<char>)
    ensures
        provider_named(id) == Some(Provider::S3) <==> id == "s3"@,
        provider_named(id) == Some(Provider::Azure) <==> id == "az"@ || id == "azure"@ || id
            == "abfss"@,
        provider_named(id) == Some(Provider::Gcs) <==> id == "gcs"@ || id == "gs"@,
        provider_named(id) == Some(Provider::Https) <==> id == "https"@ || id == "http"@,
        provider_named(id) == Some(Provider::Local) <==> id == "local-fake"@ || id == "local"@,
        Provider::S3.id() == "s3"@,
        Provider::Azure.id() == "az"@,
        Provider::Gcs.id() == "gcs"@,
        Provider::Https.id() == "https"@,
        Provider::Local.id() == "local-fake"@,
{
    reveal_strlit("s3");
    reveal_strlit("az");
    reveal_strlit("azure");
    reveal_strlit("abfss");
    reveal_strlit("gcs");
    reveal_strlit("gs");
    reveal_strlit("https");
    reveal_strlit("http");
    reveal_strlit("local-fake");
    reveal_strlit("local");
    assert("s3"@[0] == 's');
    assert("az"@[0] == 'a' && "azure"@[0] == 'a' && "abfss"@[0] == 'a');
    assert("gcs"@[0] == 'g' && "gs"@[0] == 'g');
    assert("https"@[0] == 'h' && "http"@[0] == 'h');
    assert("local-fake"@[0] == 'l' && "local"@[0] == 'l');
}

/// A provider's own setting comes before the general one, and everything else that is set
/// for it is handed on.
pub proof fn own_settings_come_first(cfg: StorageConfig, id: Seq<char>)
    ensures
        ({
            let o = resolved_options(cfg, id);
            let t = table_of(cfg.provider_options@, id, 0);
            let own = |k: Seq<char>| value_of(t, k, 0);
            &&& own("endpoint"@) is Some ==> o.endpoint == own("endpoint"@)
            &&& own("endpoint"@) is None ==> o.endpoint == opt_str(cfg.endpoint)
            &&& own("region"@) is Some ==> o.region == own("region"@)
            &&& own("region"@) is None ==> o.region == opt_str(cfg.region)
            &&& own("url_style"@) is Some ==> o.url_style == own("url_style"@)
            &&& own("url_style"@) is None ==> o.url_style == opt_str(cfg.url_style)
            &&& own("use_ssl"@) is Some && trim_seq(own("use_ssl"@)->0) == "true"@ ==> o.use_ssl
                == Some(true)
            &&& own("use_ssl"@) is Some && trim_seq(own("use_ssl"@)->0) == "false"@ ==> o.use_ssl
                == Some(false)
            &&& own("use_ssl"@) is None || (trim_seq(own("use_ssl"@)->0) != "true"@ && trim_seq(
                own("use_ssl"@)->0,
            ) != "false"@) ==> o.use_ssl == cfg.use_ssl
            &&& o.extra == t.filter(
                |e: ExtraView|
                    e.key != "endpoint"@ && e.key != "region"@ && e.key != "url_style"@ && e.key
                        != "use_ssl"@,
            )
        }),
{
    reveal_strlit("true");
    reveal_strlit("false");
    assert("true"@[0] == 't' && "false"@[0] == 'f');
    others_are_filtered(table_of(cfg.provider_options@, id, 0));
}

proof fn others_are_filtered(t: Seq<ExtraView>)
    ensures
        unreserved_only(t) == t.filter(
            |e: ExtraView|
                e.key != "endpoint"@ && e.key != "region"@ && e.key != "url_style"@ && e.key
                    != "use_ssl"@,
        ),
    decreases t.len(),
{
    reveal(Seq::filter);
    if t.len() > 0 {
        others_are_filtered(t.drop_last());
    } else {
        assert(unreserved_only(t) =~= t.filter(
            |e: ExtraView|
                e.key != "endpoint"@ && e.key != "region"@ && e.key != "url_style"@ && e.key
                    != "use_ssl"@,
        ));
    }
}

/// A provider's table is the first of its name.
pub proof fn a_provider_has_its_first_table(tables: Seq<OptionsTable>, id: Seq<char>, from: int, i: int)
    requires
        0 <= from <= i <= tables.len(),
        forall|k: int| from <= k < i ==> (#[trigger] tables[k]).provider@ != id,
        i < tables.len() ==> tables[i].provider@ == id,
    ensures
        i < tables.len() ==> table_of(tables, id, from) == tables[i].options@,
        i == tables.len() ==> table_of(tables, id, from).len() == 0,
    decreases i - from,
{
    if from < i {
        assert(tables[from].provider@ != id);
        a_provider_has_its_first_table(tables, id, from + 1, i);
    }
}

/// Public HTTPS and local files need no secret. A sealed token is refused, and so is one
/// that cannot be read; a credential without a field that its provider needs is refused
/// with the field and the provider; any other with plain option keys gives a secret.
pub proof fn providers_name_what_they_miss(
    r: Result<Option<String>, DataSourceError>,
    p: Provider,
    name: Seq<char>,
    cred: ScopedCredential,
    decoded: Result<CloudCredential, String>,
    opts: OptionsView,
)
    requires
        provider_answer(r, p, name, cred, decoded, opts),
    ensures
        p == Provider::Https || p == Provider::Local ==> r is Ok && r->Ok_0 is None,
        p == Provider::S3 || p == Provider::Gcs || p == Provider::Azure ==> {
            let t = crate::text::trim_seq(cred.token@);
            let c = decoded->Ok_0;
            let read = !crate::datasource::sealed(t) && crate::text::starts_with_seq(t, "{"@)
                && decoded is Ok;
            let keyed = p != Provider::Azure;
            &&& crate::datasource::sealed(t) ==> r is Err && r->Err_0@
                == DataSourceErrorView::SealingKeyUnavailable
            &&& !crate::datasource::sealed(t) && crate::text::starts_with_seq(t, "{"@)
                && decoded is Err ==> r is Err && r->Err_0@ == DataSourceErrorView::MalformedToken(
                decoded->Err_0@,
            )
            &&& read && keyed && c.key_id is None ==> r is Err && r->Err_0@
                == DataSourceErrorView::MissingField("key_id"@, p.id())
            &&& read && keyed && c.key_id is Some && c.secret is None ==> r is Err && r->Err_0@
                == DataSourceErrorView::MissingField("secret"@, p.id())
            &&& read && !keyed && c.connection_string is None ==> r is Err && r->Err_0@
                == DataSourceErrorView::MissingField("connection_string"@, p.id())
            &&& read && (if keyed {
                c.key_id is Some && c.secret is Some
            } else {
                c.connection_string is Some
            }) && c.extra@.len() == 0 ==> r is Ok && r->Ok_0 is Some
        },
{
}

} // verus!
