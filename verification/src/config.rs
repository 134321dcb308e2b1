//! Application configuration: API providers, authentication, and the file
//! formats a configuration can be written in.
//!
//! Reading environment variables and configuration files is I/O and happens
//! outside the library; what stands here is the data model and every
//! decision over it — which provider is the default, which endpoint a name
//! resolves to, which format an extension names — with exact contracts.

use vstd::prelude::*;
use crate::codec::vec_eq_str;

verus! {

/// API providers supported by the application.
#[derive(Debug, Clone, Copy, PartialEq, Eq, Hash, Structural)]
pub enum ApiProvider {
    OpenAI,
    Anthropic,
    Gemini,
    Custom,
}

/// API configuration for one provider.
#[derive(Debug)]
pub struct ApiConfig {
    pub provider: ApiProvider,
    pub api_key: String,
    pub api_url: Option<String>,
    pub model: Option<String>,
}

/// Mathematical image of an `ApiConfig`.
pub ghost struct ApiConfigView {
    pub provider: ApiProvider,
    pub api_key: Seq<char>,
    pub api_url: Option<Seq<char>>,
    pub model: Option<Seq<char>>,
}

/// The view of an optional string.
pub open spec fn view_opt(o: Option<String>) -> Option<Seq<char>> {
    match o {
        Some(s) => Some(s@),
        None => None,
    }
}

impl View for ApiConfig {
    type V = ApiConfigView;

    open spec fn view(&self) -> ApiConfigView {
        ApiConfigView {
            provider: self.provider,
            api_key: self.api_key@,
            api_url: view_opt(self.api_url),
            model: view_opt(self.model),
        }
    }
}

/// Copies an optional string.
fn clone_opt_string(o: &Option<String>) -> (r: Option<String>)
    ensures
        view_opt(r) == view_opt(*o),
{
    match o {
        Some(s) => Some(s.clone()),
        None => None,
    }
}

impl Clone for ApiConfig {
    fn clone(&self) -> (r: Self)
        ensures
            r@ == self@,
    {
        ApiConfig {
            provider: self.provider,
            api_key: self.api_key.clone(),
            api_url: clone_opt_string(&self.api_url),
            model: clone_opt_string(&self.model),
        }
    }
}

/// Configuration for one named endpoint.
#[derive(Debug)]
pub struct EndpointConfig {
    pub url: String,
    pub secret: Option<String>,
    pub token: Option<String>,
    pub use_tls: Option<bool>,
}

/// Mathematical image of an `EndpointConfig`.
pub ghost struct EndpointConfigView {
    pub url: Seq<char>,
    pub secret: Option<Seq<char>>,
    pub token: Option<Seq<char>>,
    pub use_tls: Option<bool>,
}

impl View for EndpointConfig {
    type V = EndpointConfigView;

    open spec fn view(&self) -> EndpointConfigView {
        EndpointConfigView {
            url: self.url@,
            secret: view_opt(self.secret),
            token: view_opt(self.token),
            use_tls: self.use_tls,
        }
    }
}

impl Clone for EndpointConfig {
    fn clone(&self) -> (r: Self)
        ensures
            r@ == self@,
    {
        EndpointConfig {
            url: self.url.clone(),
            secret: clone_opt_string(&self.secret),
            token: clone_opt_string(&self.token),
            use_tls: self.use_tls,
        }
    }
}

/// Authentication configuration: the RPC secret and the named endpoints,
/// an association table with pairwise distinct names.
#[derive(Debug)]
pub struct AuthConfig {
    pub rpc_secret: Option<String>,
    pub endpoints: Vec<(String, EndpointConfig)>,
}

/// Mathematical image of an `AuthConfig`.
pub ghost struct AuthConfigView {
    pub rpc_secret: Option<Seq<char>>,
    pub endpoints: Seq<(Seq<char>, EndpointConfigView)>,
}

impl View for AuthConfig {
    type V = AuthConfigView;

    open spec fn view(&self) -> AuthConfigView {
        AuthConfigView {
            rpc_secret: view_opt(self.rpc_secret),
            endpoints: self.endpoints@.map_values(
                |e: (String, EndpointConfig)| (e.0@, e.1@),
            ),
        }
    }
}

impl Clone for AuthConfig {
    fn clone(&self) -> (r: Self)
        ensures
            r@ == self@,
    {
        let mut endpoints: Vec<(String, EndpointConfig)> = Vec::new();
        let mut i: usize = 0;
        while i < self.endpoints.len()
            invariant
                i <= self.endpoints@.len(),
                endpoints@.len() == i,
                forall|k: int| 0 <= k < i ==> (#[trigger] endpoints@[k]).0@
                    == self.endpoints@[k].0@ && endpoints@[k].1@ == self.endpoints@[k].1@,
            decreases self.endpoints@.len() - i,
        {
            let (name, ep) = &self.endpoints[i];
            endpoints.push((name.clone(), ep.clone()));
            i = i + 1;
        }
        let r = AuthConfig { rpc_secret: clone_opt_string(&self.rpc_secret), endpoints };
        assert(r@.endpoints =~= self@.endpoints);
        r
    }
}

// ------------------------------------------------------------ name lookup
/// Whether some endpoint entry carries the name `n`.
pub open spec fn has_endpoint(eps: Seq<(Seq<char>, EndpointConfigView)>, n: Seq<char>) -> bool {
    exists|i: int| 0 <= i < eps.len() && eps[i].0 == n
}

/// The index of the entry named `n` (meaningful only when `has_endpoint`).
pub open spec fn endpoint_idx(eps: Seq<(Seq<char>, EndpointConfigView)>, n: Seq<char>) -> int {
    choose|i: int| 0 <= i < eps.len() && eps[i].0 == n
}

/// Pure lookup of the endpoint named `n`, if any.
pub open spec fn spec_endpoint_lookup(
    eps: Seq<(Seq<char>, EndpointConfigView)>,
    n: Seq<char>,
) -> Option<EndpointConfigView> {
    if has_endpoint(eps, n) {
        Some(eps[endpoint_idx(eps, n)].1)
    } else {
        None
    }
}

/// Insert-or-overwrite of one named endpoint.
pub open spec fn spec_set_endpoint(
    eps: Seq<(Seq<char>, EndpointConfigView)>,
    n: Seq<char>,
    e: EndpointConfigView,
) -> Seq<(Seq<char>, EndpointConfigView)> {
    if has_endpoint(eps, n) {
        eps.update(endpoint_idx(eps, n), (n, e))
    } else {
        eps.push((n, e))
    }
}

/// Endpoint names are unique within the table.
pub open spec fn unique_endpoint_names(eps: Seq<(Seq<char>, EndpointConfigView)>) -> bool {
    forall|i: int, j: int| 0 <= i < j < eps.len() ==> eps[i].0 != eps[j].0
}

/// In a table with unique names, an entry is the one its own name looks up.
proof fn lemma_endpoint_idx(eps: Seq<(Seq<char>, EndpointConfigView)>, i: int)
    requires
        unique_endpoint_names(eps),
        0 <= i < eps.len(),
    ensures
        has_endpoint(eps, eps[i].0),
        endpoint_idx(eps, eps[i].0) == i,
{
    assert(has_endpoint(eps, eps[i].0));
    let j = endpoint_idx(eps, eps[i].0);
    assert(0 <= j < eps.len() && eps[j].0 == eps[i].0);
    if i < j {
        assert(eps[i].0 != eps[j].0);
    } else if j < i {
        assert(eps[j].0 != eps[i].0);
    }
}

impl AuthConfig {
    pub open spec fn wf(&self) -> bool {
        unique_endpoint_names(self@.endpoints)
    }

    /// Finds the position of the endpoint named `name`, if any.
    fn endpoint_position(&self, name: &str) -> (r: Option<usize>)
        requires
            self.wf(),
        ensures
            match r {
                Some(p) => p < self@.endpoints.len() && self@.endpoints[p as int].0 == name@
                    && has_endpoint(self@.endpoints, name@) && endpoint_idx(
                    self@.endpoints,
                    name@,
                ) == p,
                None => !has_endpoint(self@.endpoints, name@),
            },
    {
        let mut i: usize = 0;
        while i < self.endpoints.len()
            invariant
                self.wf(),
                i <= self.endpoints@.len(),
                self@.endpoints.len() == self.endpoints@.len(),
                forall|k: int| 0 <= k < i ==> (#[trigger] self@.endpoints[k]).0 != name@,
            decreases self.endpoints@.len() - i,
        {
            assert(self@.endpoints[i as int].0 == self.endpoints@[i as int].0@);
            let (n, _) = &self.endpoints[i];
            if crate::codec::str_eq(n.as_str(), name) {
                proof {
                    lemma_endpoint_idx(self@.endpoints, i as int);
                }
                return Some(i);
            }
            i = i + 1;
        }
        None
    }

    /// Replaces the RPC secret, leaving the endpoints alone: the pure core
    /// of writing a new secret into the configuration.
    pub fn set_rpc_secret(&mut self, secret: String)
        ensures
            final(self)@.rpc_secret == Some(secret@),
            final(self)@.endpoints == old(self)@.endpoints,
            old(self).wf() ==> final(self).wf(),
    {
        self.rpc_secret = Some(secret);
    }

    /// Adds or replaces one named endpoint: the pure core of writing an
    /// endpoint into the configuration.
    pub fn set_endpoint(&mut self, name: String, endpoint: EndpointConfig)
        requires
            old(self).wf(),
        ensures
            final(self).wf(),
            final(self)@.rpc_secret == old(self)@.rpc_secret,
            final(self)@.endpoints == spec_set_endpoint(
                old(self)@.endpoints,
                name@,
                endpoint@,
            ),
    {
        let ghost olde = self@.endpoints;
        match self.endpoint_position(name.as_str()) {
            Some(p) => {
                self.endpoints[p] = (name, endpoint);
                assert(self@.endpoints =~= olde.update(
                    endpoint_idx(olde, name@),
                    (name@, endpoint@),
                ));
            }
            None => {
                self.endpoints.push((name, endpoint));
                assert(self@.endpoints =~= olde.push((name@, endpoint@)));
            }
        }
        proof {
            lemma_set_endpoint_unique(olde, name@, endpoint@);
        }
    }
}

/// Setting an endpoint keeps names unique.
proof fn lemma_set_endpoint_unique(
    eps: Seq<(Seq<char>, EndpointConfigView)>,
    n: Seq<char>,
    e: EndpointConfigView,
)
    requires
        unique_endpoint_names(eps),
    ensures
        unique_endpoint_names(spec_set_endpoint(eps, n, e)),
{
    let t = spec_set_endpoint(eps, n, e);
    if has_endpoint(eps, n) {
        let k = endpoint_idx(eps, n);
        assert(0 <= k < eps.len() && eps[k].0 == n);
        assert forall|i: int, j: int| 0 <= i < j < t.len() implies t[i].0 != t[j].0 by {
            if i != k && j != k {
                assert(t[i] == eps[i] && t[j] == eps[j]);
            } else if i == k {
                assert(t[j] == eps[j] && eps[j].0 != eps[k].0);
            } else {
                assert(t[i] == eps[i] && eps[i].0 != eps[k].0);
            }
        }
    } else {
        assert(forall|i: int| 0 <= i < eps.len() ==> (#[trigger] eps[i]).0 != n);
        assert forall|i: int, j: int| 0 <= i < j < t.len() implies t[i].0 != t[j].0 by {
            if j == eps.len() {
                assert(t[i] == eps[i] && t[j] == (n, e));
            } else {
                assert(t[i] == eps[i] && t[j] == eps[j]);
            }
        }
    }
}

impl Default for AuthConfig {
    /// The empty authentication configuration a fresh file starts with: no
    /// secret, no endpoints.
    fn default() -> (r: AuthConfig)
        ensures
            r@.rpc_secret is None,
            r@.endpoints == Seq::<(Seq<char>, EndpointConfigView)>::empty(),
            r.wf(),
    {
        let r = AuthConfig { rpc_secret: None, endpoints: Vec::new() };
        assert(r@.endpoints =~= Seq::<(Seq<char>, EndpointConfigView)>::empty());
        r
    }
}

// ------------------------------------------------------------ formats
/// File formats supported for configuration.
#[derive(Debug, Clone, Copy, PartialEq, Eq, Structural)]
pub enum ConfigFormat {
    Json,
    Yaml,
    Toml,
}

/// An upper-case ASCII letter lowered; any other character unchanged.
pub open spec fn lower_char(c: char) -> char {
    if 'A' <= c && c <= 'Z' {
        ((c as u32) + 32) as char
    } else {
        c
    }
}

/// A string lowered character by character.
pub open spec fn lower_seq(s: Seq<char>) -> Seq<char> {
    s.map_values(|c: char| lower_char(c))
}

/// The format an extension names, compared without regard to ASCII case.
pub open spec fn spec_format_of(s: Seq<char>) -> Option<ConfigFormat> {
    if lower_seq(s) == "json"@ {
        Some(ConfigFormat::Json)
    } else if lower_seq(s) == "yaml"@ || lower_seq(s) == "yml"@ {
        Some(ConfigFormat::Yaml)
    } else if lower_seq(s) == "toml"@ {
        Some(ConfigFormat::Toml)
    } else {
        None
    }
}

fn lower_char_x(c: char) -> (r: char)
    ensures
        r == lower_char(c),
{
    if 'A' <= c && c <= 'Z' {
        (((c as u32) + 32) as u8) as char
    } else {
        c
    }
}

impl ConfigFormat {
    /// The canonical file extension of this format.
    pub fn extension(&self) -> (r: &'static str)
        ensures
            match self {
                ConfigFormat::Json => r@ == "json"@,
                ConfigFormat::Yaml => r@ == "yaml"@,
                ConfigFormat::Toml => r@ == "toml"@,
            },
    {
        match self {
            ConfigFormat::Json => "json",
            ConfigFormat::Yaml => "yaml",
            ConfigFormat::Toml => "toml",
        }
    }

    /// The format a file extension names, case-insensitively: `json`,
    /// `yaml` or `yml`, and `toml`; anything else names none.
    pub fn from_extension(ext: &str) -> (r: Option<ConfigFormat>)
        ensures
            r == spec_format_of(ext@),
    {
        let n = ext.unicode_len();
        let mut low: Vec<char> = Vec::new();
        let mut i: usize = 0;
        while i < n
            invariant
                i <= n,
                n == ext@.len(),
                low@.len() == i,
                forall|k: int| 0 <= k < i ==> low@[k] == lower_char(ext@[k]),
            decreases n - i,
        {
            low.push(lower_char_x(ext.get_char(i)));
            i = i + 1;
        }
        assert(low@ =~= lower_seq(ext@));
        if vec_eq_str(&low, "json") {
            Some(ConfigFormat::Json)
        } else if vec_eq_str(&low, "yaml") || vec_eq_str(&low, "yml") {
            Some(ConfigFormat::Yaml)
        } else if vec_eq_str(&low, "toml") {
            Some(ConfigFormat::Toml)
        } else {
            None
        }
    }
}

// ------------------------------------------------------------ the config
/// Whether some API entry carries the provider `p`.
pub open spec fn has_provider(apis: Seq<ApiConfigView>, p: ApiProvider) -> bool {
    exists|i: int| 0 <= i < apis.len() && apis[i].provider == p
}

/// The index of the entry for `p` (meaningful only when `has_provider`).
pub open spec fn provider_idx(apis: Seq<ApiConfigView>, p: ApiProvider) -> int {
    choose|i: int| 0 <= i < apis.len() && apis[i].provider == p
}

/// Pure lookup of the configuration for provider `p`, if any.
pub open spec fn spec_api_lookup(apis: Seq<ApiConfigView>, p: ApiProvider) -> Option<
    ApiConfigView,
> {
    if has_provider(apis, p) {
        Some(apis[provider_idx(apis, p)])
    } else {
        None
    }
}

/// Providers are unique within the table.
pub open spec fn unique_providers(apis: Seq<ApiConfigView>) -> bool {
    forall|i: int, j: int| 0 <= i < j < apis.len() ==> apis[i].provider != apis[j].provider
}

proof fn lemma_provider_idx(apis: Seq<ApiConfigView>, i: int)
    requires
        unique_providers(apis),
        0 <= i < apis.len(),
    ensures
        has_provider(apis, apis[i].provider),
        provider_idx(apis, apis[i].provider) == i,
{
    assert(has_provider(apis, apis[i].provider));
    let j = provider_idx(apis, apis[i].provider);
    assert(0 <= j < apis.len() && apis[j].provider == apis[i].provider);
    if i < j {
        assert(apis[i].provider != apis[j].provider);
    } else if j < i {
        assert(apis[j].provider != apis[i].provider);
    }
}

/// Full application configuration: one API entry per configured provider,
/// the default provider, and the authentication configuration, if any.
#[derive(Debug)]
pub struct Config {
    pub apis: Vec<ApiConfig>,
    pub default_provider: Option<ApiProvider>,
    pub auth: Option<AuthConfig>,
}

/// Mathematical image of a `Config`.
pub ghost struct ConfigView {
    pub apis: Seq<ApiConfigView>,
    pub default_provider: Option<ApiProvider>,
    pub auth: Option<AuthConfigView>,
}

impl View for Config {
    type V = ConfigView;

    open spec fn view(&self) -> ConfigView {
        ConfigView {
            apis: self.apis@.map_values(|a: ApiConfig| a@),
            default_provider: self.default_provider,
            auth: match self.auth {
                Some(a) => Some(a@),
                None => None,
            },
        }
    }
}

impl Config {
    pub open spec fn wf(&self) -> bool {
        &&& unique_providers(self@.apis)
        &&& match self.auth {
            Some(a) => a.wf(),
            None => true,
        }
    }

    /// Finds the position of the entry for `provider`, if any.
    fn api_position(&self, provider: ApiProvider) -> (r: Option<usize>)
        requires
            self.wf(),
        ensures
            match r {
                Some(p) => p < self@.apis.len() && self@.apis[p as int].provider == provider
                    && has_provider(self@.apis, provider) && provider_idx(self@.apis, provider)
                    == p,
                None => !has_provider(self@.apis, provider),
            },
    {
        let mut i: usize = 0;
        while i < self.apis.len()
            invariant
                self.wf(),
                i <= self.apis@.len(),
                self@.apis.len() == self.apis@.len(),
                forall|k: int| 0 <= k < i ==> (#[trigger] self@.apis[k]).provider != provider,
            decreases self.apis@.len() - i,
        {
            assert(self@.apis[i as int] == self.apis@[i as int]@);
            if self.apis[i].provider == provider {
                proof {
                    lemma_provider_idx(self@.apis, i as int);
                }
                return Some(i);
            }
            i = i + 1;
        }
        None
    }

    /// The API configuration for the given provider, if one is configured.
    pub fn get_api_config(&self, provider: ApiProvider) -> (r: Option<ApiConfig>)
        requires
            self.wf(),
        ensures
            match r {
                Some(c) => spec_api_lookup(self@.apis, provider) == Some(c@),
                None => spec_api_lookup(self@.apis, provider) is None,
            },
    {
        match self.api_position(provider) {
            Some(p) => Some(self.apis[p].clone()),
            None => None,
        }
    }

    /// The API configuration of the default provider, if both exist.
    pub fn get_default_api_config(&self) -> (r: Option<ApiConfig>)
        requires
            self.wf(),
        ensures
            match self@.default_provider {
                None => r is None,
                Some(p) => match r {
                    Some(c) => spec_api_lookup(self@.apis, p) == Some(c@),
                    None => spec_api_lookup(self@.apis, p) is None,
                },
            },
    {
        match self.default_provider {
            Some(p) => self.get_api_config(p),
            None => None,
        }
    }

    /// The providers that have a configuration, in table order.
    pub fn available_providers(&self) -> (r: Vec<ApiProvider>)
        ensures
            r@ == self@.apis.map_values(|a: ApiConfigView| a.provider),
    {
        let mut out: Vec<ApiProvider> = Vec::new();
        let mut i: usize = 0;
        while i < self.apis.len()
            invariant
                i <= self.apis@.len(),
                out@.len() == i,
                forall|k: int| 0 <= k < i ==> out@[k] == self@.apis[k].provider,
            decreases self.apis@.len() - i,
        {
            assert(self@.apis[i as int] == self.apis@[i as int]@);
            out.push(self.apis[i].provider);
            i = i + 1;
        }
        assert(out@ =~= self@.apis.map_values(|a: ApiConfigView| a.provider));
        out
    }

    /// The authentication secret for RPC, if the configuration holds one.
    pub fn get_rpc_secret(&self) -> (r: Option<String>)
        ensures
            match self@.auth {
                Some(a) => match a.rpc_secret {
                    Some(s) => r matches Some(x) && x@ == s,
                    None => r is None,
                },
                None => r is None,
            },
    {
        match &self.auth {
            Some(a) => match &a.rpc_secret {
                Some(s) => Some(s.clone()),
                None => None,
            },
            None => None,
        }
    }

    /// The endpoint configuration stored under `name`, if any.
    pub fn get_endpoint_config(&self, name: &str) -> (r: Option<EndpointConfig>)
        requires
            self.wf(),
        ensures
            match self@.auth {
                Some(a) => match r {
                    Some(e) => spec_endpoint_lookup(a.endpoints, name@) == Some(e@),
                    None => spec_endpoint_lookup(a.endpoints, name@) is None,
                },
                None => r is None,
            },
    {
        match &self.auth {
            Some(a) => match a.endpoint_position(name) {
                Some(p) => {
                    let (_, e) = &a.endpoints[p];
                    assert(a@.endpoints[p as int].1 == a.endpoints@[p as int].1@);
                    Some(e.clone())
                }
                None => None,
            },
            None => None,
        }
    }
}

// ------------------------------------------------------------ defaults
/// The default provider, chosen as the first configured one in the fixed
/// order, then overridden by an explicitly named provider when that
/// provider is configured too.
pub open spec fn spec_default_provider(
    apis: Seq<ApiConfigView>,
    override_name: Option<Seq<char>>,
) -> Option<ApiProvider> {
    let first = if has_provider(apis, ApiProvider::OpenAI) {
        Some(ApiProvider::OpenAI)
    } else if has_provider(apis, ApiProvider::Anthropic) {
        Some(ApiProvider::Anthropic)
    } else if has_provider(apis, ApiProvider::Gemini) {
        Some(ApiProvider::Gemini)
    } else if has_provider(apis, ApiProvider::Custom) {
        Some(ApiProvider::Custom)
    } else {
        None
    };
    match override_name {
        None => first,
        Some(s) => {
            let l = lower_seq(s);
            if l == "openai"@ && has_provider(apis, ApiProvider::OpenAI) {
                Some(ApiProvider::OpenAI)
            } else if l == "anthropic"@ && has_provider(apis, ApiProvider::Anthropic) {
                Some(ApiProvider::Anthropic)
            } else if l == "gemini"@ && has_provider(apis, ApiProvider::Gemini) {
                Some(ApiProvider::Gemini)
            } else if l == "custom"@ && has_provider(apis, ApiProvider::Custom) {
                Some(ApiProvider::Custom)
            } else {
                first
            }
        }
    }
}

/// Whether the table holds an entry for `provider`.
fn contains_provider(apis: &Vec<ApiConfig>, provider: ApiProvider) -> (r: bool)
    ensures
        r == has_provider(apis@.map_values(|a: ApiConfig| a@), provider),
{
    let ghost views = apis@.map_values(|a: ApiConfig| a@);
    let mut i: usize = 0;
    while i < apis.len()
        invariant
            i <= apis@.len(),
            views == apis@.map_values(|a: ApiConfig| a@),
            forall|k: int| 0 <= k < i ==> (#[trigger] views[k]).provider != provider,
        decreases apis@.len() - i,
    {
        assert(views[i as int] == apis@[i as int]@);
        if apis[i].provider == provider {
            return true;
        }
        i = i + 1;
    }
    false
}

impl Config {
    /// Chooses the default provider: the first configured one in the fixed
    /// order, overridden by the explicitly named provider where that one is
    /// configured as well. The override name is compared without regard to
    /// ASCII case.
    pub fn get_default_provider(apis: &Vec<ApiConfig>, override_name: &Option<String>) -> (r:
        Option<ApiProvider>)
        ensures
            r == spec_default_provider(
                apis@.map_values(|a: ApiConfig| a@),
                view_opt(*override_name),
            ),
    {
        let first = if contains_provider(apis, ApiProvider::OpenAI) {
            Some(ApiProvider::OpenAI)
        } else if contains_provider(apis, ApiProvider::Anthropic) {
            Some(ApiProvider::Anthropic)
        } else if contains_provider(apis, ApiProvider::Gemini) {
            Some(ApiProvider::Gemini)
        } else if contains_provider(apis, ApiProvider::Custom) {
            Some(ApiProvider::Custom)
        } else {
            None
        };
        match override_name {
            None => first,
            Some(s) => {
                let n = s.as_str().unicode_len();
                let mut low: Vec<char> = Vec::new();
                let mut i: usize = 0;
                while i < n
                    invariant
                        i <= n,
                        n == s@.len(),
                        low@.len() == i,
                        forall|k: int| 0 <= k < i ==> low@[k] == lower_char(s@[k]),
                    decreases n - i,
                {
                    low.push(lower_char_x(s.as_str().get_char(i)));
                    i = i + 1;
                }
                assert(low@ =~= lower_seq(s@));
                if vec_eq_str(&low, "openai") && contains_provider(apis, ApiProvider::OpenAI) {
                    Some(ApiProvider::OpenAI)
                } else if vec_eq_str(&low, "anthropic") && contains_provider(
                    apis,
                    ApiProvider::Anthropic,
                ) {
                    Some(ApiProvider::Anthropic)
                } else if vec_eq_str(&low, "gemini") && contains_provider(
                    apis,
                    ApiProvider::Gemini,
                ) {
                    Some(ApiProvider::Gemini)
                } else if vec_eq_str(&low, "custom") && contains_provider(
                    apis,
                    ApiProvider::Custom,
                ) {
                    Some(ApiProvider::Custom)
                } else {
                    first
                }
            }
        }
    }
}

} // verus!
