//! The models on offer and what is known of them.

use crate::custom_model_routers;
use crate::providers;
use crate::providers::CustomProviderConfig;
use crate::text;
use vstd::prelude::*;

pub use crate::providers::LLMCapabilities;

verus! {

/// The key under which the models on offer are cached in the user's
/// preferences.
pub const MODELS_BY_FEATURE_CACHE_KEY: &'static str = "AvailableLLMs";

/// The identifier of a model.
#[derive(Debug, PartialEq, Eq, Hash)]
pub struct LLMId(pub String);

impl View for LLMId {
    type V = Seq<char>;

    open spec fn view(&self) -> Seq<char> {
        self.0@
    }
}

impl Clone for LLMId {
    fn clone(&self) -> (r: Self)
        ensures
            r@ == self@,
    {
        LLMId(self.0.clone())
    }
}

impl LLMId {
    pub fn new(id: &str) -> (r: LLMId)
        ensures
            r@ == id@,
    {
        LLMId(id.to_owned())
    }

    pub fn as_str(&self) -> (r: &str)
        ensures
            r@ == self@,
    {
        self.0.as_str()
    }

    /// Whether two identifiers are the same text.
    pub fn same(&self, other: &LLMId) -> (r: bool)
        ensures
            r == (self@ == other@),
    {
        text::same_text(self.0.as_str(), other.0.as_str())
    }
}

/// An optional identifier, over character sequences.
pub open spec fn id_opt(id: Option<LLMId>) -> Option<Seq<char>> {
    match id {
        Some(id) => Some(id@),
        None => None,
    }
}

/// A copy of an optional identifier.
pub fn clone_id_opt(id: &Option<LLMId>) -> (r: Option<LLMId>)
    ensures
        id_opt(r) == id_opt(*id),
{
    match id {
        Some(id) => Some(id.clone()),
        None => None,
    }
}

/// Whether two optional identifiers are the same.
pub fn same_id_opt(a: &Option<LLMId>, b: &Option<LLMId>) -> (r: bool)
    ensures
        r == (id_opt(*a) == id_opt(*b)),
{
    match (a, b) {
        (Some(a), Some(b)) => a.same(b),
        (None, None) => true,
        _ => false,
    }
}

/// What a request to a model counts for.
#[derive(Clone, Copy, Debug, PartialEq, Eq, Structural)]
pub struct LLMUsageMetadata {
    pub request_multiplier: usize,
}

/// Why a model cannot be chosen.
#[derive(Clone, Copy, Debug, PartialEq, Eq, Hash, Structural)]
pub enum DisableReason {
    AdminDisabled,
    OutOfRequests,
    ProviderOutage,
    Unavailable,
}

/// The text that explains to the user why a model is disabled.
pub open spec fn tooltip_of(reason: DisableReason) -> Seq<char> {
    match reason {
        DisableReason::AdminDisabled => "This model is disabled by local provider settings."@,
        DisableReason::OutOfRequests =>
            "This hosted quota path is unavailable. Configure a local or BYOK provider."@,
        DisableReason::ProviderOutage =>
            "This model is temporarily unavailable due to a provider outage."@,
        DisableReason::Unavailable => "This model is unavailable."@,
    }
}

/// Whether a reason will not go away by itself, so that a preference for the
/// model is cleared. Quotas and outages are transient.
pub open spec fn clears_preference(reason: DisableReason) -> bool {
    reason is AdminDisabled || reason is Unavailable
}

impl DisableReason {
    pub fn tooltip_text(&self) -> (r: &'static str)
        ensures
            r@ == tooltip_of(*self),
    {
        match self {
            DisableReason::AdminDisabled => "This model is disabled by local provider settings.",
            DisableReason::OutOfRequests =>
                "This hosted quota path is unavailable. Configure a local or BYOK provider.",
            DisableReason::ProviderOutage =>
                "This model is temporarily unavailable due to a provider outage.",
            DisableReason::Unavailable => "This model is unavailable.",
        }
    }

    /// Whether a preference for a model disabled for this reason is cleared.
    pub fn should_clear_preference(&self) -> (r: bool)
        ensures
            r == clears_preference(*self),
    {
        match self {
            DisableReason::AdminDisabled => true,
            DisableReason::Unavailable => true,
            DisableReason::OutOfRequests => false,
            DisableReason::ProviderOutage => false,
        }
    }
}

/// Who provides a model.
#[derive(Debug, PartialEq, Eq, Hash)]
pub enum LLMProvider<S = String> {
    OpenAI,
    Anthropic,
    Google,
    Xai,
    /// A provider that the user has configured, by its name.
    Custom(S),
    Unknown,
}

impl View for LLMProvider<String> {
    type V = LLMProvider<Seq<char>>;

    open spec fn view(&self) -> LLMProvider<Seq<char>> {
        match self {
            LLMProvider::OpenAI => LLMProvider::OpenAI,
            LLMProvider::Anthropic => LLMProvider::Anthropic,
            LLMProvider::Google => LLMProvider::Google,
            LLMProvider::Xai => LLMProvider::Xai,
            LLMProvider::Custom(name) => LLMProvider::Custom(name@),
            LLMProvider::Unknown => LLMProvider::Unknown,
        }
    }
}

impl Clone for LLMProvider<String> {
    fn clone(&self) -> (r: Self)
        ensures
            r@ == self@,
    {
        match self {
            LLMProvider::OpenAI => LLMProvider::OpenAI,
            LLMProvider::Anthropic => LLMProvider::Anthropic,
            LLMProvider::Google => LLMProvider::Google,
            LLMProvider::Xai => LLMProvider::Xai,
            LLMProvider::Custom(name) => LLMProvider::Custom(name.clone()),
            LLMProvider::Unknown => LLMProvider::Unknown,
        }
    }
}

/// A logo that stands beside a model.
#[derive(Clone, Copy, Debug, PartialEq, Eq, Structural)]
pub enum Icon {
    OpenAILogo,
    ClaudeLogo,
    GeminiLogo,
}

impl LLMProvider {
    /// The logo of a provider, if there is one.
    pub fn icon(&self) -> (r: Option<Icon>)
        ensures
            r == (match self@ {
                LLMProvider::OpenAI => Some(Icon::OpenAILogo),
                LLMProvider::Anthropic => Some(Icon::ClaudeLogo),
                LLMProvider::Google => Some(Icon::GeminiLogo),
                _ => None,
            }),
    {
        match self {
            LLMProvider::OpenAI => Some(Icon::OpenAILogo),
            LLMProvider::Anthropic => Some(Icon::ClaudeLogo),
            LLMProvider::Google => Some(Icon::GeminiLogo),
            LLMProvider::Xai => None,
            LLMProvider::Custom(_) => None,
            LLMProvider::Unknown => None,
        }
    }
}

/// The keys that the user has stored, and whether they may be used at all.
pub struct StoredApiKeys {
    pub byo_api_key_enabled: bool,
    pub openai: bool,
    pub anthropic: bool,
    pub google: bool,
    /// The configured providers with a key of their own.
    pub custom: Vec<String>,
}

/// Whether a key of the user's own is used with a provider.
pub open spec fn uses_api_key(provider: LLMProvider<Seq<char>>, keys: StoredApiKeys) -> bool {
    keys.byo_api_key_enabled && match provider {
        LLMProvider::OpenAI => keys.openai,
        LLMProvider::Anthropic => keys.anthropic,
        LLMProvider::Google => keys.google,
        LLMProvider::Custom(name) => text::texts(keys.custom@).contains(name),
        LLMProvider::Xai => false,
        LLMProvider::Unknown => false,
    }
}

pub fn is_using_api_key_for_provider(provider: &LLMProvider, keys: &StoredApiKeys) -> (r: bool)
    ensures
        r == uses_api_key(provider@, *keys),
{
    if !keys.byo_api_key_enabled {
        return false;
    }
    match provider {
        LLMProvider::OpenAI => keys.openai,
        LLMProvider::Anthropic => keys.anthropic,
        LLMProvider::Google => keys.google,
        LLMProvider::Custom(name) => text::strings_contain(&keys.custom, name.as_str()),
        _ => false,
    }
}

/// Where a model can be routed to.
#[derive(Clone, Copy, Debug, PartialEq, Eq, Hash, Structural)]
pub enum LLMModelHost {
    DirectApi,
    AwsBedrock,
    CustomEndpoint,
    Unknown,
}

/// Whether a model may be routed to a host.
#[derive(Clone, Copy, Debug, PartialEq, Eq, Structural)]
pub struct RoutingHostConfig {
    pub enabled: bool,
    pub model_routing_host: LLMModelHost,
}

/// How much context a model takes, in tokens.
#[derive(Clone, Copy, Debug, PartialEq, Eq, Structural)]
pub struct LLMContextWindow {
    pub is_configurable: bool,
    pub min: u32,
    pub max: u32,
    pub default_max: u32,
}

pub open spec fn no_context_window() -> LLMContextWindow {
    LLMContextWindow { is_configurable: false, min: 0, max: 0, default_max: 0 }
}

impl Default for LLMContextWindow {
    fn default() -> (r: Self)
        ensures
            r == no_context_window(),
    {
        LLMContextWindow { is_configurable: false, min: 0, max: 0, default_max: 0 }
    }
}

/// The window of a provider whose limit the user cannot change.
pub open spec fn fixed_window(min: u32, tokens: Option<u32>) -> LLMContextWindow {
    match tokens {
        Some(tokens) => LLMContextWindow {
            is_configurable: false,
            min,
            max: tokens,
            default_max: tokens,
        },
        None => no_context_window(),
    }
}

fn fixed_context_window(min: u32, tokens: Option<u32>) -> (r: LLMContextWindow)
    ensures
        r == fixed_window(min, tokens),
{
    match tokens {
        Some(tokens) => LLMContextWindow {
            is_configurable: false,
            min,
            max: tokens,
            default_max: tokens,
        },
        None => LLMContextWindow::default(),
    }
}

/// A host with the configuration that is kept under it.
pub type HostEntry = (LLMModelHost, RoutingHostConfig);

/// The configuration for each host: of several for the same host the last one
/// counts.
pub open spec fn hosts_of(configs: Seq<HostEntry>) -> Map<LLMModelHost, RoutingHostConfig>
    decreases configs.len(),
{
    if configs.len() == 0 {
        Map::empty()
    } else {
        hosts_of(configs.drop_last()).insert(configs.last().0, configs.last().1)
    }
}

/// Whether no host comes twice.
pub open spec fn hosts_unique(configs: Seq<HostEntry>) -> bool {
    forall|i: int, j: int|
        #![trigger configs[i], configs[j]]
        0 <= i < j < configs.len() ==> configs[i].0 != configs[j].0
}

/// Configurations with the hosts that they name.
pub open spec fn by_own_host(configs: Seq<RoutingHostConfig>) -> Seq<HostEntry> {
    Seq::new(configs.len(), |i: int| (configs[i].model_routing_host, configs[i]))
}

/// What is known of a model.
#[derive(Debug)]
pub struct LLMInfo {
    pub display_name: String,
    pub base_model_name: String,
    pub id: LLMId,
    pub reasoning_level: Option<String>,
    pub usage_metadata: LLMUsageMetadata,
    pub description: Option<String>,
    pub disable_reason: Option<DisableReason>,
    pub vision_supported: bool,
    pub provider: LLMProvider,
    /// At most one configuration for each host.
    pub host_configs: Vec<HostEntry>,
    pub context_window: LLMContextWindow,
    /// What the transport can deliver, where that is known.
    pub capabilities: Option<LLMCapabilities>,
}

/// What an [`LLMInfo`] says.
#[verifier::ext_equal]
pub struct InfoModel {
    pub display_name: Seq<char>,
    pub base_model_name: Seq<char>,
    pub id: Seq<char>,
    pub reasoning_level: Option<Seq<char>>,
    pub usage_metadata: LLMUsageMetadata,
    pub description: Option<Seq<char>>,
    pub disable_reason: Option<DisableReason>,
    pub vision_supported: bool,
    pub provider: LLMProvider<Seq<char>>,
    pub host_configs: Map<LLMModelHost, RoutingHostConfig>,
    pub context_window: LLMContextWindow,
    pub capabilities: Option<LLMCapabilities>,
}

impl View for LLMInfo {
    type V = InfoModel;

    open spec fn view(&self) -> InfoModel {
        InfoModel {
            display_name: self.display_name@,
            base_model_name: self.base_model_name@,
            id: self.id@,
            reasoning_level: text::text_opt(self.reasoning_level),
            usage_metadata: self.usage_metadata,
            description: text::text_opt(self.description),
            disable_reason: self.disable_reason,
            vision_supported: self.vision_supported,
            provider: self.provider@,
            host_configs: hosts_of(self.host_configs@),
            context_window: self.context_window,
            capabilities: self.capabilities,
        }
    }
}

pub open spec fn infos(v: Seq<LLMInfo>) -> Seq<InfoModel> {
    Seq::new(v.len(), |i: int| v[i]@)
}

fn clone_hosts(v: &Vec<HostEntry>) -> (r: Vec<HostEntry>)
    ensures
        r@ == v@,
{
    let mut out: Vec<HostEntry> = Vec::new();
    let mut i: usize = 0;
    while i < v.len()
        invariant
            i <= v.len(),
            out@ == v@.subrange(0, i as int),
        decreases v.len() - i,
    {
        out.push(v[i]);
        i += 1;
        assert(v@.subrange(0, i as int) =~= v@.subrange(0, i - 1).push(v@[i - 1]));
    }
    assert(v@.subrange(0, v@.len() as int) =~= v@);
    out
}

impl Clone for LLMInfo {
    fn clone(&self) -> (r: Self)
        ensures
            r@ == self@,
            hosts_unique(self.host_configs@) ==> hosts_unique(r.host_configs@),
    {
        LLMInfo {
            display_name: self.display_name.clone(),
            base_model_name: self.base_model_name.clone(),
            id: self.id.clone(),
            reasoning_level: text::clone_opt(&self.reasoning_level),
            usage_metadata: self.usage_metadata,
            description: text::clone_opt(&self.description),
            disable_reason: self.disable_reason,
            vision_supported: self.vision_supported,
            provider: self.provider.clone(),
            host_configs: clone_hosts(&self.host_configs),
            context_window: self.context_window,
            capabilities: self.capabilities,
        }
    }
}

/// Copies of a list of models.
pub fn clone_infos(v: &Vec<LLMInfo>) -> (r: Vec<LLMInfo>)
    ensures
        infos(r@) == infos(v@),
{
    let mut out: Vec<LLMInfo> = Vec::new();
    let mut i: usize = 0;
    while i < v.len()
        invariant
            i <= v.len(),
            out.len() == i,
            forall|j: int| 0 <= j < i ==> (#[trigger] out@[j])@ == v@[j]@,
        decreases v.len() - i,
    {
        out.push(v[i].clone());
        i += 1;
    }
    assert(infos(out@) =~= infos(v@));
    out
}

/// Host configurations as the wire format gives them: a list, or a map of which
/// these are the entries.
pub enum WireHostConfigs {
    List(Vec<RoutingHostConfig>),
    ByHost(Vec<HostEntry>),
}

/// The configuration for each host. The entries of a map are kept as they are;
/// the last one of a list counts.
pub open spec fn received_hosts(wire: WireHostConfigs) -> Map<LLMModelHost, RoutingHostConfig> {
    match wire {
        WireHostConfigs::List(configs) => hosts_of(by_own_host(configs@)),
        WireHostConfigs::ByHost(entries) => hosts_of(entries@),
    }
}

/// A model as the wire format describes it.
pub struct WireLLMInfo {
    pub display_name: String,
    pub base_model_name: Option<String>,
    pub id: LLMId,
    pub reasoning_level: Option<String>,
    pub usage_metadata: LLMUsageMetadata,
    pub description: Option<String>,
    pub disable_reason: Option<DisableReason>,
    pub vision_supported: bool,
    pub provider: LLMProvider,
    pub host_configs: WireHostConfigs,
    pub context_window: LLMContextWindow,
    pub capabilities: Option<LLMCapabilities>,
}

/// What a model described by the wire format is. A missing base name is the
/// display name.
pub open spec fn received_model(wire: WireLLMInfo) -> InfoModel {
    InfoModel {
        display_name: wire.display_name@,
        base_model_name: match wire.base_model_name {
            Some(name) => name@,
            None => wire.display_name@,
        },
        id: wire.id@,
        reasoning_level: text::text_opt(wire.reasoning_level),
        usage_metadata: wire.usage_metadata,
        description: text::text_opt(wire.description),
        disable_reason: wire.disable_reason,
        vision_supported: wire.vision_supported,
        provider: wire.provider@,
        host_configs: received_hosts(wire.host_configs),
        context_window: wire.context_window,
        capabilities: wire.capabilities,
    }
}

proof fn lemma_hosts_of_update(configs: Seq<HostEntry>, at: int, entry: HostEntry)
    requires
        hosts_unique(configs),
        0 <= at < configs.len(),
        configs[at].0 == entry.0,
    ensures
        hosts_of(configs.update(at, entry)) == hosts_of(configs).insert(entry.0, entry.1),
        hosts_unique(configs.update(at, entry)),
    decreases configs.len(),
{
    let updated = configs.update(at, entry);
    let rest = configs.drop_last();
    if at == configs.len() - 1 {
        assert(updated.drop_last() =~= rest);
        assert(hosts_of(updated) =~= hosts_of(configs).insert(entry.0, entry.1));
    } else {
        assert(updated.drop_last() =~= rest.update(at, entry));
        lemma_hosts_of_update(rest, at, entry);
        assert(configs[at].0 != configs.last().0);
        assert(hosts_of(updated) =~= hosts_of(configs).insert(entry.0, entry.1));
    }
}

/// One configuration for each host: the last one.
fn latest_hosts(configs: &Vec<HostEntry>) -> (r: Vec<HostEntry>)
    ensures
        hosts_of(r@) == hosts_of(configs@),
        hosts_unique(r@),
{
    let mut out: Vec<HostEntry> = Vec::new();
    let mut i: usize = 0;
    assert(configs@.subrange(0, 0) =~= Seq::<HostEntry>::empty());
    while i < configs.len()
        invariant
            i <= configs.len(),
            hosts_of(out@) == hosts_of(configs@.subrange(0, i as int)),
            hosts_unique(out@),
        decreases configs.len() - i,
    {
        let entry = configs[i];
        let mut k: usize = 0;
        while k < out.len() && out[k].0 != entry.0
            invariant
                k <= out.len(),
                forall|j: int| 0 <= j < k ==> (#[trigger] out@[j]).0 != entry.0,
            decreases out.len() - k,
        {
            k += 1;
        }
        let ghost before = out@;
        if k < out.len() {
            out.set(k, entry);
            proof {
                lemma_hosts_of_update(before, k as int, entry);
                assert(out@ =~= before.update(k as int, entry));
            }
        } else {
            out.push(entry);
            assert(out@.drop_last() =~= before);
        }
        i += 1;
        assert(configs@.subrange(0, i as int).drop_last() =~= configs@.subrange(0, i - 1));
    }
    assert(configs@.subrange(0, configs@.len() as int) =~= configs@);
    out
}

/// Configurations with the hosts that they name.
fn keyed_hosts(configs: &Vec<RoutingHostConfig>) -> (r: Vec<HostEntry>)
    ensures
        r@ == by_own_host(configs@),
{
    let mut out: Vec<HostEntry> = Vec::new();
    let mut i: usize = 0;
    while i < configs.len()
        invariant
            i <= configs.len(),
            out.len() == i,
            forall|j: int| 0 <= j < i ==> #[trigger] out@[j] == by_own_host(configs@)[j],
        decreases configs.len() - i,
    {
        out.push((configs[i].model_routing_host, configs[i]));
        i += 1;
    }
    assert(out@ =~= by_own_host(configs@));
    out
}

/// The label of a model in the selector: routers by their name alone, other
/// models with their description in brackets.
pub open spec fn menu_label(info: InfoModel) -> Seq<char> {
    if custom_model_routers::is_router_id(info.id) || info.description is None {
        info.display_name
    } else {
        info.display_name + " ("@ + info.description->0 + ")"@
    }
}

impl LLMInfo {
    /// Takes a model from the wire format.
    pub fn from_wire(wire: WireLLMInfo) -> (r: LLMInfo)
        ensures
            r@ == received_model(wire),
            hosts_unique(r.host_configs@),
    {
        let base_model_name = match wire.base_model_name {
            Some(name) => name,
            None => wire.display_name.clone(),
        };
        let host_configs = match &wire.host_configs {
            WireHostConfigs::List(configs) => latest_hosts(&keyed_hosts(configs)),
            WireHostConfigs::ByHost(entries) => latest_hosts(entries),
        };
        LLMInfo {
            display_name: wire.display_name,
            base_model_name,
            id: wire.id,
            reasoning_level: wire.reasoning_level,
            usage_metadata: wire.usage_metadata,
            description: wire.description,
            disable_reason: wire.disable_reason,
            vision_supported: wire.vision_supported,
            provider: wire.provider,
            host_configs,
            context_window: wire.context_window,
            capabilities: wire.capabilities,
        }
    }

    /// The model in the wire format in which it is stored: whoever receives it
    /// receives this model.
    pub fn to_wire(&self) -> (r: WireLLMInfo)
        ensures
            received_model(r) == self@,
            r.base_model_name is Some,
            r.host_configs is ByHost,
    {
        let r = WireLLMInfo {
            display_name: self.display_name.clone(),
            base_model_name: Some(self.base_model_name.clone()),
            id: self.id.clone(),
            reasoning_level: text::clone_opt(&self.reasoning_level),
            usage_metadata: self.usage_metadata,
            description: text::clone_opt(&self.description),
            disable_reason: self.disable_reason,
            vision_supported: self.vision_supported,
            provider: self.provider.clone(),
            host_configs: WireHostConfigs::ByHost(clone_hosts(&self.host_configs)),
            context_window: self.context_window,
            capabilities: self.capabilities,
        };
        assert(received_model(r) =~= self@);
        r
    }

    pub fn menu_display_name(&self) -> (r: String)
        ensures
            r@ == menu_label(self@),
    {
        if custom_model_routers::is_custom_router_id(self.id.as_str()) {
            return self.display_name.clone();
        }
        match &self.description {
            Some(description) => text::concat4(
                self.display_name.as_str(),
                " (",
                description.as_str(),
                ")",
            ),
            None => self.display_name.clone(),
        }
    }

    pub fn base_model_name(&self) -> (r: &str)
        ensures
            r@ == self@.base_model_name,
    {
        self.base_model_name.as_str()
    }

    pub fn has_reasoning_level(&self) -> (r: bool)
        ensures
            r == (self@.reasoning_level is Some),
    {
        self.reasoning_level.is_some()
    }

    pub fn reasoning_level(&self) -> (r: Option<String>)
        ensures
            text::text_opt(r) == self@.reasoning_level,
    {
        text::clone_opt(&self.reasoning_level)
    }
}

/// Whether requests can be sent to a model: it is not disabled, or only for a
/// while.
pub open spec fn usable(info: InfoModel) -> bool {
    match info.disable_reason {
        Some(reason) => !clears_preference(reason),
        None => true,
    }
}

pub fn is_usable_llm(info: &LLMInfo) -> (r: bool)
    ensures
        r == usable(info@),
{
    match &info.disable_reason {
        Some(reason) => !reason.should_clear_preference(),
        None => true,
    }
}

/// The base names of a list of models, in order and each once.
pub fn dedupe_model_display_names(choices: &Vec<LLMInfo>) -> (r: Vec<String>)
    ensures
        text::ascending(text::texts(r@)),
        forall|name: Seq<char>| #[trigger]
            text::texts(r@).contains(name) <==> exists|i: int|
                0 <= i < choices@.len() && (#[trigger] choices@[i])@.base_model_name == name,
{
    let mut out: Vec<String> = Vec::new();
    let mut i: usize = 0;
    while i < choices.len()
        invariant
            i <= choices.len(),
            text::ascending(text::texts(out@)),
            forall|name: Seq<char>| #[trigger]
                text::texts(out@).contains(name) <==> exists|k: int|
                    0 <= k < i && (#[trigger] choices@[k])@.base_model_name == name,
        decreases choices.len() - i,
    {
        let ghost before = text::texts(out@);
        text::insert_ascending(&mut out, choices[i].base_model_name.clone());
        proof {
            assert forall|name: Seq<char>| #[trigger]
                text::texts(out@).contains(name) <==> exists|k: int|
                    0 <= k < i + 1 && (#[trigger] choices@[k])@.base_model_name == name by {
                if before.contains(name) {
                    let k = choose|k: int|
                        0 <= k < i && (#[trigger] choices@[k])@.base_model_name == name;
                    assert(choices@[k]@.base_model_name == name);
                }
                if name == choices@[i as int]@.base_model_name {
                    assert(choices@[i as int]@.base_model_name == name);
                }
            }
        }
        i += 1;
    }
    out
}

// ---------------------------------------------------------------------------
// The models for a feature.

/// The models that are available for a feature.
#[derive(Debug, PartialEq)]
pub struct AvailableLLMs {
    default_id: LLMId,
    choices: Vec<LLMInfo>,
    preferred_codex_model_id: Option<LLMId>,
}

/// What is available for a feature.
#[verifier::ext_equal]
pub struct AvailableModel {
    pub default_id: Seq<char>,
    pub choices: Seq<InfoModel>,
    pub preferred_codex_model_id: Option<Seq<char>>,
}

impl View for AvailableLLMs {
    type V = AvailableModel;

    closed spec fn view(&self) -> AvailableModel {
        AvailableModel {
            default_id: self.default_id@,
            choices: infos(self.choices@),
            preferred_codex_model_id: id_opt(self.preferred_codex_model_id),
        }
    }
}

/// The position of the first model of an identifier from a position on, or
/// their number.
pub open spec fn model_position(choices: Seq<InfoModel>, id: Seq<char>, from: int) -> int
    decreases choices.len() - from,
{
    if from >= choices.len() {
        choices.len() as int
    } else if choices[from].id == id {
        from
    } else {
        model_position(choices, id, from + 1)
    }
}

/// The position of the first usable model from a position on, or their number.
pub open spec fn usable_position(choices: Seq<InfoModel>, from: int) -> int
    decreases choices.len() - from,
{
    if from >= choices.len() {
        choices.len() as int
    } else if usable(choices[from]) {
        from
    } else {
        usable_position(choices, from + 1)
    }
}

/// The model at a position, if there is one.
pub open spec fn model_at(choices: Seq<InfoModel>, i: int) -> Option<InfoModel> {
    if 0 <= i < choices.len() {
        Some(choices[i])
    } else {
        None
    }
}

impl AvailableModel {
    /// At least one model is available.
    pub open spec fn valid(self) -> bool {
        self.choices.len() > 0
    }

    /// What is known of the model of that identifier.
    pub open spec fn info(self, id: Seq<char>) -> Option<InfoModel> {
        model_at(self.choices, model_position(self.choices, id, 0))
    }

    /// The same, if the model can be used.
    pub open spec fn usable_info(self, id: Seq<char>) -> Option<InfoModel> {
        match self.info(id) {
            Some(info) => if usable(info) {
                Some(info)
            } else {
                None
            },
            None => None,
        }
    }

    /// The default model: the one of the default identifier, or else the
    /// first.
    pub open spec fn default_info(self) -> InfoModel {
        match self.info(self.default_id) {
            Some(info) => info,
            None => self.choices[0],
        }
    }

    /// The default model if it can be used, or else the first one that can.
    pub open spec fn usable_default(self) -> Option<InfoModel> {
        match self.usable_info(self.default_id) {
            Some(info) => Some(info),
            None => model_at(self.choices, usable_position(self.choices, 0)),
        }
    }
}

/// What a reference to a model shows.
pub open spec fn seen(info: Option<&LLMInfo>) -> Option<InfoModel> {
    match info {
        Some(info) => Some(info@),
        None => None,
    }
}

/// What a new list of models is: an unknown default gives way to the first.
pub open spec fn available_of(
    default_id: Seq<char>,
    choices: Seq<InfoModel>,
    preferred: Option<Seq<char>>,
) -> AvailableModel {
    AvailableModel {
        default_id: if model_position(choices, default_id, 0) < choices.len() {
            default_id
        } else {
            choices[0].id
        },
        choices,
        preferred_codex_model_id: preferred,
    }
}

fn find_model(choices: &Vec<LLMInfo>, id: &str) -> (r: usize)
    ensures
        r == model_position(infos(choices@), id@, 0),
        r <= choices.len(),
{
    let ghost models = infos(choices@);
    let mut i: usize = 0;
    while i < choices.len()
        invariant
            i <= choices.len(),
            models == infos(choices@),
            model_position(models, id@, 0) == model_position(models, id@, i as int),
        decreases choices.len() - i,
    {
        assert(models[i as int] == choices@[i as int]@);
        if text::same_text(choices[i].id.as_str(), id) {
            return i;
        }
        i += 1;
    }
    i
}

fn find_usable(choices: &Vec<LLMInfo>) -> (r: usize)
    ensures
        r == usable_position(infos(choices@), 0),
        r <= choices.len(),
{
    let ghost models = infos(choices@);
    let mut i: usize = 0;
    while i < choices.len()
        invariant
            i <= choices.len(),
            models == infos(choices@),
            usable_position(models, 0) == usable_position(models, i as int),
        decreases choices.len() - i,
    {
        assert(models[i as int] == choices@[i as int]@);
        if is_usable_llm(&choices[i]) {
            return i;
        }
        i += 1;
    }
    i
}

impl Clone for AvailableLLMs {
    fn clone(&self) -> (r: Self)
        ensures
            r@ == self@,
    {
        AvailableLLMs {
            default_id: self.default_id.clone(),
            choices: clone_infos(&self.choices),
            preferred_codex_model_id: clone_id_opt(&self.preferred_codex_model_id),
        }
    }
}

impl AvailableLLMs {
    pub open spec fn wf(&self) -> bool {
        self@.valid()
    }

    /// The given models, of which there must be one.
    pub fn new(
        default_id: LLMId,
        choices: Vec<LLMInfo>,
        preferred_codex_model_id: Option<LLMId>,
    ) -> (r: Result<Self, String>)
        ensures
            match r {
                Ok(available) => choices@.len() > 0 && available.wf() && available@
                    == available_of(
                    default_id@,
                    infos(choices@),
                    id_opt(preferred_codex_model_id),
                ),
                Err(error) => choices@.len() == 0 && error@
                    == "Tried to create AvailableLLMs with empty`choices`."@,
            },
    {
        if choices.len() == 0 {
            return Err("Tried to create AvailableLLMs with empty`choices`.".to_owned());
        }
        let ghost models = infos(choices@);
        let default_id = if find_model(&choices, default_id.as_str()) < choices.len() {
            default_id
        } else {
            assert(models[0] == choices@[0]@);
            choices[0].id.clone()
        };
        Ok(AvailableLLMs { default_id, choices, preferred_codex_model_id })
    }

    /// The models of a stored list, taken as they are: the list may be empty and
    /// the default unknown.
    pub fn from_stored(
        default_id: LLMId,
        choices: Vec<LLMInfo>,
        preferred_codex_model_id: Option<LLMId>,
    ) -> (r: Self)
        ensures
            r@ == (AvailableModel {
                default_id: default_id@,
                choices: infos(choices@),
                preferred_codex_model_id: id_opt(preferred_codex_model_id),
            }),
            r.wf() <==> choices@.len() > 0,
    {
        AvailableLLMs { default_id, choices, preferred_codex_model_id }
    }

    pub fn default_id(&self) -> (r: &LLMId)
        ensures
            r@ == self@.default_id,
    {
        &self.default_id
    }

    pub fn choices(&self) -> (r: &Vec<LLMInfo>)
        ensures
            infos(r@) == self@.choices,
    {
        &self.choices
    }

    pub fn preferred_codex_model_id(&self) -> (r: &Option<LLMId>)
        ensures
            id_opt(*r) == self@.preferred_codex_model_id,
    {
        &self.preferred_codex_model_id
    }

    pub fn info_for_id(&self, id: &LLMId) -> (r: Option<&LLMInfo>)
        ensures
            seen(r) == self@.info(id@),
    {
        let i: usize = find_model(&self.choices, id.as_str());
        if i < self.choices.len() {
            assert(infos(self.choices@)[i as int] == self.choices@[i as int]@);
            Some(&self.choices[i])
        } else {
            None
        }
    }

    pub fn usable_info_for_id(&self, id: &LLMId) -> (r: Option<&LLMInfo>)
        ensures
            seen(r) == self@.usable_info(id@),
    {
        match self.info_for_id(id) {
            Some(info) => if is_usable_llm(info) {
                Some(info)
            } else {
                None
            },
            None => None,
        }
    }

    pub fn default_llm_info(&self) -> (r: &LLMInfo)
        requires
            self.wf(),
        ensures
            r@ == self@.default_info(),
    {
        match self.info_for_id(&self.default_id) {
            Some(info) => info,
            None => {
                assert(infos(self.choices@)[0] == self.choices@[0]@);
                &self.choices[0]
            },
        }
    }

    pub fn usable_default_llm_info(&self) -> (r: Option<&LLMInfo>)
        ensures
            seen(r) == self@.usable_default(),
    {
        match self.usable_info_for_id(&self.default_id) {
            Some(info) => Some(info),
            None => {
                let i: usize = find_usable(&self.choices);
                if i < self.choices.len() {
                    assert(infos(self.choices@)[i as int] == self.choices@[i as int]@);
                    Some(&self.choices[i])
                } else {
                    None
                }
            },
        }
    }
}

/// The models that are available, by the feature that they serve.
#[derive(Clone, Debug, PartialEq)]
pub struct ModelsByFeature {
    pub agent_mode: AvailableLLMs,
    pub coding: AvailableLLMs,
    pub cli_agent: Option<AvailableLLMs>,
    pub computer_use: Option<AvailableLLMs>,
}

/// What is available by feature.
#[verifier::ext_equal]
pub struct FeaturesModel {
    pub agent_mode: AvailableModel,
    pub coding: AvailableModel,
    pub cli_agent: Option<AvailableModel>,
    pub computer_use: Option<AvailableModel>,
}

pub open spec fn available_opt(a: Option<AvailableLLMs>) -> Option<AvailableModel> {
    match a {
        Some(a) => Some(a@),
        None => None,
    }
}

impl View for ModelsByFeature {
    type V = FeaturesModel;

    open spec fn view(&self) -> FeaturesModel {
        FeaturesModel {
            agent_mode: self.agent_mode@,
            coding: self.coding@,
            cli_agent: available_opt(self.cli_agent),
            computer_use: available_opt(self.computer_use),
        }
    }
}

impl FeaturesModel {
    /// Every feature has a model.
    pub open spec fn valid(self) -> bool {
        &&& self.agent_mode.valid()
        &&& self.coding.valid()
        &&& self.cli_agent matches Some(a) ==> a.valid()
        &&& self.computer_use matches Some(a) ==> a.valid()
    }

    /// The models of the command-line agent, or else those of agent mode.
    pub open spec fn for_cli_agent(self) -> AvailableModel {
        match self.cli_agent {
            Some(a) => a,
            None => self.agent_mode,
        }
    }

    /// The models for computer use, or else a hosted default.
    pub open spec fn for_computer_use(self) -> AvailableModel {
        match self.computer_use {
            Some(a) => a,
            None => hosted_computer_use(),
        }
    }
}

/// A hosted model that chooses by itself.
pub open spec fn hosted_auto(id: Seq<char>, name: Seq<char>, vision: bool) -> InfoModel {
    InfoModel {
        display_name: name,
        base_model_name: name,
        id,
        reasoning_level: None,
        usage_metadata: LLMUsageMetadata { request_multiplier: 1 },
        description: None,
        disable_reason: None,
        vision_supported: vision,
        provider: LLMProvider::Unknown,
        host_configs: Map::empty(),
        context_window: no_context_window(),
        capabilities: None,
    }
}

/// One hosted model that chooses by itself.
pub open spec fn only_auto(id: Seq<char>, name: Seq<char>, vision: bool) -> AvailableModel {
    AvailableModel {
        default_id: id,
        choices: seq![hosted_auto(id, name, vision)],
        preferred_codex_model_id: None,
    }
}

pub open spec fn hosted_computer_use() -> AvailableModel {
    only_auto("computer-use-agent-auto"@, "auto"@, true)
}

/// What is available when nothing is configured.
pub open spec fn default_features() -> FeaturesModel {
    FeaturesModel {
        agent_mode: only_auto("auto"@, "auto (cost-efficient)"@, true),
        coding: only_auto("auto"@, "auto (responsive)"@, true),
        cli_agent: Some(only_auto("cli-agent-auto"@, "auto"@, false)),
        computer_use: Some(hosted_computer_use()),
    }
}

fn single_auto(id: &str, name: &str, vision: bool) -> (r: AvailableLLMs)
    ensures
        r@ == only_auto(id@, name@, vision),
        r.wf(),
{
    let mut choices: Vec<LLMInfo> = Vec::new();
    choices.push(
        LLMInfo {
            display_name: name.to_owned(),
            base_model_name: name.to_owned(),
            id: LLMId::new(id),
            reasoning_level: None,
            usage_metadata: LLMUsageMetadata { request_multiplier: 1 },
            description: None,
            disable_reason: None,
            vision_supported: vision,
            provider: LLMProvider::Unknown,
            host_configs: Vec::new(),
            context_window: LLMContextWindow::default(),
            capabilities: None,
        },
    );
    assert(infos(choices@) =~= only_auto(id@, name@, vision).choices);
    AvailableLLMs { default_id: LLMId::new(id), choices, preferred_codex_model_id: None }
}

/// The models for computer use when none are known.
pub fn default_computer_use_llms() -> (r: AvailableLLMs)
    ensures
        r@ == hosted_computer_use(),
        r.wf(),
{
    single_auto("computer-use-agent-auto", "auto", true)
}

impl Default for ModelsByFeature {
    fn default() -> (r: Self)
        ensures
            r@ == default_features(),
            r.wf(),
    {
        ModelsByFeature {
            agent_mode: single_auto("auto", "auto (cost-efficient)", true),
            coding: single_auto("auto", "auto (responsive)", true),
            cli_agent: Some(single_auto("cli-agent-auto", "auto", false)),
            computer_use: Some(default_computer_use_llms()),
        }
    }
}

/// The models of a cache, by what it was read as: models by feature, or else
/// the models of agent mode alone, beside the defaults of the other features.
pub open spec fn cached_features(
    by_feature: Option<FeaturesModel>,
    agent_mode: Option<AvailableModel>,
) -> Option<FeaturesModel> {
    match (by_feature, agent_mode) {
        (Some(features), _) => Some(features),
        (None, Some(available)) => Some(
            FeaturesModel { agent_mode: available, ..default_features() },
        ),
        (None, None) => None,
    }
}

pub open spec fn features_opt(models: Option<ModelsByFeature>) -> Option<FeaturesModel> {
    match models {
        Some(models) => Some(models@),
        None => None,
    }
}

/// The models of a cache, which may be of the time when all models were those
/// of agent mode.
pub fn get_cached_models(
    by_feature: Option<ModelsByFeature>,
    agent_mode: Option<AvailableLLMs>,
) -> (r: Option<ModelsByFeature>)
    ensures
        features_opt(r) == cached_features(features_opt(by_feature), available_opt(agent_mode)),
{
    match by_feature {
        Some(models) => Some(models),
        None => match agent_mode {
            Some(agent_mode) => {
                let defaults = ModelsByFeature::default();
                Some(
                    ModelsByFeature {
                        agent_mode,
                        coding: defaults.coding,
                        cli_agent: defaults.cli_agent,
                        computer_use: defaults.computer_use,
                    },
                )
            },
            None => None,
        },
    }
}

impl ModelsByFeature {
    pub open spec fn wf(&self) -> bool {
        self@.valid()
    }

    /// What is known of a model, which is looked up in agent mode.
    pub fn info_for_id(&self, id: &LLMId) -> (r: Option<&LLMInfo>)
        ensures
            seen(r) == self@.agent_mode.info(id@),
    {
        self.agent_mode.info_for_id(id)
    }
}

/// The information on a provider's model.
pub open spec fn configured_model(
    p: CustomProviderConfig,
    model: Seq<char>,
    min_context_tokens: u32,
) -> InfoModel {
    InfoModel {
        display_name: p.name@ + " / "@ + model,
        base_model_name: model,
        id: custom_model_routers::model_id_of(p.name@, model),
        reasoning_level: None,
        usage_metadata: LLMUsageMetadata { request_multiplier: 1 },
        description: None,
        disable_reason: None,
        vision_supported: p.effective().vision,
        provider: LLMProvider::Custom(p.name@),
        host_configs: Map::empty(),
        context_window: fixed_window(
            min_context_tokens,
            p.capabilities.context_window_tokens,
        ),
        capabilities: Some(p.effective()),
    }
}

/// The models of a provider.
pub open spec fn provider_models(p: CustomProviderConfig, min_context_tokens: u32) -> Seq<
    InfoModel,
> {
    Seq::new(
        p.models@.len(),
        |i: int| configured_model(p, p.models@[i]@, min_context_tokens),
    )
}

/// The models of the first `n` providers, without those of a provider that
/// shares its name or that the settings reject.
pub open spec fn configured_models(
    providers: Seq<CustomProviderConfig>,
    min_context_tokens: u32,
    n: int,
) -> Seq<InfoModel>
    decreases n,
{
    if n <= 0 {
        Seq::empty()
    } else {
        let init = configured_models(providers, min_context_tokens, n - 1);
        let p = providers[n - 1];
        if providers::name_is_unique(p.name@, providers) && p.settings_error is None {
            init + provider_models(p, min_context_tokens)
        } else {
            init
        }
    }
}

/// What is available from the configured providers. The first model is the
/// default.
pub open spec fn features_of(providers: Seq<CustomProviderConfig>, min_context_tokens: u32) -> FeaturesModel {
    let models = configured_models(providers, min_context_tokens, providers.len() as int);
    if models.len() == 0 {
        default_features()
    } else {
        let all = AvailableModel {
            default_id: models[0].id,
            choices: models,
            preferred_codex_model_id: None,
        };
        FeaturesModel {
            agent_mode: all,
            coding: all,
            cli_agent: Some(all),
            computer_use: Some(hosted_computer_use()),
        }
    }
}

/// The models on offer, built from the providers alone. `min_context_tokens` is
/// the least context window that a provider may have.
pub fn models_by_feature_from_custom_providers(
    providers: &[CustomProviderConfig],
    min_context_tokens: u32,
) -> (r: ModelsByFeature)
    ensures
        r@ == features_of(providers@, min_context_tokens),
        r.wf(),
{
    let mut all: Vec<LLMInfo> = Vec::new();
    let mut i: usize = 0;
    assert(infos(all@) =~= Seq::<InfoModel>::empty());
    while i < providers.len()
        invariant
            i <= providers.len(),
            infos(all@) == configured_models(providers@, min_context_tokens, i as int),
        decreases providers.len() - i,
    {
        let p = &providers[i];
        if providers::custom_provider_name_is_unique(p.name.as_str(), providers)
            && p.settings_error.is_none() {
            let ghost start = infos(all@);
            let able = p.effective_capabilities();
            let window = fixed_context_window(
                min_context_tokens,
                p.capabilities.context_window_tokens,
            );
            let ghost own = provider_models(*p, min_context_tokens);
            let mut j: usize = 0;
            assert(start + own.subrange(0, 0) =~= start);
            while j < p.models.len()
                invariant
                    j <= p.models.len(),
                    able == p.effective(),
                    window == fixed_window(
                        min_context_tokens,
                        p.capabilities.context_window_tokens,
                    ),
                    own == provider_models(*p, min_context_tokens),
                    infos(all@) == start + own.subrange(0, j as int),
                decreases p.models.len() - j,
            {
                let model = p.models[j].as_str();
                let info = LLMInfo {
                    display_name: text::concat3(p.name.as_str(), " / ", model),
                    base_model_name: model.to_owned(),
                    id: LLMId(text::concat4("custom/", p.name.as_str(), "/", model)),
                    reasoning_level: None,
                    usage_metadata: LLMUsageMetadata { request_multiplier: 1 },
                    description: None,
                    disable_reason: None,
                    vision_supported: able.vision,
                    provider: LLMProvider::Custom(p.name.clone()),
                    host_configs: Vec::new(),
                    context_window: window,
                    capabilities: Some(able),
                };
                let ghost before = infos(all@);
                let ghost added = info@;
                assert(added =~= own[j as int]);
                all.push(info);
                assert(infos(all@) =~= before.push(added));
                j += 1;
                assert(start + own.subrange(0, j as int) =~= (start + own.subrange(0, j - 1)).push(
                    own[j - 1],
                ));
            }
            assert(own.subrange(0, own.len() as int) =~= own);
        }
        i += 1;
    }
    if all.len() == 0 {
        assert(infos(all@).len() == 0);
        return ModelsByFeature::default();
    }
    let ghost models = infos(all@);
    assert(models[0] == all@[0]@);
    let default_id = all[0].id.clone();
    let available = AvailableLLMs {
        default_id,
        choices: all,
        preferred_codex_model_id: None,
    };
    ModelsByFeature {
        agent_mode: available.clone(),
        coding: available.clone(),
        cli_agent: Some(available),
        computer_use: Some(default_computer_use_llms()),
    }
}

/// The models of the new list whose identifiers the old one does not have.
pub open spec fn new_models(
    old_choices: Seq<InfoModel>,
    new_choices: Seq<InfoModel>,
    n: int,
) -> Seq<InfoModel>
    decreases n,
{
    if n <= 0 {
        Seq::empty()
    } else {
        let init = new_models(old_choices, new_choices, n - 1);
        if model_position(old_choices, new_choices[n - 1].id, 0) < old_choices.len() {
            init
        } else {
            init.push(new_choices[n - 1])
        }
    }
}

pub fn get_new_agent_mode_choices(old_config: &AvailableLLMs, new_config: &AvailableLLMs) -> (r: Vec<
    LLMInfo,
>)
    ensures
        infos(r@) == new_models(
            old_config@.choices,
            new_config@.choices,
            new_config@.choices.len() as int,
        ),
{
    let ghost old_models = infos(old_config.choices@);
    let ghost new_choices = infos(new_config.choices@);
    let mut out: Vec<LLMInfo> = Vec::new();
    let mut i: usize = 0;
    assert(infos(out@) =~= Seq::<InfoModel>::empty());
    while i < new_config.choices.len()
        invariant
            i <= new_config.choices.len(),
            old_models == infos(old_config.choices@),
            new_choices == infos(new_config.choices@),
            infos(out@) == new_models(old_models, new_choices, i as int),
        decreases new_config.choices.len() - i,
    {
        let info = &new_config.choices[i];
        assert(new_choices[i as int] == info@);
        if find_model(&old_config.choices, info.id.as_str()) >= old_config.choices.len() {
            let ghost before = infos(out@);
            out.push(info.clone());
            assert(infos(out@) =~= before.push(info@));
        }
        i += 1;
    }
    out
}

// ---------------------------------------------------------------------------
// Comparison.

/// The configuration for a host, if there is one.
pub open spec fn host_entry(
    hosts: Map<LLMModelHost, RoutingHostConfig>,
    host: LLMModelHost,
) -> Option<RoutingHostConfig> {
    if hosts.contains_key(host) {
        Some(hosts[host])
    } else {
        None
    }
}

/// The configuration of a model for a host.
pub fn host_config(configs: &Vec<HostEntry>, host: LLMModelHost) -> (r: Option<
    RoutingHostConfig,
>)
    ensures
        r == host_entry(hosts_of(configs@), host),
{
    let mut i: usize = configs.len();
    assert(configs@.subrange(0, i as int) =~= configs@);
    while i > 0
        invariant
            i <= configs.len(),
            host_entry(hosts_of(configs@), host) == host_entry(
                hosts_of(configs@.subrange(0, i as int)),
                host,
            ),
        decreases i,
    {
        let ghost part = configs@.subrange(0, i as int);
        assert(part.last() == configs@[i - 1]);
        assert(part.drop_last() =~= configs@.subrange(0, i - 1));
        if configs[i - 1].0 == host {
            return Some(configs[i - 1].1);
        }
        i -= 1;
    }
    None
}

fn same_host(a: &Vec<HostEntry>, b: &Vec<HostEntry>, host: LLMModelHost) -> (r: bool)
    ensures
        r == (host_entry(hosts_of(a@), host) == host_entry(hosts_of(b@), host)),
{
    match (host_config(a, host), host_config(b, host)) {
        (Some(x), Some(y)) => x == y,
        (None, None) => true,
        _ => false,
    }
}

fn same_hosts(a: &Vec<HostEntry>, b: &Vec<HostEntry>) -> (r: bool)
    ensures
        r == (hosts_of(a@) == hosts_of(b@)),
{
    let r = same_host(a, b, LLMModelHost::DirectApi) && same_host(a, b, LLMModelHost::AwsBedrock)
        && same_host(a, b, LLMModelHost::CustomEndpoint) && same_host(
        a,
        b,
        LLMModelHost::Unknown,
    );
    proof {
        let x = hosts_of(a@);
        let y = hosts_of(b@);
        if r {
            assert forall|host: LLMModelHost| #[trigger] host_entry(x, host) == host_entry(
                y,
                host,
            ) by {
                match host {
                    LLMModelHost::DirectApi => {},
                    LLMModelHost::AwsBedrock => {},
                    LLMModelHost::CustomEndpoint => {},
                    LLMModelHost::Unknown => {},
                }
            }
            assert forall|host: LLMModelHost| #[trigger] x.contains_key(host) <==> y.contains_key(
                host,
            ) by {
                assert(host_entry(x, host) == host_entry(y, host));
            }
            assert forall|host: LLMModelHost| x.contains_key(host) implies #[trigger] x[host]
                == y[host] by {
                assert(host_entry(x, host) == host_entry(y, host));
            }
            assert(x =~= y);
        }
    }
    r
}

fn same_provider(a: &LLMProvider, b: &LLMProvider) -> (r: bool)
    ensures
        r == (a@ == b@),
{
    match (a, b) {
        (LLMProvider::OpenAI, LLMProvider::OpenAI) => true,
        (LLMProvider::Anthropic, LLMProvider::Anthropic) => true,
        (LLMProvider::Google, LLMProvider::Google) => true,
        (LLMProvider::Xai, LLMProvider::Xai) => true,
        (LLMProvider::Custom(x), LLMProvider::Custom(y)) => text::same_text(
            x.as_str(),
            y.as_str(),
        ),
        (LLMProvider::Unknown, LLMProvider::Unknown) => true,
        _ => false,
    }
}

/// Whether the same is known of two models.
pub fn same_info(a: &LLMInfo, b: &LLMInfo) -> (r: bool)
    ensures
        r == (a@ == b@),
{
    let reasons = match (a.disable_reason, b.disable_reason) {
        (Some(x), Some(y)) => x == y,
        (None, None) => true,
        _ => false,
    };
    let abilities = match (a.capabilities, b.capabilities) {
        (Some(x), Some(y)) => x == y,
        (None, None) => true,
        _ => false,
    };
    let r = reasons && abilities && text::same_text(
        a.display_name.as_str(),
        b.display_name.as_str(),
    ) && text::same_text(a.base_model_name.as_str(), b.base_model_name.as_str()) && a.id.same(
        &b.id,
    ) && text::same_text_opt(&a.reasoning_level, &b.reasoning_level) && a.usage_metadata
        == b.usage_metadata && text::same_text_opt(&a.description, &b.description)
        && a.vision_supported == b.vision_supported && same_provider(&a.provider, &b.provider)
        && same_hosts(&a.host_configs, &b.host_configs) && a.context_window == b.context_window;
    assert(r ==> a@ =~= b@);
    r
}

impl PartialEq for LLMInfo {
    fn eq(&self, other: &Self) -> (r: bool) {
        same_info(self, other)
    }
}

impl vstd::std_specs::cmp::PartialEqSpecImpl for LLMInfo {
    open spec fn obeys_eq_spec() -> bool {
        true
    }

    open spec fn eq_spec(&self, other: &Self) -> bool {
        self@ == other@
    }
}

fn same_infos(a: &Vec<LLMInfo>, b: &Vec<LLMInfo>) -> (r: bool)
    ensures
        r == (infos(a@) == infos(b@)),
{
    let ghost x = infos(a@);
    let ghost y = infos(b@);
    assert(x.len() == a.len() && y.len() == b.len());
    if a.len() != b.len() {
        return false;
    }
    let mut i: usize = 0;
    while i < a.len()
        invariant
            i <= a.len(),
            a.len() == b.len(),
            x == infos(a@),
            y == infos(b@),
            forall|j: int| 0 <= j < i ==> #[trigger] x[j] == y[j],
        decreases a.len() - i,
    {
        if !same_info(&a[i], &b[i]) {
            assert(x[i as int] != y[i as int]);
            return false;
        }
        i += 1;
    }
    assert(x =~= y);
    true
}

/// Whether the same is available.
pub fn same_available(a: &AvailableLLMs, b: &AvailableLLMs) -> (r: bool)
    ensures
        r == (a@ == b@),
{
    let r = a.default_id.same(&b.default_id) && same_id_opt(
        &a.preferred_codex_model_id,
        &b.preferred_codex_model_id,
    ) && same_infos(&a.choices, &b.choices);
    assert(r ==> a@ =~= b@);
    r
}

fn same_available_opt(a: &Option<AvailableLLMs>, b: &Option<AvailableLLMs>) -> (r: bool)
    ensures
        r == (available_opt(*a) == available_opt(*b)),
{
    match (a, b) {
        (Some(x), Some(y)) => same_available(x, y),
        (None, None) => true,
        _ => false,
    }
}

/// Whether the same is available for every feature.
pub fn same_features(a: &ModelsByFeature, b: &ModelsByFeature) -> (r: bool)
    ensures
        r == (a@ == b@),
{
    let r = same_available(&a.agent_mode, &b.agent_mode) && same_available(&a.coding, &b.coding)
        && same_available_opt(&a.cli_agent, &b.cli_agent) && same_available_opt(
        &a.computer_use,
        &b.computer_use,
    );
    assert(r ==> a@ =~= b@);
    r
}

// ---------------------------------------------------------------------------
// Laws.

/// Without a usable configured provider only the hosted defaults are on offer;
/// with one, no hosted model is offered for agent mode, coding or the
/// command-line agent: each model there belongs to a provider that was
/// configured.
pub proof fn law_catalogue_is_local(
    providers: Seq<CustomProviderConfig>,
    min_context_tokens: u32,
    i: int,
)
    requires
        configured_models(providers, min_context_tokens, providers.len() as int).len() > 0,
        0 <= i < features_of(providers, min_context_tokens).agent_mode.choices.len(),
    ensures
        features_of(providers, min_context_tokens).agent_mode.choices[i].provider is Custom,
        features_of(providers, min_context_tokens).coding == features_of(
            providers,
            min_context_tokens,
        ).agent_mode,
        features_of(providers, min_context_tokens).cli_agent == Some(
            features_of(providers, min_context_tokens).agent_mode,
        ),
{
    lemma_configured_are_custom(providers, min_context_tokens, providers.len() as int, i);
}

proof fn lemma_configured_are_custom(
    providers: Seq<CustomProviderConfig>,
    min_context_tokens: u32,
    n: int,
    i: int,
)
    requires
        0 <= n <= providers.len(),
        0 <= i < configured_models(providers, min_context_tokens, n).len(),
    ensures
        configured_models(providers, min_context_tokens, n)[i].provider is Custom,
    decreases n,
{
    if n > 0 {
        let init = configured_models(providers, min_context_tokens, n - 1);
        if i < init.len() {
            lemma_configured_are_custom(providers, min_context_tokens, n - 1, i);
        }
    }
}

proof fn lemma_model_position(choices: Seq<InfoModel>, id: Seq<char>, from: int)
    requires
        0 <= from <= choices.len(),
    ensures
        from <= model_position(choices, id, from) <= choices.len(),
        model_position(choices, id, from) < choices.len() ==> choices[model_position(
            choices,
            id,
            from,
        )].id == id,
    decreases choices.len() - from,
{
    if from < choices.len() && choices[from].id != id {
        lemma_model_position(choices, id, from + 1);
    }
}

proof fn lemma_usable_position(choices: Seq<InfoModel>, from: int)
    requires
        0 <= from <= choices.len(),
    ensures
        from <= usable_position(choices, from) <= choices.len(),
        usable_position(choices, from) < choices.len() ==> usable(
            choices[usable_position(choices, from)],
        ),
        usable_position(choices, from) == choices.len() ==> forall|i: int|
            from <= i < choices.len() ==> !usable(#[trigger] choices[i]),
    decreases choices.len() - from,
{
    if from < choices.len() && !usable(choices[from]) {
        lemma_usable_position(choices, from + 1);
    }
}

/// As long as some model can be used, the default is one that can be used.
pub proof fn law_default_is_usable_if_any_is(available: AvailableModel, i: int)
    requires
        0 <= i < available.choices.len(),
        usable(available.choices[i]),
    ensures
        available.usable_default() matches Some(info) && usable(info)
            && available.choices.contains(info),
{
    let choices = available.choices;
    lemma_model_position(choices, available.default_id, 0);
    lemma_usable_position(choices, 0);
    let k = model_position(choices, available.default_id, 0);
    let u = usable_position(choices, 0);
    if u < choices.len() {
        assert(choices.contains(choices[u]));
    }
    if k < choices.len() {
        assert(choices.contains(choices[k]));
    }
}

/// What a received model is: without a base name it has its display name, a map
/// of host configurations is kept as it is, and of a list the last configuration
/// for a host counts.
pub proof fn law_received_model(wire: WireLLMInfo, i: int)
    ensures
        wire.base_model_name is None ==> received_model(wire).base_model_name
            == received_model(wire).display_name,
        match wire.host_configs {
            WireHostConfigs::List(configs) => 0 <= i < configs@.len() && (forall|j: int|
                i < j < configs@.len() ==> (#[trigger] configs@[j]).model_routing_host
                    != configs@[i].model_routing_host) ==> host_entry(
                received_model(wire).host_configs,
                configs@[i].model_routing_host,
            ) == Some(configs@[i]),
            WireHostConfigs::ByHost(entries) => 0 <= i < entries@.len() && hosts_unique(entries@)
                ==> host_entry(received_model(wire).host_configs, entries@[i].0) == Some(
                entries@[i].1,
            ),
        },
{
    match wire.host_configs {
        WireHostConfigs::List(configs) => {
            let entries = by_own_host(configs@);
            if 0 <= i < configs@.len() && (forall|j: int|
                i < j < configs@.len() ==> (#[trigger] configs@[j]).model_routing_host
                    != configs@[i].model_routing_host) {
                assert forall|j: int| i < j < entries.len() implies (#[trigger] entries[j]).0
                    != entries[i].0 by {
                    assert(configs@[j].model_routing_host != configs@[i].model_routing_host);
                }
                lemma_last_entry(entries, i);
            }
        },
        WireHostConfigs::ByHost(entries) => {
            if 0 <= i < entries@.len() && hosts_unique(entries@) {
                lemma_last_entry(entries@, i);
            }
        },
    }
}

proof fn lemma_last_entry(entries: Seq<HostEntry>, i: int)
    requires
        0 <= i < entries.len(),
        forall|j: int| i < j < entries.len() ==> (#[trigger] entries[j]).0 != entries[i].0,
    ensures
        host_entry(hosts_of(entries), entries[i].0) == Some(entries[i].1),
    decreases entries.len(),
{
    if i < entries.len() - 1 {
        let init = entries.drop_last();
        assert forall|j: int| i < j < init.len() implies (#[trigger] init[j]).0 != init[i].0 by {
            assert(entries[j].0 != entries[i].0);
        }
        lemma_last_entry(init, i);
        assert(entries[entries.len() - 1].0 != entries[i].0);
    }
}

/// A model can be used unless an administrator has disabled it or it is gone
/// for good; that alone clears a choice of it.
pub proof fn law_usable_models(info: InfoModel, reason: DisableReason)
    ensures
        usable(info) <==> info.disable_reason is None || info.disable_reason == Some(
            DisableReason::OutOfRequests,
        ) || info.disable_reason == Some(DisableReason::ProviderOutage),
        clears_preference(reason) <==> reason == DisableReason::AdminDisabled || reason
            == DisableReason::Unavailable,
{
}

/// A key is used for the provider that it is stored for, and only where own keys
/// may be used.
pub proof fn law_keys_are_used_for_their_provider(keys: StoredApiKeys, name: Seq<char>)
    ensures
        uses_api_key(LLMProvider::OpenAI, keys) <==> keys.byo_api_key_enabled && keys.openai,
        uses_api_key(LLMProvider::Anthropic, keys) <==> keys.byo_api_key_enabled
            && keys.anthropic,
        uses_api_key(LLMProvider::Google, keys) <==> keys.byo_api_key_enabled && keys.google,
        uses_api_key(LLMProvider::Custom(name), keys) <==> keys.byo_api_key_enabled
            && exists|i: int| 0 <= i < keys.custom@.len() && (#[trigger] keys.custom@[i])@ == name,
        !uses_api_key(LLMProvider::Xai, keys),
        !uses_api_key(LLMProvider::Unknown, keys),
{
    let names = text::texts(keys.custom@);
    if names.contains(name) {
        let i = choose|i: int| 0 <= i < names.len() && names[i] == name;
        assert(keys.custom@[i]@ == name);
    }
    if exists|i: int| 0 <= i < keys.custom@.len() && (#[trigger] keys.custom@[i])@ == name {
        let i = choose|i: int|
            0 <= i < keys.custom@.len() && (#[trigger] keys.custom@[i])@ == name;
        assert(names[i] == name);
    }
}

/// A known window cannot be changed and is as large as it is known to be; an
/// unknown one is none.
pub proof fn law_fixed_windows(min: u32, tokens: u32)
    ensures
        !fixed_window(min, Some(tokens)).is_configurable,
        fixed_window(min, Some(tokens)).min == min,
        fixed_window(min, Some(tokens)).max == tokens,
        fixed_window(min, Some(tokens)).default_max == tokens,
        !fixed_window(min, None).is_configurable,
        fixed_window(min, None).min == 0,
        fixed_window(min, None).max == 0,
        fixed_window(min, None).default_max == 0,
{
}

/// A received model is what was sent.
pub proof fn law_received_model_is_what_was_sent(wire: WireLLMInfo, info: LLMInfo)
    requires
        info@ == received_model(wire),
    ensures
        info.display_name@ == wire.display_name@,
        wire.base_model_name is Some ==> info.base_model_name@ == wire.base_model_name->0@,
        wire.base_model_name is None ==> info.base_model_name@ == wire.display_name@,
        info.id@ == wire.id@,
        text::text_opt(info.reasoning_level) == text::text_opt(wire.reasoning_level),
        info.usage_metadata == wire.usage_metadata,
        text::text_opt(info.description) == text::text_opt(wire.description),
        info.disable_reason == wire.disable_reason,
        info.vision_supported == wire.vision_supported,
        info.provider@ == wire.provider@,
        info.context_window == wire.context_window,
        info.capabilities == wire.capabilities,
{
}

/// No host is configured that was not sent.
pub proof fn law_only_sent_hosts_are_configured(wire: WireLLMInfo, host: LLMModelHost)
    ensures
        received_model(wire).host_configs.contains_key(host) ==> match wire.host_configs {
            WireHostConfigs::List(configs) => exists|i: int|
                0 <= i < configs@.len() && (#[trigger] configs@[i]).model_routing_host == host,
            WireHostConfigs::ByHost(entries) => exists|i: int|
                0 <= i < entries@.len() && (#[trigger] entries@[i]).0 == host,
        },
{
    if received_model(wire).host_configs.contains_key(host) {
        match wire.host_configs {
            WireHostConfigs::List(configs) => {
                let entries = by_own_host(configs@);
                lemma_known_hosts(entries, host);
                let i = choose|i: int| 0 <= i < entries.len() && (#[trigger] entries[i]).0 == host;
                assert(configs@[i].model_routing_host == host);
            },
            WireHostConfigs::ByHost(entries) => {
                lemma_known_hosts(entries@, host);
            },
        }
    }
}

proof fn lemma_known_hosts(entries: Seq<HostEntry>, host: LLMModelHost)
    requires
        hosts_of(entries).contains_key(host),
    ensures
        exists|i: int| 0 <= i < entries.len() && (#[trigger] entries[i]).0 == host,
    decreases entries.len(),
{
    if entries.len() > 0 {
        let init = entries.drop_last();
        if entries.last().0 == host {
            assert(entries[entries.len() - 1].0 == host);
        } else {
            lemma_known_hosts(init, host);
            let i = choose|i: int| 0 <= i < init.len() && (#[trigger] init[i]).0 == host;
            assert(entries[i].0 == host);
        }
    }
}

/// A router is shown by its name, and so is a model without a description;
/// another model is shown with its description in brackets.
pub proof fn law_menu_labels(info: InfoModel)
    ensures
        custom_model_routers::is_router_id(info.id) ==> menu_label(info) == info.display_name,
        info.description is None ==> menu_label(info) == info.display_name,
        !custom_model_routers::is_router_id(info.id) && info.description is Some ==> menu_label(
            info,
        ) == info.display_name + " ("@ + info.description->0 + ")"@,
{
}

/// A model is found by its identifier: the first one that has it.
pub proof fn law_models_are_found_by_identifier(
    available: AvailableModel,
    id: Seq<char>,
    i: int,
)
    ensures
        0 <= i < available.choices.len() && available.choices[i].id == id && (forall|j: int|
            0 <= j < i ==> (#[trigger] available.choices[j]).id != id) ==> available.info(id)
            == Some(available.choices[i]),
        (forall|j: int| 0 <= j < available.choices.len() ==> (#[trigger] available.choices[j]).id
            != id) ==> available.info(id) is None,
        available.usable_info(id) is Some <==> available.info(id) is Some && usable(
            available.info(id)->0,
        ),
        available.usable_info(id) is Some ==> available.usable_info(id) == available.info(id),
{
    let choices = available.choices;
    lemma_model_position(choices, id, 0);
    lemma_no_earlier_model(choices, id, 0);
    let at = model_position(choices, id, 0);
    if 0 <= i < choices.len() && choices[i].id == id && (forall|j: int|
        0 <= j < i ==> (#[trigger] choices[j]).id != id) {
        if at < i {
            assert(choices[at].id != id);
        }
        if i < at {
            assert(choices[i].id != id);
        }
    }
}

proof fn lemma_no_earlier_model(choices: Seq<InfoModel>, id: Seq<char>, from: int)
    requires
        0 <= from <= choices.len(),
    ensures
        forall|j: int|
            from <= j < model_position(choices, id, from) ==> (#[trigger] choices[j]).id != id,
    decreases choices.len() - from,
{
    if from < choices.len() && choices[from].id != id {
        lemma_no_earlier_model(choices, id, from + 1);
    }
}

/// The default is the model of the default identifier, or else the first; where
/// it cannot be used, the first one that can serves.
pub proof fn law_default_models(available: AvailableModel, i: int)
    ensures
        available.info(available.default_id) is Some ==> available.default_info()
            == available.info(available.default_id)->0,
        available.info(available.default_id) is None ==> available.default_info()
            == available.choices[0],
        available.usable_info(available.default_id) is Some ==> available.usable_default()
            == available.usable_info(available.default_id),
        available.usable_info(available.default_id) is None && 0 <= i < available.choices.len()
            && usable(available.choices[i]) && (forall|j: int|
            0 <= j < i ==> !usable(#[trigger] available.choices[j]))
            ==> available.usable_default() == Some(available.choices[i]),
        available.usable_info(available.default_id) is None && (forall|j: int|
            0 <= j < available.choices.len() ==> !usable(#[trigger] available.choices[j]))
            ==> available.usable_default() is None,
{
    let choices = available.choices;
    lemma_usable_position(choices, 0);
    lemma_first_usable(choices, 0);
    let at = usable_position(choices, 0);
    if 0 <= i < choices.len() && usable(choices[i]) && (forall|j: int|
        0 <= j < i ==> !usable(#[trigger] choices[j])) {
        if at < i {
            assert(!usable(choices[at]));
        }
        if i < at {
            assert(!usable(choices[i]));
        }
    }
}

proof fn lemma_first_usable(choices: Seq<InfoModel>, from: int)
    requires
        0 <= from <= choices.len(),
    ensures
        forall|j: int|
            from <= j < usable_position(choices, from) ==> !usable(#[trigger] choices[j]),
    decreases choices.len() - from,
{
    if from < choices.len() && !usable(choices[from]) {
        lemma_first_usable(choices, from + 1);
    }
}

/// A list keeps its models and its default, unless the default is none of them:
/// then the first one is the default.
pub proof fn law_new_lists(
    default_id: Seq<char>,
    choices: Seq<InfoModel>,
    preferred: Option<Seq<char>>,
)
    ensures
        available_of(default_id, choices, preferred).choices == choices,
        available_of(default_id, choices, preferred).preferred_codex_model_id == preferred,
        (exists|i: int| 0 <= i < choices.len() && (#[trigger] choices[i]).id == default_id)
            ==> available_of(default_id, choices, preferred).default_id == default_id,
        !(exists|i: int| 0 <= i < choices.len() && (#[trigger] choices[i]).id == default_id)
            ==> available_of(default_id, choices, preferred).default_id == choices[0].id,
{
    lemma_model_position(choices, default_id, 0);
    lemma_no_earlier_model(choices, default_id, 0);
}

/// A configured model is named after its provider and itself, and can do what
/// the provider can do through its adapter.
pub proof fn law_configured_model_is_its_provider_s(
    info: LLMInfo,
    p: CustomProviderConfig,
    model: Seq<char>,
    min_context_tokens: u32,
)
    requires
        info@ == configured_model(p, model, min_context_tokens),
    ensures
        info.id@ == "custom/"@ + p.name@ + "/"@ + model,
        info.display_name@ == p.name@ + " / "@ + model,
        info.base_model_name@ == model,
        info.provider@ == LLMProvider::Custom(p.name@),
        info.disable_reason is None,
        text::text_opt(info.description) is None,
        text::text_opt(info.reasoning_level) is None,
        info.vision_supported == p.effective().vision,
        info.capabilities == Some(p.effective()),
        p.capabilities.context_window_tokens matches Some(tokens) ==> info.context_window.max
            == tokens && info.context_window.default_max == tokens && info.context_window.min
            == min_context_tokens,
        !info.context_window.is_configurable,
        info.usage_metadata.request_multiplier == 1,
{
}

/// The catalogue is complete: every model of a provider with a name of its own
/// and without an error is on offer, and nothing else is.
pub proof fn law_catalogue_is_complete(
    providers: Seq<CustomProviderConfig>,
    min_context_tokens: u32,
    k: int,
    i: int,
)
    requires
        0 <= k < providers.len(),
        0 <= i < providers[k].models@.len(),
        providers::name_is_unique(providers[k].name@, providers),
        providers[k].settings_error is None,
    ensures
        features_of(providers, min_context_tokens).agent_mode.choices.contains(
            configured_model(providers[k], providers[k].models@[i]@, min_context_tokens),
        ),
        features_of(providers, min_context_tokens).agent_mode.default_id == features_of(
            providers,
            min_context_tokens,
        ).agent_mode.choices[0].id,
        features_of(providers, min_context_tokens).computer_use == Some(hosted_computer_use()),
{
    lemma_offered(providers, min_context_tokens, providers.len() as int, k, i);
}

proof fn lemma_offered(
    providers: Seq<CustomProviderConfig>,
    min_context_tokens: u32,
    n: int,
    k: int,
    i: int,
)
    requires
        0 <= k < n <= providers.len(),
        0 <= i < providers[k].models@.len(),
        providers::name_is_unique(providers[k].name@, providers),
        providers[k].settings_error is None,
    ensures
        configured_models(providers, min_context_tokens, n).contains(
            configured_model(providers[k], providers[k].models@[i]@, min_context_tokens),
        ),
    decreases n,
{
    let wanted = configured_model(providers[k], providers[k].models@[i]@, min_context_tokens);
    let init = configured_models(providers, min_context_tokens, n - 1);
    let out = configured_models(providers, min_context_tokens, n);
    if k < n - 1 {
        lemma_offered(providers, min_context_tokens, n - 1, k, i);
        let j = choose|j: int| 0 <= j < init.len() && init[j] == wanted;
        assert(out[j] == wanted);
    } else {
        assert(out[init.len() + i] == wanted);
    }
}

/// What is on offer for agent mode is a model of a provider with a name of its
/// own and without an error.
pub proof fn law_only_sound_providers_are_on_offer(
    providers: Seq<CustomProviderConfig>,
    min_context_tokens: u32,
    j: int,
)
    requires
        configured_models(providers, min_context_tokens, providers.len() as int).len() > 0,
        0 <= j < features_of(providers, min_context_tokens).agent_mode.choices.len(),
    ensures
        exists|k: int, i: int|
            #![trigger providers[k].models@[i]]
            0 <= k < providers.len() && 0 <= i < providers[k].models@.len()
                && providers::name_is_unique(providers[k].name@, providers)
                && providers[k].settings_error is None && features_of(
                providers,
                min_context_tokens,
            ).agent_mode.choices[j] == configured_model(
                providers[k],
                providers[k].models@[i]@,
                min_context_tokens,
            ),
{
    lemma_offered_by(providers, min_context_tokens, providers.len() as int, j);
}

proof fn lemma_offered_by(
    providers: Seq<CustomProviderConfig>,
    min_context_tokens: u32,
    n: int,
    j: int,
)
    requires
        0 <= n <= providers.len(),
        0 <= j < configured_models(providers, min_context_tokens, n).len(),
    ensures
        exists|k: int, i: int|
            #![trigger providers[k].models@[i]]
            0 <= k < n && 0 <= i < providers[k].models@.len() && providers::name_is_unique(
                providers[k].name@,
                providers,
            ) && providers[k].settings_error is None && configured_models(
                providers,
                min_context_tokens,
                n,
            )[j] == configured_model(
                providers[k],
                providers[k].models@[i]@,
                min_context_tokens,
            ),
    decreases n,
{
    if n > 0 {
        let init = configured_models(providers, min_context_tokens, n - 1);
        let out = configured_models(providers, min_context_tokens, n);
        if j < init.len() {
            lemma_offered_by(providers, min_context_tokens, n - 1, j);
            assert(out[j] == init[j]);
        } else {
            let i = j - init.len();
            let model = providers[n - 1].models@[i];
            assert(out[j] == configured_model(providers[n - 1], model@, min_context_tokens));
        }
    }
}

/// New are the models whose identifier was not there before.
pub proof fn law_new_models(
    old_choices: Seq<InfoModel>,
    new_choices: Seq<InfoModel>,
    n: int,
    info: InfoModel,
)
    requires
        0 <= n <= new_choices.len(),
    ensures
        new_models(old_choices, new_choices, n).contains(info) <==> new_choices.subrange(
            0,
            n,
        ).contains(info) && forall|j: int|
            0 <= j < old_choices.len() ==> (#[trigger] old_choices[j]).id != info.id,
    decreases n,
{
    if n > 0 {
        law_new_models(old_choices, new_choices, n - 1, info);
        let last = new_choices[n - 1];
        let before = new_choices.subrange(0, n - 1);
        let all = new_choices.subrange(0, n);
        let init = new_models(old_choices, new_choices, n - 1);
        let out = new_models(old_choices, new_choices, n);
        lemma_model_position(old_choices, last.id, 0);
        lemma_no_earlier_model(old_choices, last.id, 0);
        if before.contains(info) {
            let k = choose|k: int| 0 <= k < before.len() && before[k] == info;
            assert(all[k] == info);
        }
        if all.contains(info) {
            let k = choose|k: int| 0 <= k < all.len() && all[k] == info;
            if k < n - 1 {
                assert(before[k] == info);
            }
        }
        assert(all[n - 1] == last);
        if init.contains(info) {
            let k = choose|k: int| 0 <= k < init.len() && init[k] == info;
            assert(out[k] == info);
        }
        if out.contains(info) {
            let k = choose|k: int| 0 <= k < out.len() && out[k] == info;
            if k < init.len() {
                assert(init[k] == info);
            }
        }
        if model_position(old_choices, last.id, 0) >= old_choices.len() {
            assert(out[init.len() as int] == last);
        }
    }
}

/// A cache of models by feature is taken as it is; one of agent mode alone
/// changes agent mode alone.
pub proof fn law_cached_models(
    by_feature: Option<FeaturesModel>,
    agent_mode: Option<AvailableModel>,
)
    ensures
        by_feature is Some ==> cached_features(by_feature, agent_mode) == by_feature,
        by_feature is None && agent_mode is Some ==> {
            let read = cached_features(by_feature, agent_mode);
            &&& read is Some
            &&& read->0.agent_mode == agent_mode->0
            &&& read->0.coding == default_features().coding
            &&& read->0.cli_agent == default_features().cli_agent
            &&& read->0.computer_use == default_features().computer_use
        },
        by_feature is None && agent_mode is None ==> cached_features(by_feature, agent_mode)
            is None,
{
}

/// The features are served by their own models: the command-line agent by those
/// of agent mode where it has none.
pub proof fn law_features_have_their_own_models(models: ModelsByFeature)
    ensures
        models@.agent_mode == models.agent_mode@,
        models@.coding == models.coding@,
        models.cli_agent is Some ==> models@.for_cli_agent() == models.cli_agent->0@,
        models.cli_agent is None ==> models@.for_cli_agent() == models.agent_mode@,
        models.computer_use is Some ==> models@.for_computer_use() == models.computer_use->0@,
        models.computer_use is None ==> models@.for_computer_use().choices.len() == 1
            && models@.for_computer_use().choices[0].id == "computer-use-agent-auto"@
            && models@.for_computer_use().choices[0].vision_supported,
{
}

} // verus!
