//! Providers that the user has configured.

use crate::text;
use vstd::prelude::*;

verus! {

/// The protocol that a provider speaks.
#[derive(Clone, Copy, Debug, PartialEq, Eq, Hash, Structural)]
pub enum CustomApiType {
    OpenAiCompatible,
    OpenAiResponses,
    AnthropicMessages,
}

impl Default for CustomApiType {
    fn default() -> (r: Self)
        ensures
            r is OpenAiCompatible,
    {
        CustomApiType::OpenAiCompatible
    }
}

/// What a model can do.
#[derive(Clone, Copy, Debug, PartialEq, Eq, Structural)]
pub struct LLMCapabilities {
    pub chat: bool,
    pub tools: bool,
    pub vision: bool,
    pub embeddings: bool,
    pub transcription: bool,
}

pub open spec fn no_capabilities() -> LLMCapabilities {
    LLMCapabilities {
        chat: false,
        tools: false,
        vision: false,
        embeddings: false,
        transcription: false,
    }
}

impl Default for LLMCapabilities {
    fn default() -> (r: Self)
        ensures
            r == no_capabilities(),
    {
        LLMCapabilities {
            chat: false,
            tools: false,
            vision: false,
            embeddings: false,
            transcription: false,
        }
    }
}

/// What both `a` and `b` can do.
pub open spec fn common_capabilities(a: LLMCapabilities, b: LLMCapabilities) -> LLMCapabilities {
    LLMCapabilities {
        chat: a.chat && b.chat,
        tools: a.tools && b.tools,
        vision: a.vision && b.vision,
        embeddings: a.embeddings && b.embeddings,
        transcription: a.transcription && b.transcription,
    }
}

impl LLMCapabilities {
    /// What both can do.
    pub fn common(&self, other: &LLMCapabilities) -> (r: LLMCapabilities)
        ensures
            r == common_capabilities(*self, *other),
    {
        LLMCapabilities {
            chat: self.chat && other.chat,
            tools: self.tools && other.tools,
            vision: self.vision && other.vision,
            embeddings: self.embeddings && other.embeddings,
            transcription: self.transcription && other.transcription,
        }
    }
}

/// What the user declares of a provider's models.
pub struct CustomProviderCapabilities {
    pub chat: bool,
    pub tools: bool,
    pub vision: bool,
    pub embeddings: bool,
    pub transcription: bool,
    pub context_window_tokens: Option<u32>,
    pub embedding_model: Option<String>,
}

impl CustomProviderCapabilities {
    /// The declared capabilities.
    pub open spec fn declared(&self) -> LLMCapabilities {
        LLMCapabilities {
            chat: self.chat,
            tools: self.tools,
            vision: self.vision,
            embeddings: self.embeddings,
            transcription: self.transcription,
        }
    }
}

impl Default for CustomProviderCapabilities {
    fn default() -> (r: Self)
        ensures
            r.declared() == (LLMCapabilities { chat: true, tools: true, ..no_capabilities() }),
            r.context_window_tokens is None,
            r.embedding_model is None,
    {
        CustomProviderCapabilities {
            chat: true,
            tools: true,
            vision: false,
            embeddings: false,
            transcription: false,
            context_window_tokens: None,
            embedding_model: None,
        }
    }
}

impl Clone for CustomProviderCapabilities {
    fn clone(&self) -> (r: Self)
        ensures
            r == *self,
    {
        CustomProviderCapabilities {
            chat: self.chat,
            tools: self.tools,
            vision: self.vision,
            embeddings: self.embeddings,
            transcription: self.transcription,
            context_window_tokens: self.context_window_tokens,
            embedding_model: text::clone_opt(&self.embedding_model),
        }
    }
}

/// A provider as the settings hold it.
pub struct CustomProviderConfig {
    pub name: String,
    pub base_url: String,
    pub models: Vec<String>,
    pub api_key_env_var: Option<String>,
    pub api_type: CustomApiType,
    pub prompt_caching: bool,
    pub capabilities: CustomProviderCapabilities,
    /// What the adapter of the provider's protocol implements at all.
    pub adapter: LLMCapabilities,
    /// Why the settings themselves reject the provider, if they do.
    pub settings_error: Option<String>,
}

impl Default for CustomProviderConfig {
    /// A provider without a name, with a full adapter and prompt caching on.
    fn default() -> (r: Self)
        ensures
            r.name@.len() == 0,
            r.base_url@.len() == 0,
            r.models@.len() == 0,
            r.api_key_env_var is None,
            r.api_type is OpenAiCompatible,
            r.prompt_caching,
            r.capabilities.declared() == (LLMCapabilities {
                chat: true,
                tools: true,
                ..no_capabilities()
            }),
            r.capabilities.context_window_tokens is None,
            r.capabilities.embedding_model is None,
            r.adapter == (LLMCapabilities {
                chat: true,
                tools: true,
                vision: true,
                embeddings: true,
                transcription: true,
            }),
            r.settings_error is None,
    {
        CustomProviderConfig {
            name: String::new(),
            base_url: String::new(),
            models: Vec::new(),
            api_key_env_var: None,
            api_type: CustomApiType::default(),
            prompt_caching: true,
            capabilities: CustomProviderCapabilities::default(),
            adapter: LLMCapabilities {
                chat: true,
                tools: true,
                vision: true,
                embeddings: true,
                transcription: true,
            },
            settings_error: None,
        }
    }
}

impl Clone for CustomProviderConfig {
    fn clone(&self) -> (r: Self)
        ensures
            r.name == self.name,
            r.base_url == self.base_url,
            r.models@ == self.models@,
            r.api_key_env_var == self.api_key_env_var,
            r.api_type == self.api_type,
            r.prompt_caching == self.prompt_caching,
            r.capabilities == self.capabilities,
            r.adapter == self.adapter,
            r.settings_error == self.settings_error,
    {
        CustomProviderConfig {
            name: self.name.clone(),
            base_url: self.base_url.clone(),
            models: text::clone_strings(&self.models),
            api_key_env_var: text::clone_opt(&self.api_key_env_var),
            api_type: self.api_type,
            prompt_caching: self.prompt_caching,
            capabilities: self.capabilities.clone(),
            adapter: self.adapter,
            settings_error: text::clone_opt(&self.settings_error),
        }
    }
}

/// What a URL text denotes: its scheme and whether it has a host, or why it is
/// no URL.
pub uninterp spec fn parsed_url(s: Seq<char>) -> Result<(Seq<char>, bool), Seq<char>>;

/// The parts of a URL over character sequences.
pub open spec fn url_parts(r: Result<(String, bool), String>) -> Result<
    (Seq<char>, bool),
    Seq<char>,
> {
    match r {
        Ok(parts) => Ok((parts.0@, parts.1)),
        Err(error) => Err(error@),
    }
}

/// `url::Url::parse` reads an absolute URL; what it finds, and the text of its
/// error, depend on the text alone.
#[verifier::external_body]
fn parse_url(s: &str) -> (r: Result<(String, bool), String>)
    ensures
        url_parts(r) == parsed_url(s@),
{
    match url::Url::parse(s) {
        Ok(parsed) => Ok((parsed.scheme().to_owned(), parsed.host().is_some())),
        Err(error) => Err(error.to_string()),
    }
}

/// Whether a URL can be the address of a provider.
pub open spec fn is_http_url(parts: (Seq<char>, bool)) -> bool {
    (parts.0 == "http"@ || parts.0 == "https"@) && parts.1
}

/// Whether a model list offers no concrete model.
pub open spec fn no_concrete_model(models: Seq<Seq<char>>) -> bool {
    models.len() == 0 || exists|i: int|
        0 <= i < models.len() && text::is_blank(#[trigger] models[i])
}

/// Why a provider cannot be used, if it cannot, where `url` is what its
/// trimmed address denotes.
pub open spec fn provider_problem(
    p: CustomProviderConfig,
    url: Result<(Seq<char>, bool), Seq<char>>,
) -> Option<Seq<char>> {
    if p.settings_error is Some {
        Some(p.settings_error->0@)
    } else if text::is_blank(p.name@) {
        Some("provider name is empty"@)
    } else if text::is_blank(p.base_url@) {
        Some("base URL is empty"@)
    } else if url is Err {
        Some("base URL is invalid: "@ + url->Err_0)
    } else if !is_http_url(url->Ok_0) {
        Some("base URL must use http(s) and include a host"@)
    } else if no_concrete_model(text::texts(p.models@)) {
        Some("model list contains no concrete model"@)
    } else {
        None
    }
}

/// Why a provider cannot be used, if it cannot.
pub open spec fn provider_error(p: CustomProviderConfig) -> Option<Seq<char>> {
    provider_problem(p, parsed_url(text::trimmed(p.base_url@)))
}

impl CustomProviderConfig {
    /// What the provider's models can do through its adapter.
    pub open spec fn effective(&self) -> LLMCapabilities {
        common_capabilities(self.capabilities.declared(), self.adapter)
    }

    /// What the provider's models can do through its adapter: no more than
    /// declared and no more than implemented.
    pub fn effective_capabilities(&self) -> (r: LLMCapabilities)
        ensures
            r == self.effective(),
    {
        let declared = LLMCapabilities {
            chat: self.capabilities.chat,
            tools: self.capabilities.tools,
            vision: self.capabilities.vision,
            embeddings: self.capabilities.embeddings,
            transcription: self.capabilities.transcription,
        };
        declared.common(&self.adapter)
    }

    /// Why the provider cannot be used, if it cannot, given what its trimmed
    /// address denotes.
    pub fn problem_with_url(&self, url: &Result<(String, bool), String>) -> (r: Option<String>)
        ensures
            text::text_opt(r) == provider_problem(*self, url_parts(*url)),
    {
        if let Some(error) = &self.settings_error {
            return Some(error.clone());
        }
        if text::blank(self.name.as_str()) {
            return Some("provider name is empty".to_owned());
        }
        if text::blank(self.base_url.as_str()) {
            return Some("base URL is empty".to_owned());
        }
        match url {
            Err(error) => {
                return Some(text::joined("base URL is invalid: ", error.as_str()));
            },
            Ok(parts) => {
                let http = text::same_text(parts.0.as_str(), "http");
                let https = text::same_text(parts.0.as_str(), "https");
                if !(http || https) || !parts.1 {
                    return Some("base URL must use http(s) and include a host".to_owned());
                }
            },
        }
        let ghost models = text::texts(self.models@);
        let mut blank_model: bool = false;
        let mut i: usize = 0;
        while i < self.models.len()
            invariant
                i <= self.models.len(),
                models == text::texts(self.models@),
                blank_model == exists|j: int|
                    0 <= j < i && text::is_blank(#[trigger] models[j]),
            decreases self.models.len() - i,
        {
            assert(models[i as int] == self.models@[i as int]@);
            if text::blank(self.models[i].as_str()) {
                blank_model = true;
            }
            i += 1;
        }
        if self.models.len() == 0 || blank_model {
            return Some("model list contains no concrete model".to_owned());
        }
        None
    }

    /// Why the provider cannot be used, if it cannot.
    pub fn problem(&self) -> (r: Option<String>)
        ensures
            text::text_opt(r) == provider_error(*self),
    {
        let url = parse_url(text::trim(self.base_url.as_str()).as_str());
        self.problem_with_url(&url)
    }
}

/// Whether exactly one provider has that name.
pub open spec fn name_is_unique(name: Seq<char>, providers: Seq<CustomProviderConfig>) -> bool {
    exists|i: int| is_only_provider(name, providers, i)
}

/// Whether the provider at a position is the only one of that name.
pub open spec fn is_only_provider(
    name: Seq<char>,
    providers: Seq<CustomProviderConfig>,
    i: int,
) -> bool {
    &&& 0 <= i < providers.len()
    &&& providers[i].name@ == name
    &&& forall|j: int|
        0 <= j < providers.len() && j != i ==> (#[trigger] providers[j]).name@ != name
}

/// Whether some provider has that name.
pub open spec fn name_is_known(name: Seq<char>, providers: Seq<CustomProviderConfig>) -> bool {
    exists|i: int| 0 <= i < providers.len() && (#[trigger] providers[i]).name@ == name
}

/// The provider of a name that only one has.
pub open spec fn provider_of(name: Seq<char>, providers: Seq<CustomProviderConfig>) -> CustomProviderConfig {
    providers[choose|i: int| is_only_provider(name, providers, i)]
}

/// How a name is used among the providers.
pub enum NameUse {
    Missing,
    Only(usize),
    Ambiguous,
}

/// Looks a provider name up.
pub fn find_provider(name: &str, providers: &[CustomProviderConfig]) -> (r: NameUse)
    ensures
        match r {
            NameUse::Missing => !name_is_known(name@, providers@) && !name_is_unique(
                name@,
                providers@,
            ),
            NameUse::Only(i) => name_is_unique(name@, providers@) && is_only_provider(
                name@,
                providers@,
                i as int,
            ) && providers@[i as int] == provider_of(name@, providers@),
            NameUse::Ambiguous => name_is_known(name@, providers@) && !name_is_unique(
                name@,
                providers@,
            ),
        },
{
    let mut found: Option<usize> = None;
    let mut i: usize = 0;
    while i < providers.len()
        invariant
            i <= providers.len(),
            match found {
                None => forall|j: int| 0 <= j < i ==> (#[trigger] providers@[j]).name@ != name@,
                Some(k) => k < i && providers@[k as int].name@ == name@ && forall|j: int|
                    0 <= j < i && j != k ==> (#[trigger] providers@[j]).name@ != name@,
            },
        decreases providers.len() - i,
    {
        if text::same_text(providers[i].name.as_str(), name) {
            if let Some(k) = found {
                proof {
                    assert forall|m: int| !is_only_provider(name@, providers@, m) by {
                        if is_only_provider(name@, providers@, m) {
                            assert(providers@[k as int].name@ == name@);
                            assert(providers@[i as int].name@ == name@);
                        }
                    }
                }
                return NameUse::Ambiguous;
            }
            found = Some(i);
        }
        i += 1;
    }
    match found {
        None => {
            proof {
                assert forall|m: int| !is_only_provider(name@, providers@, m) by {
                    if is_only_provider(name@, providers@, m) {
                        assert(providers@[m].name@ == name@);
                    }
                }
            }
            NameUse::Missing
        },
        Some(k) => {
            proof {
                assert(is_only_provider(name@, providers@, k as int));
                let m = choose|m: int| is_only_provider(name@, providers@, m);
                assert(is_only_provider(name@, providers@, m));
                if m != k {
                    assert(providers@[m].name@ != name@);
                }
            }
            NameUse::Only(k)
        },
    }
}

/// Whether exactly one provider has that name.
pub fn custom_provider_name_is_unique(name: &str, providers: &[CustomProviderConfig]) -> (r: bool)
    ensures
        r == name_is_unique(name@, providers@),
{
    match find_provider(name, providers) {
        NameUse::Only(_) => true,
        _ => false,
    }
}

/// The provider name and the model in the identifier of a configured model,
/// `custom/<provider>/<model>`.
pub open spec fn custom_model_parts(model_id: Seq<char>) -> Option<(Seq<char>, Seq<char>)> {
    if !text::starts_with(model_id, "custom/"@) {
        None
    } else {
        let rest = model_id.subrange("custom/"@.len() as int, model_id.len() as int);
        let at = text::first_index(rest, '/');
        if at >= rest.len() {
            None
        } else {
            Some((rest.subrange(0, at), rest.subrange(at + 1, rest.len() as int)))
        }
    }
}

/// Splits the identifier of a configured model at its slashes.
pub fn split_custom_model_id(model_id: &str) -> (r: Option<(String, String)>)
    ensures
        match r {
            Some(parts) => custom_model_parts(model_id@) == Some((parts.0@, parts.1@)),
            None => custom_model_parts(model_id@) is None,
        },
{
    let chars = text::chars_of(model_id);
    let prefix = text::chars_of("custom/");
    if !text::has_prefix(&chars, &prefix) {
        return None;
    }
    let rest = text::slice_chars(&chars, prefix.len(), chars.len());
    let at: usize = text::find_char(&rest, '/');
    if at >= rest.len() {
        return None;
    }
    Some((text::string_from(&rest, 0, at), text::string_from(&rest, at + 1, rest.len())))
}

/// The identifier of a configured model is its provider's name and its own, and
/// is read as these; the name of a provider holds no slash.
pub proof fn law_model_ids_read_back(provider: Seq<char>, model: Seq<char>)
    requires
        !provider.contains('/'),
    ensures
        custom_model_parts("custom/"@ + provider + "/"@ + model) == Some((provider, model)),
{
    reveal_strlit("custom/");
    reveal_strlit("/");
    let id = "custom/"@ + provider + "/"@ + model;
    assert(id.subrange(0, 7) =~= "custom/"@);
    let rest = id.subrange(7, id.len() as int);
    assert(rest =~= provider + "/"@ + model);
    text::lemma_first_index(rest, '/');
    let at = text::first_index(rest, '/');
    assert(rest[provider.len() as int] == '/');
    assert forall|j: int| 0 <= j < provider.len() implies rest[j] != '/' by {
        assert(provider.contains(provider[j]));
    }
    assert(at == provider.len());
    assert(rest.subrange(0, at) =~= provider);
    assert(rest.subrange(at + 1, rest.len() as int) =~= model);
}

/// What is read of an identifier is all there is to it.
pub proof fn law_model_ids_are_whole(id: Seq<char>, provider: Seq<char>, model: Seq<char>)
    requires
        custom_model_parts(id) == Some((provider, model)),
    ensures
        id == "custom/"@ + provider + "/"@ + model,
        !provider.contains('/'),
{
    reveal_strlit("custom/");
    reveal_strlit("/");
    let rest = id.subrange(7, id.len() as int);
    text::lemma_first_index(rest, '/');
    let at = text::first_index(rest, '/');
    assert(id =~= "custom/"@ + rest);
    assert(rest =~= provider + "/"@ + model);
    if provider.contains('/') {
        let j = choose|j: int| 0 <= j < provider.len() && provider[j] == '/';
        assert(rest[j] == '/');
    }
}

/// Through its adapter a provider can do what it declares and the adapter
/// implements, and nothing more.
pub proof fn law_effective_capabilities(p: CustomProviderConfig)
    ensures
        p.effective().chat <==> p.capabilities.chat && p.adapter.chat,
        p.effective().tools <==> p.capabilities.tools && p.adapter.tools,
        p.effective().vision <==> p.capabilities.vision && p.adapter.vision,
        p.effective().embeddings <==> p.capabilities.embeddings && p.adapter.embeddings,
        p.effective().transcription <==> p.capabilities.transcription && p.adapter.transcription,
{
}

/// A provider can be used where the settings accept it, it has a name, its
/// address is an http or https URL with a host, and it lists models of which
/// none is blank.
pub proof fn law_usable_providers(p: CustomProviderConfig, url: Result<(Seq<char>, bool), Seq<char>>)
    ensures
        provider_problem(p, url) is None <==> {
            &&& p.settings_error is None
            &&& !text::is_blank(p.name@)
            &&& !text::is_blank(p.base_url@)
            &&& url matches Ok((scheme, has_host)) && has_host && (scheme == "http"@ || scheme
                == "https"@)
            &&& p.models@.len() > 0
            &&& forall|i: int| 0 <= i < p.models@.len() ==> !text::is_blank(#[trigger] p.models@[i]@)
        },
        p.settings_error matches Some(error) ==> provider_problem(p, url) == Some(error@),
{
    let models = text::texts(p.models@);
    if no_concrete_model(models) && models.len() > 0 {
        let i = choose|i: int| 0 <= i < models.len() && text::is_blank(#[trigger] models[i]);
        assert(text::is_blank(p.models@[i]@));
    }
    assert forall|i: int| 0 <= i < p.models@.len() && !no_concrete_model(models) implies !text::is_blank(
        #[trigger] p.models@[i]@,
    ) by {
        assert(models[i] == p.models@[i]@);
    }
}

} // verus!
