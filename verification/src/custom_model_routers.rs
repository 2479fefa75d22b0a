//! Routers among the configured models: a router is a local file that names,
//! for each kind of request, the concrete model that serves it.

use crate::llms::{
    DisableReason, LLMCapabilities, LLMContextWindow, LLMId, LLMInfo, LLMProvider,
    LLMUsageMetadata,
};
use crate::llms;
use crate::paths;
use crate::providers;
use crate::providers::{CustomProviderConfig, NameUse};
use crate::text;
use crate::tokens;
use unicode_normalization_alignments::UnicodeNormalization;
use vstd::prelude::*;

verus! {

/// The prefix of every router's identifier.
pub const CUSTOM_ROUTER_PREFIX: &'static str = "custom-router:";

/// The prefix of the identifier of a router that a local file holds.
pub const LOCAL_CUSTOM_ROUTER_PREFIX: &'static str = "custom-router:local:";

/// How many characters of a prompt are looked at.
pub const MAX_ROUTER_PROMPT_CHARS: usize = 65_536;

/// How many characters the descriptions of a router's rules may have together.
pub const MAX_ROUTER_PROMPT_DESCRIPTION_CHARS: usize = 262_144;

/// How many tokens a router's rules may have together.
pub const MAX_ROUTER_PROMPT_TOKEN_BUDGET: usize = 16_384;

/// The largest router file, in bytes.
pub const MAX_ROUTER_YAML_BYTES: usize = 262_144;

/// How many rules a router may have.
pub const MAX_ROUTER_RULES: usize = 128;

/// How many targets a router may have.
pub const MAX_ROUTER_TARGETS: usize = 132;

/// The longest name of a router and the longest identifier of a model.
pub const MAX_ROUTER_ID_CHARS: usize = 256;

/// More characters of context than this count as this many.
pub const MAX_COMPLEXITY_CONTEXT_CHARS: usize = 1_000_000;

// ---------------------------------------------------------------------------
// Tokens.

/// A text in Unicode normalisation form KC.
pub uninterp spec fn nfkc_of(s: Seq<char>) -> Seq<char>;

/// `unicode_normalization_alignments`'s `nfkc` puts the characters into
/// normalisation form KC; what comes out depends on the characters alone. The
/// alignment that it yields beside each character is left out.
#[verifier::external_body]
pub(crate) fn nfkc_text(s: &str) -> (r: String)
    ensures
        r@ == nfkc_of(s@),
{
    s.chars().nfkc().map(|pair| pair.0).collect()
}

/// Whether a word is too common to route by.
pub open spec fn is_stop_word(word: Seq<char>) -> bool {
    word == "a"@ || word == "an"@ || word == "and"@ || word == "for"@ || word == "in"@ || word
        == "of"@ || word == "the"@ || word == "to"@ || word == "with"@
}

/// Whether a word can select a rule.
pub open spec fn is_meaningful(word: Seq<char>) -> bool {
    word.len() > 1 && !is_stop_word(word)
}

/// The meaningful words, each where it first occurs.
pub open spec fn distinct_meaningful(words: Seq<Seq<char>>) -> Seq<Seq<char>>
    decreases words.len(),
{
    if words.len() == 0 {
        Seq::empty()
    } else {
        let init = distinct_meaningful(words.drop_last());
        if is_meaningful(words.last()) && !init.contains(words.last()) {
            init.push(words.last())
        } else {
            init
        }
    }
}

/// The tokens of a normalised text.
pub open spec fn tokens_of(normalized: Seq<char>) -> Seq<Seq<char>> {
    distinct_meaningful(text::words(tokens::folded(normalized)))
}

/// The tokens of a text.
pub open spec fn meaningful(value: Seq<char>) -> Seq<Seq<char>> {
    tokens_of(nfkc_of(text::first_chars(value, MAX_ROUTER_PROMPT_CHARS as int)))
}

fn word_is_meaningful(word: &str) -> (r: bool)
    ensures
        r == is_meaningful(word@),
{
    if text::char_count(word) <= 1 {
        return false;
    }
    !(text::same_text(word, "a") || text::same_text(word, "an") || text::same_text(word, "and")
        || text::same_text(word, "for") || text::same_text(word, "in") || text::same_text(
        word,
        "of",
    ) || text::same_text(word, "the") || text::same_text(word, "to") || text::same_text(
        word,
        "with",
    ))
}

/// The tokens of a normalised text: its words of more than one letter or digit
/// in lower case, without the most common ones and each once.
pub fn tokens_in(normalized: &str) -> (r: Vec<String>)
    ensures
        text::texts(r@) == tokens_of(normalized@),
{
    let chars = text::chars_of(normalized);
    let words = text::split_words(&tokens::fold_chars(&chars));
    let ghost all = text::texts(words@);
    let mut out: Vec<String> = Vec::new();
    let mut i: usize = 0;
    assert(all.subrange(0, 0) =~= Seq::<Seq<char>>::empty());
    assert(text::texts(out@) =~= Seq::<Seq<char>>::empty());
    while i < words.len()
        invariant
            i <= words.len(),
            all == text::texts(words@),
            text::texts(out@) == distinct_meaningful(all.subrange(0, i as int)),
        decreases words.len() - i,
    {
        let ghost part = all.subrange(0, i + 1);
        let ghost before = text::texts(out@);
        assert(part.drop_last() =~= all.subrange(0, i as int));
        assert(part.last() == words@[i as int]@);
        let word = words[i].as_str();
        if word_is_meaningful(word) && !text::strings_contain(&out, word) {
            out.push(word.to_owned());
            assert(text::texts(out@) =~= before.push(word@));
        }
        i += 1;
    }
    assert(all.subrange(0, all.len() as int) =~= all);
    out
}

/// The tokens of the first characters of a text.
pub fn meaningful_tokens(value: &str) -> (r: Vec<String>)
    ensures
        text::texts(r@) == meaningful(value@),
{
    let chars = text::chars_of(value);
    let end: usize = if chars.len() < MAX_ROUTER_PROMPT_CHARS {
        chars.len()
    } else {
        MAX_ROUTER_PROMPT_CHARS
    };
    let start = text::string_from(&chars, 0, end);
    assert(start@ =~= text::first_chars(value@, MAX_ROUTER_PROMPT_CHARS as int));
    let normalized = nfkc_text(start.as_str());
    tokens_in(normalized.as_str())
}

// ---------------------------------------------------------------------------
// Routers.

/// One rule of a prompt router.
#[derive(Debug, PartialEq, Eq)]
pub struct PromptRule {
    pub description: String,
    pub model: String,
    tokens: Vec<String>,
}

/// What a rule says, with the tokens that it is matched by.
#[verifier::ext_equal]
pub struct RuleModel {
    pub description: Seq<char>,
    pub model: Seq<char>,
    pub tokens: Seq<Seq<char>>,
}

impl View for PromptRule {
    type V = RuleModel;

    closed spec fn view(&self) -> RuleModel {
        RuleModel {
            description: self.description@,
            model: self.model@,
            tokens: text::texts(self.tokens@),
        }
    }
}

/// A rule with the tokens of its description.
pub open spec fn rule_of(description: Seq<char>, model: Seq<char>) -> RuleModel {
    RuleModel { description, model, tokens: meaningful(description) }
}

impl PromptRule {
    pub fn new(description: String, model: String) -> (r: Self)
        ensures
            r@ == rule_of(description@, model@),
    {
        let tokens = meaningful_tokens(description.as_str());
        PromptRule { description, model, tokens }
    }
}

impl Clone for PromptRule {
    fn clone(&self) -> (r: Self)
        ensures
            r@ == self@,
    {
        PromptRule {
            description: self.description.clone(),
            model: self.model.clone(),
            tokens: text::clone_strings(&self.tokens),
        }
    }
}

/// Chooses the model by how hard the request is. A missing model is the
/// default.
#[derive(Clone, Debug, PartialEq, Eq)]
pub struct ComplexityRouting<S = String> {
    pub default: S,
    pub easy: Option<S>,
    pub medium: Option<S>,
    pub hard: Option<S>,
}

/// Chooses the model of the first rule that shares a token with the prompt.
#[derive(Clone, Debug, PartialEq, Eq)]
pub struct PromptRouting<S = String, R = Vec<PromptRule>> {
    pub default_model: S,
    pub rules: R,
}

/// How a router chooses.
#[derive(Debug, PartialEq, Eq)]
pub enum CustomModelRouting<S = String, R = Vec<PromptRule>> {
    Complexity(ComplexityRouting<S>),
    Prompt(PromptRouting<S, R>),
}

pub type RoutingModel = CustomModelRouting<Seq<char>, Seq<RuleModel>>;

pub open spec fn rule_models(v: Seq<PromptRule>) -> Seq<RuleModel> {
    Seq::new(v.len(), |i: int| v[i]@)
}

impl View for CustomModelRouting<String, Vec<PromptRule>> {
    type V = RoutingModel;

    open spec fn view(&self) -> RoutingModel {
        match self {
            CustomModelRouting::Complexity(routing) => CustomModelRouting::Complexity(
                ComplexityRouting {
                    default: routing.default@,
                    easy: text::text_opt(routing.easy),
                    medium: text::text_opt(routing.medium),
                    hard: text::text_opt(routing.hard),
                },
            ),
            CustomModelRouting::Prompt(routing) => CustomModelRouting::Prompt(
                PromptRouting {
                    default_model: routing.default_model@,
                    rules: rule_models(routing.rules@),
                },
            ),
        }
    }
}

fn clone_rules(v: &Vec<PromptRule>) -> (r: Vec<PromptRule>)
    ensures
        rule_models(r@) == rule_models(v@),
{
    let mut out: Vec<PromptRule> = Vec::new();
    let mut i: usize = 0;
    while i < v.len()
        invariant
            i <= v.len(),
            out.len() == i,
            forall|j: int| 0 <= j < i ==> (#[trigger] out@[j])@ == v@[j]@,
        decreases v.len() - i,
    {
        out.push(v[i].clone());
        i += 1;
    }
    assert(rule_models(out@) =~= rule_models(v@));
    out
}

impl Clone for CustomModelRouting<String, Vec<PromptRule>> {
    fn clone(&self) -> (r: Self)
        ensures
            r@ == self@,
    {
        match self {
            CustomModelRouting::Complexity(routing) => CustomModelRouting::Complexity(
                ComplexityRouting {
                    default: routing.default.clone(),
                    easy: text::clone_opt(&routing.easy),
                    medium: text::clone_opt(&routing.medium),
                    hard: text::clone_opt(&routing.hard),
                },
            ),
            CustomModelRouting::Prompt(routing) => CustomModelRouting::Prompt(
                PromptRouting {
                    default_model: routing.default_model.clone(),
                    rules: clone_rules(&routing.rules),
                },
            ),
        }
    }
}

/// The rules with the tokens of their descriptions.
pub open spec fn retokenized(rules: Seq<RuleModel>) -> Seq<RuleModel> {
    Seq::new(rules.len(), |i: int| rule_of(rules[i].description, rules[i].model))
}

/// A routing whose rules carry the tokens of their descriptions.
pub open spec fn normalized_routing(routing: RoutingModel) -> RoutingModel {
    match routing {
        CustomModelRouting::Complexity(r) => CustomModelRouting::Complexity(r),
        CustomModelRouting::Prompt(r) => CustomModelRouting::Prompt(
            PromptRouting { default_model: r.default_model, rules: retokenized(r.rules) },
        ),
    }
}

fn normalize_routing(routing: CustomModelRouting) -> (r: CustomModelRouting)
    ensures
        r@ == normalized_routing(routing@),
{
    match routing {
        CustomModelRouting::Complexity(routing) => CustomModelRouting::Complexity(routing),
        CustomModelRouting::Prompt(routing) => {
            let mut rules: Vec<PromptRule> = Vec::new();
            let mut i: usize = 0;
            while i < routing.rules.len()
                invariant
                    i <= routing.rules.len(),
                    rules.len() == i,
                    forall|j: int|
                        0 <= j < i ==> (#[trigger] rules@[j])@ == rule_of(
                            routing.rules@[j]@.description,
                            routing.rules@[j]@.model,
                        ),
                decreases routing.rules.len() - i,
            {
                let rule = &routing.rules[i];
                rules.push(PromptRule::new(rule.description.clone(), rule.model.clone()));
                i += 1;
            }
            assert(rule_models(rules@) =~= retokenized(rule_models(routing.rules@)));
            CustomModelRouting::Prompt(
                PromptRouting { default_model: routing.default_model, rules },
            )
        },
    }
}

/// The path of a router's file, and how it is shown to the user: relative to
/// their home directory.
pub struct SourcePath {
    pub path: String,
    pub shown: String,
}

/// A router.
#[derive(Debug, PartialEq)]
pub struct CustomModelRouter {
    pub info: LLMInfo,
    pub routing: CustomModelRouting,
    pub source_path: Option<String>,
}

/// What a router says.
#[verifier::ext_equal]
pub struct RouterModel {
    pub info: llms::InfoModel,
    pub routing: RoutingModel,
    pub source_path: Option<Seq<char>>,
}

impl View for CustomModelRouter {
    type V = RouterModel;

    open spec fn view(&self) -> RouterModel {
        RouterModel {
            info: self.info@,
            routing: self.routing@,
            source_path: text::text_opt(self.source_path),
        }
    }
}

pub open spec fn router_models(v: Seq<CustomModelRouter>) -> Seq<RouterModel> {
    Seq::new(v.len(), |i: int| v[i]@)
}

impl Clone for CustomModelRouter {
    fn clone(&self) -> (r: Self)
        ensures
            r@ == self@,
    {
        CustomModelRouter {
            info: self.info.clone(),
            routing: self.routing.clone(),
            source_path: text::clone_opt(&self.source_path),
        }
    }
}

/// What distinguishes a local router: the stem of its file's name, or else
/// what it is called.
pub open spec fn local_id(source_path: Option<Seq<char>>, fallback: Seq<char>) -> Seq<char> {
    match source_path {
        Some(path) => match paths::file_stem(path) {
            Some(stem) => if stem.len() > 0 {
                stem
            } else {
                fallback
            },
            None => fallback,
        },
        None => fallback,
    }
}

fn local_id_from_path(source_path: Option<&str>, fallback: &str) -> (r: String)
    ensures
        r@ == local_id(
            match source_path {
                Some(path) => Some(path@),
                None => None,
            },
            fallback@,
        ),
{
    if let Some(path) = source_path {
        if let Some(stem) = paths::path_file_stem(path) {
            if !stem.as_str().is_empty() {
                return stem;
            }
        }
    }
    fallback.to_owned()
}

/// The kind of routing in words.
pub open spec fn routing_text(routing: RoutingModel) -> Seq<char> {
    match routing {
        CustomModelRouting::Complexity(_) => "Routes by task complexity"@,
        CustomModelRouting::Prompt(_) => "Routes by prompt content"@,
    }
}

fn routing_description(routing: &CustomModelRouting) -> (r: &'static str)
    ensures
        r@ == routing_text(routing@),
{
    match routing {
        CustomModelRouting::Complexity(_) => "Routes by task complexity",
        CustomModelRouting::Prompt(_) => "Routes by prompt content",
    }
}

/// What the source path says, over character sequences.
pub open spec fn source_of(source: Option<&SourcePath>) -> Option<(Seq<char>, Seq<char>)> {
    match source {
        Some(source) => Some((source.path@, source.shown@)),
        None => None,
    }
}

/// The information on a fresh local router. What its targets can do is not
/// known yet.
pub open spec fn router_info(
    name: Seq<char>,
    routing: RoutingModel,
    source: Option<(Seq<char>, Seq<char>)>,
) -> llms::InfoModel {
    llms::InfoModel {
        display_name: name,
        base_model_name: name,
        id: LOCAL_CUSTOM_ROUTER_PREFIX@ + local_id(
            match source {
                Some(s) => Some(s.0),
                None => None,
            },
            name,
        ),
        reasoning_level: None,
        usage_metadata: LLMUsageMetadata { request_multiplier: 1 },
        description: Some(
            match source {
                Some(s) => routing_text(routing) + " · "@ + s.1,
                None => routing_text(routing),
            },
        ),
        disable_reason: None,
        vision_supported: false,
        provider: LLMProvider::Unknown,
        host_configs: Map::empty(),
        context_window: llms::no_context_window(),
        capabilities: None,
    }
}

/// A local router of that name, that routing and that file.
pub open spec fn router_of(
    name: Seq<char>,
    routing: RoutingModel,
    source: Option<(Seq<char>, Seq<char>)>,
) -> RouterModel {
    RouterModel {
        info: router_info(name, routing, source),
        routing,
        source_path: match source {
            Some(s) => Some(s.0),
            None => None,
        },
    }
}

/// The targets of a routing, the default first.
pub open spec fn targets_of(routing: RoutingModel) -> Seq<Seq<char>> {
    match routing {
        CustomModelRouting::Complexity(r) => seq![r.default] + listed(r.easy) + listed(r.medium)
            + listed(r.hard),
        CustomModelRouting::Prompt(r) => seq![r.default_model] + Seq::new(
            r.rules.len(),
            |i: int| r.rules[i].model,
        ),
    }
}

/// An optional text as a list of at most one.
pub open spec fn listed(o: Option<Seq<char>>) -> Seq<Seq<char>> {
    match o {
        Some(s) => seq![s],
        None => Seq::empty(),
    }
}

/// Whether an identifier is that of a router.
pub open spec fn is_router_id(value: Seq<char>) -> bool {
    text::starts_with(value, CUSTOM_ROUTER_PREFIX@)
}

pub fn is_custom_router_id(value: &str) -> (r: bool)
    ensures
        r == is_router_id(value@),
{
    text::str_starts_with(value, CUSTOM_ROUTER_PREFIX)
}

pub open spec fn is_local_router_id(value: Seq<char>) -> bool {
    text::starts_with(value, LOCAL_CUSTOM_ROUTER_PREFIX@)
}

pub fn is_local_custom_router_id(value: &str) -> (r: bool)
    ensures
        r == is_local_router_id(value@),
{
    text::str_starts_with(value, LOCAL_CUSTOM_ROUTER_PREFIX)
}

/// Whether a target leaves the choice to someone else: a hosted automatic
/// model or another router.
pub open spec fn is_auto(value: Seq<char>) -> bool {
    let v = text::trimmed(value);
    v == "auto"@ || text::starts_with(v, "auto-"@) || v == "cli-agent-auto"@ || v
        == "computer-use-agent-auto"@ || is_router_id(v)
}

pub fn is_auto_target(value: &str) -> (r: bool)
    ensures
        r == is_auto(value@),
{
    let v = text::trim(value);
    let v = v.as_str();
    text::same_text(v, "auto") || text::str_starts_with(v, "auto-") || text::same_text(
        v,
        "cli-agent-auto",
    ) || text::same_text(v, "computer-use-agent-auto") || is_custom_router_id(v)
}

/// The provider and the model that a concrete identifier names, if it is one.
pub open spec fn concrete_parts(value: Seq<char>) -> Option<(Seq<char>, Seq<char>)> {
    if text::utf8_len(value) > MAX_ROUTER_ID_CHARS {
        None
    } else {
        match providers::custom_model_parts(value) {
            None => None,
            Some(parts) => if text::is_blank(parts.0) || text::is_blank(parts.1)
                || text::has_space(parts.0) || text::has_space(parts.1) || text::starts_with(
                parts.1,
                "router:"@,
            ) || is_router_id(parts.1) {
                None
            } else {
                Some(parts)
            },
        }
    }
}

/// The texts of a pair.
pub open spec fn pair_of(parts: Option<(String, String)>) -> Option<(Seq<char>, Seq<char>)> {
    match parts {
        Some(parts) => Some((parts.0@, parts.1@)),
        None => None,
    }
}

fn parse_concrete_custom_model_id(value: &str) -> (r: Option<(String, String)>)
    ensures
        pair_of(r) == concrete_parts(value@),
{
    if text::byte_len(value) > MAX_ROUTER_ID_CHARS {
        return None;
    }
    let parts = match providers::split_custom_model_id(value) {
        Some(parts) => parts,
        None => {
            return None;
        },
    };
    let provider = text::chars_of(parts.0.as_str());
    let model = text::chars_of(parts.1.as_str());
    if text::blank(parts.0.as_str()) || text::blank(parts.1.as_str()) || text::contains_space(
        &provider,
    ) || text::contains_space(&model) || text::str_starts_with(parts.1.as_str(), "router:")
        || is_custom_router_id(parts.1.as_str()) {
        return None;
    }
    Some(parts)
}

/// What is wrong with a target, if anything is.
pub open spec fn target_problem(value: Seq<char>) -> Option<Seq<char>> {
    let v = text::trimmed(value);
    if v.len() == 0 {
        Some("target model id is empty"@)
    } else if is_auto(v) {
        Some("target `"@ + v + "` is an auto or nested router"@)
    } else if concrete_parts(v) is None {
        Some("target `"@ + v + "` is not a concrete custom/<provider>/<model> id"@)
    } else {
        None
    }
}

fn validate_target(value: &str) -> (r: Option<String>)
    ensures
        text::text_opt(r) == target_problem(value@),
{
    let v = text::trim(value);
    if v.as_str().is_empty() {
        return Some("target model id is empty".to_owned());
    }
    if is_auto_target(v.as_str()) {
        return Some(text::concat3("target `", v.as_str(), "` is an auto or nested router"));
    }
    if parse_concrete_custom_model_id(v.as_str()).is_none() {
        return Some(
            text::concat3(
                "target `",
                v.as_str(),
                "` is not a concrete custom/<provider>/<model> id",
            ),
        );
    }
    None
}

/// What is wrong with a complexity routing, if anything is.
pub open spec fn complexity_problem(routing: ComplexityRouting<Seq<char>>) -> Option<Seq<char>> {
    if target_problem(routing.default) is Some {
        Some("`default`: "@ + target_problem(routing.default)->0)
    } else if bucket_problem("easy"@, routing.easy) is Some {
        bucket_problem("easy"@, routing.easy)
    } else if bucket_problem("medium"@, routing.medium) is Some {
        bucket_problem("medium"@, routing.medium)
    } else {
        bucket_problem("hard"@, routing.hard)
    }
}

pub open spec fn bucket_problem(bucket: Seq<char>, target: Option<Seq<char>>) -> Option<Seq<char>> {
    match target {
        None => None,
        Some(target) => match target_problem(target) {
            Some(error) => Some("complexity bucket `"@ + bucket + "`: "@ + error),
            None => None,
        },
    }
}

/// How many characters the descriptions of the first `n` rules have.
pub open spec fn description_chars(rules: Seq<RuleModel>, n: int) -> nat
    decreases n,
{
    if n <= 0 {
        0
    } else {
        description_chars(rules, n - 1) + rules[n - 1].description.len()
    }
}

/// How many tokens the first `n` rules have.
pub open spec fn token_count(rules: Seq<RuleModel>, n: int) -> nat
    decreases n,
{
    if n <= 0 {
        0
    } else {
        token_count(rules, n - 1) + rules[n - 1].tokens.len()
    }
}

/// What is wrong with the rule at a position, if anything is.
pub open spec fn rule_problem(rules: Seq<RuleModel>, i: int) -> Option<Seq<char>> {
    if description_chars(rules, i + 1) > MAX_ROUTER_PROMPT_DESCRIPTION_CHARS {
        Some("prompt rule descriptions exceed 262144 characters"@)
    } else if token_count(rules, i + 1) > MAX_ROUTER_PROMPT_TOKEN_BUDGET {
        Some("prompt rule tokens exceed 16384"@)
    } else if rules[i].tokens.len() == 0 {
        Some("prompt rule "@ + text::decimal(i as nat) + ": `description` is empty"@)
    } else {
        match target_problem(rules[i].model) {
            Some(error) => Some("prompt rule "@ + text::decimal(i as nat) + ": "@ + error),
            None => None,
        }
    }
}

/// What is wrong with the first bad rule from a position on, if there is one.
pub open spec fn rules_problem(rules: Seq<RuleModel>, from: int) -> Option<Seq<char>>
    decreases rules.len() - from,
{
    if from >= rules.len() {
        None
    } else if rule_problem(rules, from) is Some {
        rule_problem(rules, from)
    } else {
        rules_problem(rules, from + 1)
    }
}

/// What is wrong with a prompt routing, if anything is.
pub open spec fn prompt_problem(routing: PromptRouting<Seq<char>, Seq<RuleModel>>) -> Option<
    Seq<char>,
> {
    if routing.rules.len() > MAX_ROUTER_RULES {
        Some("router has more than 128 prompt rules"@)
    } else if target_problem(routing.default_model) is Some {
        Some("`default`: "@ + target_problem(routing.default_model)->0)
    } else {
        rules_problem(routing.rules, 0)
    }
}

/// What is wrong with a router apart from the providers, if anything is.
pub open spec fn router_problem(m: RouterModel) -> Option<Seq<char>> {
    let name = text::trimmed(m.info.display_name);
    if name.len() > MAX_ROUTER_ID_CHARS {
        Some("custom model router name exceeds 256 characters"@)
    } else if name.len() == 0 {
        Some("custom model router `name` is empty"@)
    } else if targets_of(m.routing).len() > MAX_ROUTER_TARGETS {
        Some("router has more than 132 targets"@)
    } else {
        match m.routing {
            CustomModelRouting::Complexity(routing) => complexity_problem(routing),
            CustomModelRouting::Prompt(routing) => prompt_problem(routing),
        }
    }
}

fn validate_bucket(bucket: &str, target: &Option<String>) -> (r: Option<String>)
    ensures
        text::text_opt(r) == bucket_problem(bucket@, text::text_opt(*target)),
{
    match target {
        None => None,
        Some(target) => match validate_target(target.as_str()) {
            Some(error) => Some(
                text::concat4("complexity bucket `", bucket, "`: ", error.as_str()),
            ),
            None => None,
        },
    }
}

fn validate_complexity(routing: &ComplexityRouting) -> (r: Option<String>)
    ensures
        text::text_opt(r) == complexity_problem(
            (ComplexityRouting {
                default: routing.default@,
                easy: text::text_opt(routing.easy),
                medium: text::text_opt(routing.medium),
                hard: text::text_opt(routing.hard),
            }),
        ),
{
    if let Some(error) = validate_target(routing.default.as_str()) {
        return Some(text::joined("`default`: ", error.as_str()));
    }
    if let Some(error) = validate_bucket("easy", &routing.easy) {
        return Some(error);
    }
    if let Some(error) = validate_bucket("medium", &routing.medium) {
        return Some(error);
    }
    validate_bucket("hard", &routing.hard)
}

fn validate_rules(rules: &Vec<PromptRule>) -> (r: Option<String>)
    ensures
        text::text_opt(r) == rules_problem(rule_models(rules@), 0),
{
    let ghost models = rule_models(rules@);
    let mut chars: usize = 0;
    let mut tokens: usize = 0;
    let mut i: usize = 0;
    while i < rules.len()
        invariant
            i <= rules.len(),
            models == rule_models(rules@),
            rules_problem(models, 0) == rules_problem(models, i as int),
            chars == description_chars(models, i as int),
            chars <= MAX_ROUTER_PROMPT_DESCRIPTION_CHARS,
            tokens == token_count(models, i as int),
            tokens <= MAX_ROUTER_PROMPT_TOKEN_BUDGET,
        decreases rules.len() - i,
    {
        let rule = &rules[i];
        assert(models[i as int] == rule@);
        let more: usize = text::char_count(rule.description.as_str());
        chars = chars.saturating_add(more);
        tokens = tokens.saturating_add(rule.tokens.len());
        if chars > MAX_ROUTER_PROMPT_DESCRIPTION_CHARS {
            return Some("prompt rule descriptions exceed 262144 characters".to_owned());
        }
        if tokens > MAX_ROUTER_PROMPT_TOKEN_BUDGET {
            return Some("prompt rule tokens exceed 16384".to_owned());
        }
        if rule.tokens.len() == 0 {
            return Some(
                text::concat3(
                    "prompt rule ",
                    text::decimal_usize(i).as_str(),
                    ": `description` is empty",
                ),
            );
        }
        if let Some(error) = validate_target(rule.model.as_str()) {
            return Some(
                text::concat4(
                    "prompt rule ",
                    text::decimal_usize(i).as_str(),
                    ": ",
                    error.as_str(),
                ),
            );
        }
        i += 1;
    }
    None
}

// ---------------------------------------------------------------------------
// Requests.

/// What is known of a request before it is sent.
#[derive(Clone, Debug, PartialEq, Eq)]
pub struct RouterRequestFacts {
    pub prompt: String,
    pub context_chars: usize,
    pub attachment_count: usize,
    pub requires_code_review: bool,
    pub requires_edit: bool,
    pub requires_tools: bool,
    pub requires_vision: bool,
}

/// What the facts say.
#[verifier::ext_equal]
pub struct FactsModel {
    pub prompt: Seq<char>,
    pub context_chars: nat,
    pub attachment_count: nat,
    pub requires_code_review: bool,
    pub requires_edit: bool,
    pub requires_tools: bool,
    pub requires_vision: bool,
}

impl View for RouterRequestFacts {
    type V = FactsModel;

    open spec fn view(&self) -> FactsModel {
        FactsModel {
            prompt: self.prompt@,
            context_chars: self.context_chars as nat,
            attachment_count: self.attachment_count as nat,
            requires_code_review: self.requires_code_review,
            requires_edit: self.requires_edit,
            requires_tools: self.requires_tools,
            requires_vision: self.requires_vision,
        }
    }
}

/// A request of which only the prompt is known.
pub open spec fn bare_request(prompt: Seq<char>) -> FactsModel {
    FactsModel {
        prompt,
        context_chars: 0,
        attachment_count: 0,
        requires_code_review: false,
        requires_edit: false,
        requires_tools: false,
        requires_vision: false,
    }
}

/// An ordinary request: it needs tools.
pub open spec fn ordinary_request() -> FactsModel {
    FactsModel { requires_tools: true, ..bare_request(Seq::empty()) }
}

impl Default for RouterRequestFacts {
    fn default() -> (r: Self)
        ensures
            r@ == bare_request(Seq::empty()),
    {
        let r = RouterRequestFacts::from_prompt("");
        proof {
            reveal_strlit("");
        }
        assert(r@.prompt =~= Seq::<char>::empty());
        r
    }
}

impl RouterRequestFacts {
    pub fn from_prompt(prompt: &str) -> (r: Self)
        ensures
            r@ == bare_request(prompt@),
    {
        RouterRequestFacts {
            prompt: prompt.to_owned(),
            context_chars: 0,
            attachment_count: 0,
            requires_code_review: false,
            requires_edit: false,
            requires_tools: false,
            requires_vision: false,
        }
    }

    /// What a router must be able to serve before any prompt is known.
    pub fn baseline() -> (r: Self)
        ensures
            r@ == ordinary_request(),
    {
        let mut facts = RouterRequestFacts::default();
        facts.requires_tools = true;
        facts
    }
}

/// How hard a request is.
#[derive(Clone, Copy, Debug, PartialEq, Eq, Structural)]
pub enum ComplexityBucket {
    Easy,
    Medium,
    Hard,
}

pub open spec fn bucket_of(facts: FactsModel) -> ComplexityBucket {
    if facts.requires_code_review || facts.requires_edit || facts.context_chars >= 96_000
        || facts.attachment_count >= 4 {
        ComplexityBucket::Hard
    } else if facts.requires_tools || facts.attachment_count > 0 || facts.context_chars >= 12_000 {
        ComplexityBucket::Medium
    } else {
        ComplexityBucket::Easy
    }
}

pub fn complexity_bucket(facts: &RouterRequestFacts) -> (r: ComplexityBucket)
    ensures
        r == bucket_of(facts@),
{
    if facts.requires_code_review || facts.requires_edit || facts.context_chars >= 96_000
        || facts.attachment_count >= 4 {
        ComplexityBucket::Hard
    } else if facts.requires_tools || facts.attachment_count > 0 || facts.context_chars >= 12_000 {
        ComplexityBucket::Medium
    } else {
        ComplexityBucket::Easy
    }
}

/// What a router has chosen and why.
#[derive(Clone, Debug, PartialEq, Eq)]
pub struct RouterSelection<I = LLMId, S = String> {
    pub router_id: I,
    pub model_id: S,
    pub complexity_bucket: Option<ComplexityBucket>,
    pub prompt_rule_index: Option<usize>,
}

pub type SelectionModel = RouterSelection<Seq<char>, Seq<char>>;

impl View for RouterSelection<LLMId, String> {
    type V = SelectionModel;

    open spec fn view(&self) -> SelectionModel {
        RouterSelection {
            router_id: self.router_id@,
            model_id: self.model_id@,
            complexity_bucket: self.complexity_bucket,
            prompt_rule_index: self.prompt_rule_index,
        }
    }
}

/// Whether a rule shares a token with the prompt.
pub open spec fn rule_matches(rule: RuleModel, prompt_tokens: Seq<Seq<char>>) -> bool {
    exists|i: int|
        0 <= i < rule.tokens.len() && prompt_tokens.contains(#[trigger] rule.tokens[i])
}

/// The first rule from a position on that shares a token with the prompt, or
/// the number of rules.
pub open spec fn first_match(
    rules: Seq<RuleModel>,
    prompt_tokens: Seq<Seq<char>>,
    from: int,
) -> int
    decreases rules.len() - from,
{
    if from >= rules.len() {
        rules.len() as int
    } else if rule_matches(rules[from], prompt_tokens) {
        from
    } else {
        first_match(rules, prompt_tokens, from + 1)
    }
}

/// What a complexity routing chooses for a request of that difficulty.
pub open spec fn bucket_target(
    routing: ComplexityRouting<Seq<char>>,
    bucket: ComplexityBucket,
) -> Seq<char> {
    let own = match bucket {
        ComplexityBucket::Easy => routing.easy,
        ComplexityBucket::Medium => routing.medium,
        ComplexityBucket::Hard => routing.hard,
    };
    match own {
        Some(target) => target,
        None => routing.default,
    }
}

/// What a router chooses for a request, where the prompt has those tokens.
pub open spec fn choice_with_tokens(
    m: RouterModel,
    facts: FactsModel,
    prompt_tokens: Seq<Seq<char>>,
) -> SelectionModel {
    match m.routing {
        CustomModelRouting::Complexity(routing) => RouterSelection {
            router_id: m.info.id,
            model_id: bucket_target(routing, bucket_of(facts)),
            complexity_bucket: Some(bucket_of(facts)),
            prompt_rule_index: None,
        },
        CustomModelRouting::Prompt(routing) => {
            let i = first_match(routing.rules, prompt_tokens, 0);
            RouterSelection {
                router_id: m.info.id,
                model_id: if i < routing.rules.len() {
                    routing.rules[i].model
                } else {
                    routing.default_model
                },
                complexity_bucket: None,
                prompt_rule_index: if i < routing.rules.len() {
                    Some(i as usize)
                } else {
                    None
                },
            }
        },
    }
}

/// What a router chooses for a request.
pub open spec fn choice_of(m: RouterModel, facts: FactsModel) -> SelectionModel {
    choice_with_tokens(m, facts, meaningful(facts.prompt))
}

fn rule_shares_token(rule: &PromptRule, prompt_tokens: &Vec<String>) -> (r: bool)
    ensures
        r == rule_matches(rule@, text::texts(prompt_tokens@)),
{
    let ghost own = text::texts(rule.tokens@);
    let mut i: usize = 0;
    while i < rule.tokens.len()
        invariant
            i <= rule.tokens.len(),
            own == text::texts(rule.tokens@),
            own == rule@.tokens,
            forall|j: int|
                0 <= j < i ==> !text::texts(prompt_tokens@).contains(#[trigger] own[j]),
        decreases rule.tokens.len() - i,
    {
        assert(own[i as int] == rule.tokens@[i as int]@);
        if text::strings_contain(prompt_tokens, rule.tokens[i].as_str()) {
            return true;
        }
        i += 1;
    }
    false
}

fn first_matching_rule(rules: &Vec<PromptRule>, prompt_tokens: &Vec<String>) -> (r: usize)
    ensures
        r == first_match(rule_models(rules@), text::texts(prompt_tokens@), 0),
        r <= rules.len(),
{
    let ghost models = rule_models(rules@);
    let mut i: usize = 0;
    while i < rules.len()
        invariant
            i <= rules.len(),
            models == rule_models(rules@),
            first_match(models, text::texts(prompt_tokens@), 0) == first_match(
                models,
                text::texts(prompt_tokens@),
                i as int,
            ),
        decreases rules.len() - i,
    {
        assert(models[i as int] == rules@[i as int]@);
        if rule_shares_token(&rules[i], prompt_tokens) {
            return i;
        }
        i += 1;
    }
    i
}

/// The outcome of a choice.
pub open spec fn choice_outcome(
    r: Result<RouterSelection, String>,
) -> Result<SelectionModel, Seq<char>> {
    match r {
        Ok(selection) => Ok(selection@),
        Err(error) => Err(error@),
    }
}

impl CustomModelRouter {
    /// A local router of that name and that routing. `source` is the file that
    /// holds it.
    pub fn new_local(
        name: String,
        routing: CustomModelRouting,
        source: Option<&SourcePath>,
    ) -> (r: Self)
        ensures
            r@ == router_of(name@, normalized_routing(routing@), source_of(source)),
    {
        let ghost given = routing@;
        let routing = normalize_routing(routing);
        let kind = routing_description(&routing);
        let path = match source {
            Some(source) => Some(source.path.as_str()),
            None => None,
        };
        let id = local_id_from_path(path, name.as_str());
        let description = match source {
            Some(source) => text::concat3(kind, " · ", source.shown.as_str()),
            None => kind.to_owned(),
        };
        let source_path = match source {
            Some(source) => Some(source.path.clone()),
            None => None,
        };
        let r = CustomModelRouter {
            info: LLMInfo {
                display_name: name.clone(),
                base_model_name: name,
                id: LLMId(text::joined(LOCAL_CUSTOM_ROUTER_PREFIX, id.as_str())),
                reasoning_level: None,
                usage_metadata: LLMUsageMetadata { request_multiplier: 1 },
                description: Some(description),
                disable_reason: None,
                vision_supported: false,
                provider: LLMProvider::Unknown,
                host_configs: Vec::new(),
                context_window: LLMContextWindow::default(),
                capabilities: None,
            },
            routing,
            source_path,
        };
        assert(r@ =~= router_of(name@, normalized_routing(given), source_of(source)));
        r
    }

    pub fn config_key(&self) -> (r: String)
        ensures
            r@ == self@.info.id,
    {
        self.info.id.as_str().to_owned()
    }

    pub fn llm_id(&self) -> (r: LLMId)
        ensures
            r@ == self@.info.id,
    {
        self.info.id.clone()
    }

    /// A copy of another name. The identifier stays: it comes from the file.
    pub fn with_display_name(&self, display_name: String) -> (r: Self)
        ensures
            r@ == (RouterModel {
                info: llms::InfoModel {
                    display_name: display_name@,
                    base_model_name: display_name@,
                    ..self@.info
                },
                ..self@
            }),
    {
        let mut copy = self.clone();
        copy.info.display_name = display_name.clone();
        copy.info.base_model_name = display_name;
        copy
    }

    /// A copy in another file, with the identifier and the description that
    /// follow from it.
    pub fn with_source_path(&self, source: &SourcePath) -> (r: Self)
        ensures
            r@ == (RouterModel {
                info: llms::InfoModel {
                    id: LOCAL_CUSTOM_ROUTER_PREFIX@ + local_id(
                        Some(source.path@),
                        self@.info.display_name,
                    ),
                    description: Some(routing_text(self@.routing) + " · "@ + source.shown@),
                    ..self@.info
                },
                routing: self@.routing,
                source_path: Some(source.path@),
            }),
    {
        let mut copy = self.clone();
        let id = local_id_from_path(
            Some(source.path.as_str()),
            self.info.display_name.as_str(),
        );
        copy.info.id = LLMId(text::joined(LOCAL_CUSTOM_ROUTER_PREFIX, id.as_str()));
        copy.info.description = Some(
            text::concat3(routing_description(&self.routing), " · ", source.shown.as_str()),
        );
        copy.source_path = Some(source.path.clone());
        copy
    }

    /// The targets, the default first.
    pub fn all_targets(&self) -> (r: Vec<String>)
        ensures
            text::texts(r@) == targets_of(self@.routing),
    {
        let mut out: Vec<String> = Vec::new();
        match &self.routing {
            CustomModelRouting::Complexity(routing) => {
                out.push(routing.default.clone());
                if let Some(target) = &routing.easy {
                    out.push(target.clone());
                }
                if let Some(target) = &routing.medium {
                    out.push(target.clone());
                }
                if let Some(target) = &routing.hard {
                    out.push(target.clone());
                }
                assert(text::texts(out@) =~= targets_of(self@.routing));
            },
            CustomModelRouting::Prompt(routing) => {
                out.push(routing.default_model.clone());
                let mut i: usize = 0;
                while i < routing.rules.len()
                    invariant
                        i <= routing.rules.len(),
                        out.len() == i + 1,
                        out@[0]@ == routing.default_model@,
                        forall|j: int|
                            0 <= j < i ==> (#[trigger] out@[j + 1])@ == routing.rules@[j]@.model,
                    decreases routing.rules.len() - i,
                {
                    out.push(routing.rules[i].model.clone());
                    i += 1;
                }
                proof {
                    let expected = targets_of(self@.routing);
                    assert forall|k: int| 0 <= k < expected.len() implies text::texts(out@)[k]
                        == expected[k] by {
                        if k > 0 {
                            assert(out@[(k - 1) + 1]@ == routing.rules@[k - 1]@.model);
                        }
                    }
                    assert(text::texts(out@) =~= expected);
                }
            },
        }
        out
    }

    /// Checks all that can be checked without the providers.
    pub fn validate(&self) -> (r: Result<(), String>)
        ensures
            match r {
                Ok(_) => router_problem(self@) is None,
                Err(error) => router_problem(self@) == Some(error@),
            },
    {
        let name = text::trim(self.info.display_name.as_str());
        if text::char_count(name.as_str()) > MAX_ROUTER_ID_CHARS {
            return Err("custom model router name exceeds 256 characters".to_owned());
        }
        if name.as_str().is_empty() {
            return Err("custom model router `name` is empty".to_owned());
        }
        let targets = self.all_targets();
        assert(text::texts(targets@).len() == targets.len());
        if targets.len() > MAX_ROUTER_TARGETS {
            return Err("router has more than 132 targets".to_owned());
        }
        match &self.routing {
            CustomModelRouting::Complexity(routing) => match validate_complexity(routing) {
                Some(error) => Err(error),
                None => Ok(()),
            },
            CustomModelRouting::Prompt(routing) => {
                if routing.rules.len() > MAX_ROUTER_RULES {
                    return Err("router has more than 128 prompt rules".to_owned());
                }
                if let Some(error) = validate_target(routing.default_model.as_str()) {
                    return Err(text::joined("`default`: ", error.as_str()));
                }
                match validate_rules(&routing.rules) {
                    Some(error) => Err(error),
                    None => Ok(()),
                }
            },
        }
    }

    /// The choice for a request whose prompt has the given tokens.
    pub fn choose_with_tokens(&self, facts: &RouterRequestFacts, prompt_tokens: &Vec<String>) -> (r:
        Result<RouterSelection, String>)
        ensures
            choice_outcome(r) == (match router_problem(self@) {
                Some(error) => Err::<SelectionModel, Seq<char>>(error),
                None => Ok::<SelectionModel, Seq<char>>(
                    choice_with_tokens(self@, facts@, text::texts(prompt_tokens@)),
                ),
            }),
    {
        match self.validate() {
            Ok(_) => {},
            Err(error) => {
                return Err(error);
            },
        }
        match &self.routing {
            CustomModelRouting::Complexity(routing) => {
                let bucket = complexity_bucket(facts);
                let own = match bucket {
                    ComplexityBucket::Easy => &routing.easy,
                    ComplexityBucket::Medium => &routing.medium,
                    ComplexityBucket::Hard => &routing.hard,
                };
                let model_id = match own {
                    Some(target) => target.clone(),
                    None => routing.default.clone(),
                };
                Ok(
                    RouterSelection {
                        router_id: self.llm_id(),
                        model_id,
                        complexity_bucket: Some(bucket),
                        prompt_rule_index: None,
                    },
                )
            },
            CustomModelRouting::Prompt(routing) => {
                let i: usize = first_matching_rule(&routing.rules, prompt_tokens);
                if i < routing.rules.len() {
                    assert(rule_models(routing.rules@)[i as int] == routing.rules@[i as int]@);
                    Ok(
                        RouterSelection {
                            router_id: self.llm_id(),
                            model_id: routing.rules[i].model.clone(),
                            complexity_bucket: None,
                            prompt_rule_index: Some(i),
                        },
                    )
                } else {
                    Ok(
                        RouterSelection {
                            router_id: self.llm_id(),
                            model_id: routing.default_model.clone(),
                            complexity_bucket: None,
                            prompt_rule_index: None,
                        },
                    )
                }
            },
        }
    }

    /// The choice for a request. Whether the chosen model is configured is
    /// checked by [`resolve_router`].
    pub fn resolve(&self, facts: &RouterRequestFacts) -> (r: Result<RouterSelection, String>)
        ensures
            choice_outcome(r) == (match router_problem(self@) {
                Some(error) => Err::<SelectionModel, Seq<char>>(error),
                None => Ok::<SelectionModel, Seq<char>>(choice_of(self@, facts@)),
            }),
    {
        let tokens = meaningful_tokens(facts.prompt.as_str());
        self.choose_with_tokens(facts, &tokens)
    }
}

// ---------------------------------------------------------------------------
// Resolution.

/// A configured model that serves a request.
#[derive(Clone, Debug, PartialEq, Eq)]
pub struct ResolvedCustomTarget<S = String> {
    pub provider_name: S,
    pub model_id: S,
    pub base_url: S,
    pub capabilities: LLMCapabilities,
    pub context_window_tokens: Option<u32>,
}

pub type TargetModel = ResolvedCustomTarget<Seq<char>>;

impl View for ResolvedCustomTarget<String> {
    type V = TargetModel;

    open spec fn view(&self) -> TargetModel {
        ResolvedCustomTarget {
            provider_name: self.provider_name@,
            model_id: self.model_id@,
            base_url: self.base_url@,
            capabilities: self.capabilities,
            context_window_tokens: self.context_window_tokens,
        }
    }
}

/// Why a router cannot serve a request.
#[derive(Clone, Debug, PartialEq, Eq)]
pub enum RouterResolutionError<S = String, C = &'static str> {
    InvalidRouter(S),
    InvalidTarget(S),
    AmbiguousProvider(S),
    MissingProvider(S),
    MissingModel(S),
    InvalidProvider { provider: S, reason: S },
    CapabilityMismatch { target: S, capability: C },
    ContextWindowTooSmall { target: S, required_chars: usize, limit_tokens: u32 },
}

pub type ErrorModel = RouterResolutionError<Seq<char>, Seq<char>>;

impl View for RouterResolutionError<String, &'static str> {
    type V = ErrorModel;

    open spec fn view(&self) -> ErrorModel {
        match self {
            RouterResolutionError::InvalidRouter(error) => RouterResolutionError::InvalidRouter(
                error@,
            ),
            RouterResolutionError::InvalidTarget(target) => RouterResolutionError::InvalidTarget(
                target@,
            ),
            RouterResolutionError::AmbiguousProvider(name) =>
                RouterResolutionError::AmbiguousProvider(name@),
            RouterResolutionError::MissingProvider(name) => RouterResolutionError::MissingProvider(
                name@,
            ),
            RouterResolutionError::MissingModel(target) => RouterResolutionError::MissingModel(
                target@,
            ),
            RouterResolutionError::InvalidProvider { provider, reason } =>
                RouterResolutionError::InvalidProvider { provider: provider@, reason: reason@ },
            RouterResolutionError::CapabilityMismatch { target, capability } =>
                RouterResolutionError::CapabilityMismatch {
                target: target@,
                capability: capability@,
            },
            RouterResolutionError::ContextWindowTooSmall {
                target,
                required_chars,
                limit_tokens,
            } => RouterResolutionError::ContextWindowTooSmall {
                target: target@,
                required_chars: *required_chars,
                limit_tokens: *limit_tokens,
            },
        }
    }
}

/// The text of an error.
pub open spec fn error_text(error: ErrorModel) -> Seq<char> {
    match error {
        RouterResolutionError::InvalidRouter(error) => "invalid custom model router: "@ + error,
        RouterResolutionError::InvalidTarget(target) => "router target `"@ + target
            + "` is not a concrete custom model"@,
        RouterResolutionError::AmbiguousProvider(name) => "custom provider name `"@ + name
            + "` is ambiguous"@,
        RouterResolutionError::MissingProvider(name) => "custom provider `"@ + name
            + "` is not configured"@,
        RouterResolutionError::MissingModel(target) => "custom model `"@ + target
            + "` is not configured"@,
        RouterResolutionError::InvalidProvider { provider, reason } => "custom provider `"@
            + provider + "` is invalid: "@ + reason,
        RouterResolutionError::CapabilityMismatch { target, capability } => "custom model `"@
            + target + "` does not provide `"@ + capability + "`"@,
        RouterResolutionError::ContextWindowTooSmall { target, required_chars, limit_tokens } =>
            "custom model `"@ + target + "` has too little context for "@ + text::decimal(
            required_chars as nat,
        ) + " local characters ("@ + text::decimal(limit_tokens as nat) + " tokens)"@,
    }
}

impl RouterResolutionError {
    /// The text of the error.
    pub fn message(&self) -> (r: String)
        ensures
            r@ == error_text(self@),
    {
        match self {
            RouterResolutionError::InvalidRouter(error) => text::joined(
                "invalid custom model router: ",
                error.as_str(),
            ),
            RouterResolutionError::InvalidTarget(target) => text::concat3(
                "router target `",
                target.as_str(),
                "` is not a concrete custom model",
            ),
            RouterResolutionError::AmbiguousProvider(name) => text::concat3(
                "custom provider name `",
                name.as_str(),
                "` is ambiguous",
            ),
            RouterResolutionError::MissingProvider(name) => text::concat3(
                "custom provider `",
                name.as_str(),
                "` is not configured",
            ),
            RouterResolutionError::MissingModel(target) => text::concat3(
                "custom model `",
                target.as_str(),
                "` is not configured",
            ),
            RouterResolutionError::InvalidProvider { provider, reason } => text::concat4(
                "custom provider `",
                provider.as_str(),
                "` is invalid: ",
                reason.as_str(),
            ),
            RouterResolutionError::CapabilityMismatch { target, capability } => text::concat5(
                "custom model `",
                target.as_str(),
                "` does not provide `",
                capability,
                "`",
            ),
            RouterResolutionError::ContextWindowTooSmall {
                target,
                required_chars,
                limit_tokens,
            } => {
                let start = text::concat4(
                    "custom model `",
                    target.as_str(),
                    "` has too little context for ",
                    text::decimal_usize(*required_chars).as_str(),
                );
                text::concat4(
                    start.as_str(),
                    " local characters (",
                    text::decimal_text(*limit_tokens as u64).as_str(),
                    " tokens)",
                )
            },
        }
    }
}

/// The smaller of a request's context and the largest that counts.
pub open spec fn counted_context(facts: FactsModel) -> nat {
    if facts.context_chars < MAX_COMPLEXITY_CONTEXT_CHARS {
        facts.context_chars
    } else {
        MAX_COMPLEXITY_CONTEXT_CHARS as nat
    }
}

/// Why a configured provider cannot serve a request with its model, if it
/// cannot.
pub open spec fn service_problem(
    target: Seq<char>,
    model: Seq<char>,
    facts: FactsModel,
    provider: CustomProviderConfig,
) -> Option<ErrorModel> {
    let able = provider.effective();
    if providers::provider_error(provider) is Some {
        Some(
            RouterResolutionError::InvalidProvider {
                provider: provider.name@,
                reason: providers::provider_error(provider)->0,
            },
        )
    } else if !text::texts(provider.models@).contains(model) {
        Some(RouterResolutionError::MissingModel(target))
    } else if !able.chat {
        Some(RouterResolutionError::CapabilityMismatch { target, capability: "chat"@ })
    } else if (facts.requires_tools || facts.requires_code_review || facts.requires_edit)
        && !able.tools {
        Some(RouterResolutionError::CapabilityMismatch { target, capability: "tools"@ })
    } else if facts.requires_vision && !able.vision {
        Some(RouterResolutionError::CapabilityMismatch { target, capability: "vision"@ })
    } else {
        match provider.capabilities.context_window_tokens {
            Some(limit_tokens) => if counted_context(facts) > 3 * limit_tokens {
                Some(
                    RouterResolutionError::ContextWindowTooSmall {
                        target,
                        required_chars: facts.context_chars as usize,
                        limit_tokens,
                    },
                )
            } else {
                None
            },
            None => None,
        }
    }
}

/// The configured model that a target names, or why it cannot serve the
/// request.
pub open spec fn target_outcome(
    target: Seq<char>,
    facts: FactsModel,
    providers: Seq<CustomProviderConfig>,
) -> Result<TargetModel, ErrorModel> {
    match concrete_parts(target) {
        None => Err(RouterResolutionError::InvalidTarget(target)),
        Some(parts) => if !providers::name_is_known(parts.0, providers) {
            Err(RouterResolutionError::MissingProvider(parts.0))
        } else if !providers::name_is_unique(parts.0, providers) {
            Err(RouterResolutionError::AmbiguousProvider(parts.0))
        } else {
            let provider = providers::provider_of(parts.0, providers);
            match service_problem(target, parts.1, facts, provider) {
                Some(error) => Err(error),
                None => Ok(
                    ResolvedCustomTarget {
                        provider_name: parts.0,
                        model_id: parts.1,
                        base_url: provider.base_url@,
                        capabilities: provider.effective(),
                        context_window_tokens: provider.capabilities.context_window_tokens,
                    },
                ),
            }
        },
    }
}

/// The outcome of a resolution, over character sequences.
pub open spec fn resolution(r: Result<ResolvedCustomTarget, RouterResolutionError>) -> Result<
    TargetModel,
    ErrorModel,
> {
    match r {
        Ok(target) => Ok(target@),
        Err(error) => Err(error@),
    }
}

fn check_service(
    target: &str,
    model: &str,
    facts: &RouterRequestFacts,
    provider: &CustomProviderConfig,
) -> (r: Option<RouterResolutionError>)
    ensures
        match r {
            Some(error) => service_problem(target@, model@, facts@, *provider) == Some(error@),
            None => service_problem(target@, model@, facts@, *provider) is None,
        },
{
    if let Some(reason) = provider.problem() {
        return Some(
            RouterResolutionError::InvalidProvider { provider: provider.name.clone(), reason },
        );
    }
    if !text::strings_contain(&provider.models, model) {
        return Some(RouterResolutionError::MissingModel(target.to_owned()));
    }
    let able = provider.effective_capabilities();
    if !able.chat {
        return Some(
            RouterResolutionError::CapabilityMismatch {
                target: target.to_owned(),
                capability: "chat",
            },
        );
    }
    if (facts.requires_tools || facts.requires_code_review || facts.requires_edit) && !able.tools {
        return Some(
            RouterResolutionError::CapabilityMismatch {
                target: target.to_owned(),
                capability: "tools",
            },
        );
    }
    if facts.requires_vision && !able.vision {
        return Some(
            RouterResolutionError::CapabilityMismatch {
                target: target.to_owned(),
                capability: "vision",
            },
        );
    }
    if let Some(limit_tokens) = provider.capabilities.context_window_tokens {
        let limit_chars: u64 = 3 * (limit_tokens as u64);
        let counted: usize = if facts.context_chars < MAX_COMPLEXITY_CONTEXT_CHARS {
            facts.context_chars
        } else {
            MAX_COMPLEXITY_CONTEXT_CHARS
        };
        if counted as u64 > limit_chars {
            return Some(
                RouterResolutionError::ContextWindowTooSmall {
                    target: target.to_owned(),
                    required_chars: facts.context_chars,
                    limit_tokens,
                },
            );
        }
    }
    None
}

fn resolve_target(target: &str, facts: &RouterRequestFacts, providers: &[CustomProviderConfig]) -> (r:
    Result<ResolvedCustomTarget, RouterResolutionError>)
    ensures
        resolution(r) == target_outcome(target@, facts@, providers@),
{
    let parts = match parse_concrete_custom_model_id(target) {
        Some(parts) => parts,
        None => {
            return Err(RouterResolutionError::InvalidTarget(target.to_owned()));
        },
    };
    match providers::find_provider(parts.0.as_str(), providers) {
        NameUse::Missing => Err(RouterResolutionError::MissingProvider(parts.0)),
        NameUse::Ambiguous => Err(RouterResolutionError::AmbiguousProvider(parts.0)),
        NameUse::Only(i) => {
            let provider = &providers[i];
            proof {
                assert(providers::name_is_known(parts.0@, providers@)) by {
                    assert(providers@[i as int].name@ == parts.0@);
                }
            }
            match check_service(target, parts.1.as_str(), facts, provider) {
                Some(error) => Err(error),
                None => Ok(
                    ResolvedCustomTarget {
                        provider_name: provider.name.clone(),
                        model_id: parts.1,
                        base_url: provider.base_url.clone(),
                        capabilities: provider.effective_capabilities(),
                        context_window_tokens: provider.capabilities.context_window_tokens,
                    },
                ),
            }
        },
    }
}

/// The configured model that a router chooses for a request, or why there is
/// none.
pub open spec fn router_outcome(
    m: RouterModel,
    facts: FactsModel,
    providers: Seq<CustomProviderConfig>,
) -> Result<TargetModel, ErrorModel> {
    match router_problem(m) {
        Some(error) => Err(RouterResolutionError::InvalidRouter(error)),
        None => target_outcome(choice_of(m, facts).model_id, facts, providers),
    }
}

pub fn resolve_router(
    router: &CustomModelRouter,
    facts: &RouterRequestFacts,
    providers: &[CustomProviderConfig],
) -> (r: Result<ResolvedCustomTarget, RouterResolutionError>)
    ensures
        resolution(r) == router_outcome(router@, facts@, providers@),
{
    match router.resolve(facts) {
        Ok(selection) => resolve_target(selection.model_id.as_str(), facts, providers),
        Err(error) => Err(RouterResolutionError::InvalidRouter(error)),
    }
}

/// The same together with the choice itself.
pub fn resolve_router_selection(
    router: &CustomModelRouter,
    facts: &RouterRequestFacts,
    providers: &[CustomProviderConfig],
) -> (r: Result<(RouterSelection, ResolvedCustomTarget), RouterResolutionError>)
    ensures
        match r {
            Ok(pair) => router_problem(router@) is None && pair.0@ == choice_of(router@, facts@)
                && router_outcome(router@, facts@, providers@) == Ok::<TargetModel, ErrorModel>(
                pair.1@,
            ),
            Err(error) => router_outcome(router@, facts@, providers@) == Err::<
                TargetModel,
                ErrorModel,
            >(error@),
        },
{
    match router.resolve(facts) {
        Ok(selection) => {
            match resolve_target(selection.model_id.as_str(), facts, providers) {
                Ok(target) => Ok((selection, target)),
                Err(error) => Err(error),
            }
        },
        Err(error) => Err(RouterResolutionError::InvalidRouter(error)),
    }
}

// ---------------------------------------------------------------------------
// The catalogue of routers.

/// What every target of a router can do.
#[derive(Clone, Copy, Debug, PartialEq, Eq, Structural)]
pub struct RouterCatalogCapabilities {
    pub chat: bool,
    pub tools: bool,
    pub vision: bool,
    pub embeddings: bool,
    pub transcription: bool,
}

/// A router in the catalogue.
#[derive(Clone, Debug, PartialEq)]
pub struct RouterCatalogEntry {
    pub router: CustomModelRouter,
    pub info: LLMInfo,
    pub capabilities: RouterCatalogCapabilities,
    pub context_window_tokens: Option<u32>,
    pub disable_reason: Option<String>,
}

/// What an entry says.
#[verifier::ext_equal]
pub struct EntryModel {
    pub router: RouterModel,
    pub info: llms::InfoModel,
    pub capabilities: RouterCatalogCapabilities,
    pub context_window_tokens: Option<u32>,
    pub disable_reason: Option<Seq<char>>,
}

impl View for RouterCatalogEntry {
    type V = EntryModel;

    open spec fn view(&self) -> EntryModel {
        EntryModel {
            router: self.router@,
            info: self.info@,
            capabilities: self.capabilities,
            context_window_tokens: self.context_window_tokens,
            disable_reason: text::text_opt(self.disable_reason),
        }
    }
}

impl RouterCatalogEntry {
    pub fn is_available(&self) -> (r: bool)
        ensures
            r == (self@.disable_reason is None),
    {
        self.disable_reason.is_none()
    }
}

/// The configured models of the targets from a position on, or why one of them
/// cannot serve an ordinary request.
pub open spec fn targets_outcome(
    targets: Seq<Seq<char>>,
    providers: Seq<CustomProviderConfig>,
    n: int,
) -> Result<Seq<TargetModel>, ErrorModel>
    decreases n,
{
    if n <= 0 {
        Ok(Seq::empty())
    } else {
        match targets_outcome(targets, providers, n - 1) {
            Err(error) => Err(error),
            Ok(init) => match target_outcome(targets[n - 1], ordinary_request(), providers) {
                Err(error) => Err(error),
                Ok(target) => Ok(init.push(target)),
            },
        }
    }
}

/// What all the targets can do.
pub open spec fn shared_capabilities(targets: Seq<TargetModel>) -> RouterCatalogCapabilities {
    RouterCatalogCapabilities {
        chat: forall|i: int| 0 <= i < targets.len() ==> (#[trigger] targets[i]).capabilities.chat,
        tools: forall|i: int|
            0 <= i < targets.len() ==> (#[trigger] targets[i]).capabilities.tools,
        vision: forall|i: int|
            0 <= i < targets.len() ==> (#[trigger] targets[i]).capabilities.vision,
        embeddings: forall|i: int|
            0 <= i < targets.len() ==> (#[trigger] targets[i]).capabilities.embeddings,
        transcription: forall|i: int|
            0 <= i < targets.len() ==> (#[trigger] targets[i]).capabilities.transcription,
    }
}

/// The smallest known context window.
pub open spec fn smallest_window(targets: Seq<TargetModel>) -> Option<u32>
    decreases targets.len(),
{
    if targets.len() == 0 {
        None
    } else {
        match (smallest_window(targets.drop_last()), targets.last().context_window_tokens) {
            (Some(a), Some(b)) => Some(
                if b < a {
                    b
                } else {
                    a
                },
            ),
            (Some(a), None) => Some(a),
            (None, b) => b,
        }
    }
}

/// The entry of a router with those targets. `min_context_tokens` is the least
/// context window that a provider may have.
pub open spec fn entry_of(
    m: RouterModel,
    targets: Seq<TargetModel>,
    min_context_tokens: u32,
) -> EntryModel {
    let shared = shared_capabilities(targets);
    let window = smallest_window(targets);
    EntryModel {
        router: m,
        info: llms::InfoModel {
            vision_supported: shared.vision,
            capabilities: Some(
                LLMCapabilities {
                    chat: shared.chat,
                    tools: shared.tools,
                    vision: shared.vision,
                    embeddings: shared.embeddings,
                    transcription: shared.transcription,
                },
            ),
            context_window: match window {
                Some(_) => llms::fixed_window(min_context_tokens, window),
                None => m.info.context_window,
            },
            ..m.info
        },
        capabilities: shared,
        context_window_tokens: window,
        disable_reason: None,
    }
}

/// The entry of a router, or why it has none.
pub open spec fn entry_outcome(
    m: RouterModel,
    providers: Seq<CustomProviderConfig>,
    min_context_tokens: u32,
) -> Result<EntryModel, ErrorModel> {
    match router_problem(m) {
        Some(error) => Err(RouterResolutionError::InvalidRouter(error)),
        None => {
            let targets = targets_of(m.routing);
            match targets_outcome(targets, providers, targets.len() as int) {
                Err(error) => Err(error),
                Ok(found) => Ok(entry_of(m, found, min_context_tokens)),
            }
        },
    }
}

pub open spec fn target_models(v: Seq<ResolvedCustomTarget>) -> Seq<TargetModel> {
    Seq::new(v.len(), |i: int| v[i]@)
}

proof fn lemma_targets_error(
    targets: Seq<Seq<char>>,
    providers: Seq<CustomProviderConfig>,
    n: int,
    m: int,
)
    requires
        0 <= n <= m,
        targets_outcome(targets, providers, n) is Err,
    ensures
        targets_outcome(targets, providers, m) == targets_outcome(targets, providers, n),
    decreases m - n,
{
    if n < m {
        lemma_targets_error(targets, providers, n, m - 1);
    }
}

fn resolve_targets(targets: &Vec<String>, providers: &[CustomProviderConfig]) -> (r: Result<
    Vec<ResolvedCustomTarget>,
    RouterResolutionError,
>)
    ensures
        match r {
            Ok(found) => targets_outcome(
                text::texts(targets@),
                providers@,
                targets.len() as int,
            ) == Ok::<Seq<TargetModel>, ErrorModel>(target_models(found@)),
            Err(error) => targets_outcome(
                text::texts(targets@),
                providers@,
                targets.len() as int,
            ) == Err::<Seq<TargetModel>, ErrorModel>(error@),
        },
{
    let ghost all = text::texts(targets@);
    let facts = RouterRequestFacts::baseline();
    let mut out: Vec<ResolvedCustomTarget> = Vec::new();
    let mut i: usize = 0;
    assert(target_models(out@) =~= Seq::<TargetModel>::empty());
    while i < targets.len()
        invariant
            i <= targets.len(),
            all == text::texts(targets@),
            facts@ == ordinary_request(),
            targets_outcome(all, providers@, i as int) == Ok::<Seq<TargetModel>, ErrorModel>(
                target_models(out@),
            ),
        decreases targets.len() - i,
    {
        assert(all[i as int] == targets@[i as int]@);
        match resolve_target(targets[i].as_str(), &facts, providers) {
            Ok(target) => {
                let ghost before = target_models(out@);
                let ghost found = target@;
                out.push(target);
                assert(target_models(out@) =~= before.push(found));
            },
            Err(error) => {
                proof {
                    lemma_targets_error(all, providers@, i + 1, targets.len() as int);
                }
                return Err(error);
            },
        }
        i += 1;
    }
    Ok(out)
}

fn intersect_capabilities(targets: &Vec<ResolvedCustomTarget>) -> (r: RouterCatalogCapabilities)
    ensures
        r == shared_capabilities(target_models(targets@)),
{
    let ghost models = target_models(targets@);
    let mut r = RouterCatalogCapabilities {
        chat: true,
        tools: true,
        vision: true,
        embeddings: true,
        transcription: true,
    };
    let mut i: usize = 0;
    assert(r == shared_capabilities(models.subrange(0, 0)));
    while i < targets.len()
        invariant
            i <= targets.len(),
            models == target_models(targets@),
            r == shared_capabilities(models.subrange(0, i as int)),
        decreases targets.len() - i,
    {
        let able = targets[i].capabilities;
        let ghost before = models.subrange(0, i as int);
        let ghost after = models.subrange(0, i + 1);
        let ghost old_r = r;
        r = RouterCatalogCapabilities {
            chat: r.chat && able.chat,
            tools: r.tools && able.tools,
            vision: r.vision && able.vision,
            embeddings: r.embeddings && able.embeddings,
            transcription: r.transcription && able.transcription,
        };
        proof {
            assert(after[i as int].capabilities == able);
            assert forall|k: int| 0 <= k < i implies #[trigger] before[k] == after[k] by {}
            assert forall|k: int| 0 <= k < i implies #[trigger] after[k] == before[k] by {}
            let s = shared_capabilities(after);
            assert(s.chat == r.chat);
            assert(s.tools == r.tools);
            assert(s.vision == r.vision);
            assert(s.embeddings == r.embeddings);
            assert(s.transcription == r.transcription);
        }
        i += 1;
    }
    assert(models.subrange(0, models.len() as int) =~= models);
    r
}

fn least_window(targets: &Vec<ResolvedCustomTarget>) -> (r: Option<u32>)
    ensures
        r == smallest_window(target_models(targets@)),
{
    let ghost models = target_models(targets@);
    let mut r: Option<u32> = None;
    let mut i: usize = 0;
    while i < targets.len()
        invariant
            i <= targets.len(),
            models == target_models(targets@),
            r == smallest_window(models.subrange(0, i as int)),
        decreases targets.len() - i,
    {
        let ghost after = models.subrange(0, i + 1);
        assert(after.drop_last() =~= models.subrange(0, i as int));
        assert(after.last() == targets@[i as int]@);
        r = match (r, targets[i].context_window_tokens) {
            (Some(a), Some(b)) => if b < a {
                Some(b)
            } else {
                Some(a)
            },
            (Some(a), None) => Some(a),
            (None, b) => b,
        };
        i += 1;
    }
    assert(models.subrange(0, models.len() as int) =~= models);
    r
}

/// The entry of a router: what an ordinary request can rely on, whichever of
/// its targets is chosen.
pub fn router_catalog_entry(
    router: &CustomModelRouter,
    providers: &[CustomProviderConfig],
    min_context_tokens: u32,
) -> (r: Result<RouterCatalogEntry, RouterResolutionError>)
    ensures
        match r {
            Ok(entry) => entry_outcome(router@, providers@, min_context_tokens) == Ok::<
                EntryModel,
                ErrorModel,
            >(entry@),
            Err(error) => entry_outcome(router@, providers@, min_context_tokens) == Err::<
                EntryModel,
                ErrorModel,
            >(error@),
        },
{
    match router.validate() {
        Ok(_) => {},
        Err(error) => {
            return Err(RouterResolutionError::InvalidRouter(error));
        },
    }
    let names = router.all_targets();
    assert(text::texts(names@).len() == names.len());
    let targets = match resolve_targets(&names, providers) {
        Ok(targets) => targets,
        Err(error) => {
            return Err(error);
        },
    };
    let capabilities = intersect_capabilities(&targets);
    let context_window_tokens = least_window(&targets);
    let mut info = router.info.clone();
    info.vision_supported = capabilities.vision;
    info.capabilities = Some(
        LLMCapabilities {
            chat: capabilities.chat,
            tools: capabilities.tools,
            vision: capabilities.vision,
            embeddings: capabilities.embeddings,
            transcription: capabilities.transcription,
        },
    );
    if let Some(tokens) = context_window_tokens {
        info.context_window = LLMContextWindow {
            is_configurable: false,
            min: min_context_tokens,
            max: tokens,
            default_max: tokens,
        };
    }
    Ok(
        RouterCatalogEntry {
            router: router.clone(),
            info,
            capabilities,
            context_window_tokens,
            disable_reason: None,
        },
    )
}

/// The entry of a router, also of one that cannot be used: that one can do
/// nothing and says why.
pub open spec fn catalog_entry(
    m: RouterModel,
    providers: Seq<CustomProviderConfig>,
    min_context_tokens: u32,
) -> EntryModel {
    match entry_outcome(m, providers, min_context_tokens) {
        Ok(entry) => entry,
        Err(error) => EntryModel {
            router: m,
            info: llms::InfoModel { disable_reason: Some(DisableReason::Unavailable), ..m.info },
            capabilities: RouterCatalogCapabilities {
                chat: false,
                tools: false,
                vision: false,
                embeddings: false,
                transcription: false,
            },
            context_window_tokens: None,
            disable_reason: Some(error_text(error)),
        },
    }
}

pub fn build_router_catalog(
    routers: &[CustomModelRouter],
    providers: &[CustomProviderConfig],
    min_context_tokens: u32,
) -> (r: Vec<RouterCatalogEntry>)
    ensures
        r.len() == routers.len(),
        forall|i: int|
            0 <= i < r.len() ==> (#[trigger] r@[i])@ == catalog_entry(
                routers@[i]@,
                providers@,
                min_context_tokens,
            ),
{
    let mut out: Vec<RouterCatalogEntry> = Vec::new();
    let mut i: usize = 0;
    while i < routers.len()
        invariant
            i <= routers.len(),
            out.len() == i,
            forall|j: int|
                0 <= j < i ==> (#[trigger] out@[j])@ == catalog_entry(
                    routers@[j]@,
                    providers@,
                    min_context_tokens,
                ),
        decreases routers.len() - i,
    {
        let router = &routers[i];
        match router_catalog_entry(router, providers, min_context_tokens) {
            Ok(entry) => {
                out.push(entry);
            },
            Err(error) => {
                let mut info = router.info.clone();
                info.disable_reason = Some(DisableReason::Unavailable);
                out.push(
                    RouterCatalogEntry {
                        router: router.clone(),
                        info,
                        capabilities: RouterCatalogCapabilities {
                            chat: false,
                            tools: false,
                            vision: false,
                            embeddings: false,
                            transcription: false,
                        },
                        context_window_tokens: None,
                        disable_reason: Some(error.message()),
                    },
                );
            },
        }
        i += 1;
    }
    out
}

/// Whether a router serves every ordinary request.
pub open spec fn is_servable(m: RouterModel, providers: Seq<CustomProviderConfig>) -> bool {
    router_problem(m) is None && targets_outcome(
        targets_of(m.routing),
        providers,
        targets_of(m.routing).len() as int,
    ) is Ok
}

/// The identifier of a provider's model.
pub open spec fn model_id_of(provider: Seq<char>, model: Seq<char>) -> Seq<char> {
    "custom/"@ + provider + "/"@ + model
}

/// Whether a provider's models may be offered at all.
pub open spec fn provider_offered(
    provider: CustomProviderConfig,
    providers: Seq<CustomProviderConfig>,
) -> bool {
    providers::name_is_unique(provider.name@, providers) && providers::provider_error(provider)
        is None
}

/// The first concrete model of a provider from a position on.
pub open spec fn first_model(name: Seq<char>, models: Seq<Seq<char>>, from: int) -> Option<
    Seq<char>,
>
    decreases models.len() - from,
{
    if from >= models.len() {
        None
    } else if concrete_parts(model_id_of(name, models[from])) is Some {
        Some(model_id_of(name, models[from]))
    } else {
        first_model(name, models, from + 1)
    }
}

/// The first concrete model of the providers from a position on.
pub open spec fn first_concrete(providers: Seq<CustomProviderConfig>, from: int) -> Option<Seq<char>>
    decreases providers.len() - from,
{
    if from >= providers.len() {
        None
    } else {
        let p = providers[from];
        let own = first_model(p.name@, text::texts(p.models@), 0);
        if provider_offered(p, providers) && own is Some {
            own
        } else {
            first_concrete(providers, from + 1)
        }
    }
}

fn provider_is_offered(provider: &CustomProviderConfig, providers: &[CustomProviderConfig]) -> (r:
    bool)
    ensures
        r == provider_offered(*provider, providers@),
{
    providers::custom_provider_name_is_unique(provider.name.as_str(), providers)
        && provider.problem().is_none()
}

fn first_model_of(provider: &CustomProviderConfig) -> (r: Option<String>)
    ensures
        text::text_opt(r) == first_model(provider.name@, text::texts(provider.models@), 0),
{
    let ghost models = text::texts(provider.models@);
    let mut i: usize = 0;
    while i < provider.models.len()
        invariant
            i <= provider.models.len(),
            models == text::texts(provider.models@),
            first_model(provider.name@, models, 0) == first_model(
                provider.name@,
                models,
                i as int,
            ),
        decreases provider.models.len() - i,
    {
        assert(models[i as int] == provider.models@[i as int]@);
        let id = text::concat4(
            "custom/",
            provider.name.as_str(),
            "/",
            provider.models[i].as_str(),
        );
        if parse_concrete_custom_model_id(id.as_str()).is_some() {
            return Some(id);
        }
        i += 1;
    }
    None
}

/// The first concrete model that is configured.
pub fn first_concrete_custom_model(providers: &[CustomProviderConfig]) -> (r: Option<String>)
    ensures
        text::text_opt(r) == first_concrete(providers@, 0),
{
    let mut i: usize = 0;
    while i < providers.len()
        invariant
            i <= providers.len(),
            first_concrete(providers@, 0) == first_concrete(providers@, i as int),
        decreases providers.len() - i,
    {
        if provider_is_offered(&providers[i], providers) {
            if let Some(id) = first_model_of(&providers[i]) {
                return Some(id);
            }
        }
        i += 1;
    }
    None
}

/// Whether an identifier is that of a concrete model of a provider that may be
/// offered.
pub open spec fn is_concrete_offer(id: Seq<char>, providers: Seq<CustomProviderConfig>) -> bool {
    exists|i: int, j: int| #[trigger] offered_at(id, providers, i, j)
}

/// Whether an identifier is that of the `j`-th model of the `i`-th provider
/// and may be offered.
pub open spec fn offered_at(
    id: Seq<char>,
    providers: Seq<CustomProviderConfig>,
    i: int,
    j: int,
) -> bool {
    &&& 0 <= i < providers.len()
    &&& 0 <= j < providers[i].models@.len()
    &&& provider_offered(providers[i], providers)
    &&& id == model_id_of(providers[i].name@, providers[i].models@[j]@)
    &&& concrete_parts(id) is Some
}

/// The concrete models that are configured, in order and each once.
pub fn concrete_custom_model_ids(providers: &[CustomProviderConfig]) -> (r: Vec<String>)
    ensures
        text::ascending(text::texts(r@)),
        forall|id: Seq<char>| #[trigger]
            text::texts(r@).contains(id) <==> is_concrete_offer(id, providers@),
{
    let mut out: Vec<String> = Vec::new();
    let mut i: usize = 0;
    while i < providers.len()
        invariant
            i <= providers.len(),
            text::ascending(text::texts(out@)),
            forall|id: Seq<char>| #[trigger]
                text::texts(out@).contains(id) <==> exists|a: int, b: int|
                    a < i && #[trigger] offered_at(id, providers@, a, b),
        decreases providers.len() - i,
    {
        let provider = &providers[i];
        if provider_is_offered(provider, providers) {
            let mut j: usize = 0;
            while j < provider.models.len()
                invariant
                    i < providers.len(),
                    *provider == providers@[i as int],
                    provider_offered(*provider, providers@),
                    j <= provider.models.len(),
                    text::ascending(text::texts(out@)),
                    forall|id: Seq<char>| #[trigger]
                        text::texts(out@).contains(id) <==> exists|a: int, b: int|
                            (a < i || a == i && b < j) && #[trigger] offered_at(
                                id,
                                providers@,
                                a,
                                b,
                            ),
                decreases provider.models.len() - j,
            {
                let id = text::concat4(
                    "custom/",
                    provider.name.as_str(),
                    "/",
                    provider.models[j].as_str(),
                );
                let ghost before = text::texts(out@);
                let ghost id_text = id@;
                let concrete = parse_concrete_custom_model_id(id.as_str()).is_some();
                if concrete {
                    text::insert_ascending(&mut out, id);
                }
                proof {
                    let after = text::texts(out@);
                    assert(concrete ==> offered_at(id_text, providers@, i as int, j as int));
                    assert forall|t: Seq<char>| #[trigger] after.contains(t) <==> exists|
                        a: int,
                        b: int,
                    |
                        (a < i || a == i && b < j + 1) && #[trigger] offered_at(
                            t,
                            providers@,
                            a,
                            b,
                        ) by {
                        if after.contains(t) {
                            if before.contains(t) {
                                let (a, b) = choose|a: int, b: int|
                                    (a < i || a == i && b < j) && #[trigger] offered_at(
                                        t,
                                        providers@,
                                        a,
                                        b,
                                    );
                                assert(offered_at(t, providers@, a, b));
                            } else {
                                assert(offered_at(t, providers@, i as int, j as int));
                            }
                        }
                        if exists|a: int, b: int|
                            (a < i || a == i && b < j + 1) && #[trigger] offered_at(
                                t,
                                providers@,
                                a,
                                b,
                            ) {
                            let (a, b) = choose|a: int, b: int|
                                (a < i || a == i && b < j + 1) && #[trigger] offered_at(
                                    t,
                                    providers@,
                                    a,
                                    b,
                                );
                            if a == i && b == j {
                                assert(t == id_text);
                            } else {
                                assert(before.contains(t));
                            }
                        }
                    }
                }
                j += 1;
            }
        }
        i += 1;
    }
    out
}

/// What a stored selection becomes when routers or providers have changed: a
/// router that can no longer be used gives way to a concrete configured model,
/// never to a hosted one.
pub open spec fn reconciled(
    current: Seq<char>,
    routers: Seq<RouterModel>,
    providers: Seq<CustomProviderConfig>,
) -> Option<Seq<char>> {
    if !is_local_router_id(current) {
        Some(current)
    } else if exists|i: int|
        0 <= i < routers.len() && (#[trigger] routers[i]).info.id == current && is_servable(
            routers[i],
            providers,
        ) {
        Some(current)
    } else {
        first_concrete(providers, 0)
    }
}

pub fn reconcile_active_selection(
    current: &LLMId,
    routers: &[CustomModelRouter],
    providers: &[CustomProviderConfig],
) -> (r: Option<LLMId>)
    ensures
        llms::id_opt(r) == reconciled(current@, router_models(routers@), providers@),
{
    if !is_local_custom_router_id(current.as_str()) {
        return Some(current.clone());
    }
    let ghost models = router_models(routers@);
    let mut i: usize = 0;
    while i < routers.len()
        invariant
            i <= routers.len(),
            models == router_models(routers@),
            is_local_router_id(current@),
            forall|j: int|
                0 <= j < i ==> !((#[trigger] models[j]).info.id == current@ && is_servable(
                    models[j],
                    providers@,
                )),
        decreases routers.len() - i,
    {
        assert(models[i as int] == routers@[i as int]@);
        if routers[i].info.id.same(current) {
            match router_catalog_entry(&routers[i], providers, 0) {
                Ok(_) => {
                    return Some(current.clone());
                },
                Err(_) => {},
            }
        }
        i += 1;
    }
    match first_concrete_custom_model(providers) {
        Some(id) => Some(LLMId(id)),
        None => None,
    }
}

// ---------------------------------------------------------------------------
// Documents.

/// The optional targets of a complexity router in a document.
pub struct BucketSection {
    pub easy: Option<String>,
    pub medium: Option<String>,
    pub hard: Option<String>,
}

/// A rule of a prompt router in a document.
pub struct RuleSection {
    pub description: String,
    pub model: String,
}

/// The routing section of a document: read as the buckets of a complexity
/// router and read as the rules of a prompt router, each with what is wrong
/// with that reading.
pub enum RoutingSection {
    Absent,
    Present { buckets: Result<BucketSection, String>, rules: Result<Vec<RuleSection>, String> },
}

/// A router document.
pub struct RouterDocument {
    pub name: String,
    pub model_type: String,
    pub default: Option<String>,
    pub routing: RoutingSection,
}

/// What a router file holds.
pub enum RouterReading {
    /// No document.
    Empty,
    /// A first document that is not a router, and why.
    Invalid(String),
    /// A router, and whether another document follows it.
    Router { document: RouterDocument, more: bool },
}

/// A target without surrounding white space, unless nothing is left.
pub open spec fn normal_target(value: Option<Seq<char>>) -> Option<Seq<char>> {
    match value {
        Some(value) => if text::trimmed(value).len() == 0 {
            None
        } else {
            Some(text::trimmed(value))
        },
        None => None,
    }
}

fn normalize_target(value: &Option<String>) -> (r: Option<String>)
    ensures
        text::text_opt(r) == normal_target(text::text_opt(*value)),
{
    match value {
        Some(value) => {
            let value = text::trim(value.as_str());
            if value.as_str().is_empty() {
                None
            } else {
                Some(value)
            }
        },
        None => None,
    }
}

/// The buckets of a section.
pub open spec fn section_buckets(section: RoutingSection) -> Result<
    (Option<Seq<char>>, Option<Seq<char>>, Option<Seq<char>>),
    Seq<char>,
> {
    match section {
        RoutingSection::Absent => Ok((None, None, None)),
        RoutingSection::Present { buckets, .. } => match buckets {
            Ok(b) => Ok((text::text_opt(b.easy), text::text_opt(b.medium), text::text_opt(b.hard))),
            Err(error) => Err(error@),
        },
    }
}

/// The descriptions and models of a section's rules.
pub open spec fn section_rules(section: RoutingSection) -> Result<
    Seq<(Seq<char>, Seq<char>)>,
    Seq<char>,
> {
    match section {
        RoutingSection::Absent => Ok(Seq::empty()),
        RoutingSection::Present { rules, .. } => match rules {
            Ok(rules) => Ok(rule_pairs(rules@)),
            Err(error) => Err(error@),
        },
    }
}

pub open spec fn rule_pairs(rules: Seq<RuleSection>) -> Seq<(Seq<char>, Seq<char>)> {
    Seq::new(rules.len(), |i: int| (rules[i].description@, rules[i].model@))
}

/// The rules of a document: without surrounding white space, with their
/// tokens.
pub open spec fn read_rules(pairs: Seq<(Seq<char>, Seq<char>)>) -> Seq<RuleModel> {
    Seq::new(
        pairs.len(),
        |i: int| rule_of(text::trimmed(pairs[i].0), text::trimmed(pairs[i].1)),
    )
}

/// The routing of a document of that name, that type and that default.
pub open spec fn routing_outcome(
    name: Seq<char>,
    model_type: Seq<char>,
    default: Seq<char>,
    section: RoutingSection,
) -> Result<RoutingModel, Seq<char>> {
    if model_type == "complexity"@ {
        match section_buckets(section) {
            Err(error) => Err("`"@ + name + "`: invalid complexity routing: "@ + error),
            Ok(b) => Ok(
                CustomModelRouting::Complexity(
                    ComplexityRouting {
                        default,
                        easy: normal_target(b.0),
                        medium: normal_target(b.1),
                        hard: normal_target(b.2),
                    },
                ),
            ),
        }
    } else if model_type == "prompt"@ {
        match section_rules(section) {
            Err(error) => Err("`"@ + name + "`: invalid prompt routing: "@ + error),
            Ok(pairs) => Ok(
                CustomModelRouting::Prompt(
                    PromptRouting { default_model: default, rules: read_rules(pairs) },
                ),
            ),
        }
    } else {
        Err(
            "`"@ + name + "`: unknown type `"@ + model_type
                + "` (expected `complexity` or `prompt`)"@,
        )
    }
}

/// The router that a document describes, or what is wrong with it.
pub open spec fn document_outcome(
    document: RouterDocument,
    source: Option<(Seq<char>, Seq<char>)>,
) -> Result<RouterModel, Seq<char>> {
    let name = text::trimmed(document.name@);
    let default = normal_target(text::text_opt(document.default));
    if name.len() == 0 {
        Err("custom model router `name` is empty"@)
    } else if default is None {
        Err("`"@ + name + "`: `"@ + document.model_type@ + "` type requires a `default` model"@)
    } else {
        match routing_outcome(name, document.model_type@, default->0, document.routing) {
            Err(error) => Err(error),
            Ok(routing) => {
                let router = router_of(name, normalized_routing(routing), source);
                match router_problem(router) {
                    Some(error) => Err(error),
                    None => Ok(router),
                }
            },
        }
    }
}

/// The router that a file describes, or what is wrong with it.
pub open spec fn reading_outcome(
    contents: Seq<char>,
    reading: RouterReading,
    source: Option<(Seq<char>, Seq<char>)>,
) -> Result<RouterModel, Seq<char>> {
    if text::utf8_len(contents) > MAX_ROUTER_YAML_BYTES {
        Err("custom model router YAML exceeds 262144 bytes"@)
    } else {
        match reading {
            RouterReading::Empty => Err("router YAML is empty"@),
            RouterReading::Invalid(error) => Err("invalid YAML: "@ + error@),
            RouterReading::Router { document, more } => if more {
                Err("custom model router YAML must contain exactly one document"@)
            } else {
                document_outcome(document, source)
            },
        }
    }
}

/// A router or what is wrong with it, over character sequences.
pub open spec fn router_result(r: Result<CustomModelRouter, String>) -> Result<
    RouterModel,
    Seq<char>,
> {
    match r {
        Ok(router) => Ok(router@),
        Err(error) => Err(error@),
    }
}

fn routing_of_document(
    name: &str,
    model_type: &str,
    default: String,
    section: &RoutingSection,
) -> (r: Result<CustomModelRouting, String>)
    ensures
        match r {
            Ok(routing) => routing_outcome(name@, model_type@, default@, *section) == Ok::<
                RoutingModel,
                Seq<char>,
            >(routing@),
            Err(error) => routing_outcome(name@, model_type@, default@, *section) == Err::<
                RoutingModel,
                Seq<char>,
            >(error@),
        },
{
    if text::same_text(model_type, "complexity") {
        let none: Option<String> = None;
        let (easy, medium, hard) = match section {
            RoutingSection::Absent => (
                normalize_target(&none),
                normalize_target(&none),
                normalize_target(&none),
            ),
            RoutingSection::Present { buckets, .. } => match buckets {
                Ok(b) => (
                    normalize_target(&b.easy),
                    normalize_target(&b.medium),
                    normalize_target(&b.hard),
                ),
                Err(error) => {
                    return Err(
                        text::concat4("`", name, "`: invalid complexity routing: ", error.as_str()),
                    );
                },
            },
        };
        return Ok(CustomModelRouting::Complexity(ComplexityRouting { default, easy, medium, hard }));
    }
    proof {
        reveal_strlit("complexity");
        reveal_strlit("prompt");
    }
    if text::same_text(model_type, "prompt") {
        let mut rules: Vec<PromptRule> = Vec::new();
        if let RoutingSection::Present { rules: read, .. } = section {
            match read {
                Err(error) => {
                    return Err(
                        text::concat4("`", name, "`: invalid prompt routing: ", error.as_str()),
                    );
                },
                Ok(read) => {
                    let mut i: usize = 0;
                    while i < read.len()
                        invariant
                            i <= read.len(),
                            rules.len() == i,
                            forall|j: int|
                                0 <= j < i ==> (#[trigger] rules@[j])@ == rule_of(
                                    text::trimmed(read@[j].description@),
                                    text::trimmed(read@[j].model@),
                                ),
                        decreases read.len() - i,
                    {
                        rules.push(
                            PromptRule::new(
                                text::trim(read[i].description.as_str()),
                                text::trim(read[i].model.as_str()),
                            ),
                        );
                        i += 1;
                    }
                    assert(rule_models(rules@) =~= read_rules(rule_pairs(read@)));
                },
            }
        } else {
            assert(rule_models(rules@) =~= read_rules(Seq::empty()));
        }
        return Ok(
            CustomModelRouting::Prompt(PromptRouting { default_model: default, rules }),
        );
    }
    let start = text::concat4("`", name, "`: unknown type `", model_type);
    Err(text::joined(start.as_str(), "` (expected `complexity` or `prompt`)"))
}

impl RouterDocument {
    /// The router that the document describes.
    pub fn into_domain(self, source: Option<&SourcePath>) -> (r: Result<CustomModelRouter, String>)
        ensures
            router_result(r) == document_outcome(self, source_of(source)),
    {
        let name = text::trim(self.name.as_str());
        if name.as_str().is_empty() {
            return Err("custom model router `name` is empty".to_owned());
        }
        let default = match normalize_target(&self.default) {
            Some(default) => default,
            None => {
                return Err(
                    text::concat5(
                        "`",
                        name.as_str(),
                        "`: `",
                        self.model_type.as_str(),
                        "` type requires a `default` model",
                    ),
                );
            },
        };
        let routing = match routing_of_document(
            name.as_str(),
            self.model_type.as_str(),
            default,
            &self.routing,
        ) {
            Ok(routing) => routing,
            Err(error) => {
                return Err(error);
            },
        };
        let router = CustomModelRouter::new_local(name, routing, source);
        match router.validate() {
            Ok(_) => Ok(router),
            Err(error) => Err(error),
        }
    }
}

/// The router that a file describes. `reading` is the file read as YAML.
pub fn parse_model_config_yaml(
    contents: &str,
    reading: RouterReading,
    source: Option<&SourcePath>,
) -> (r: Result<CustomModelRouter, String>)
    ensures
        router_result(r) == reading_outcome(contents@, reading, source_of(source)),
{
    if text::byte_len(contents) > MAX_ROUTER_YAML_BYTES {
        return Err("custom model router YAML exceeds 262144 bytes".to_owned());
    }
    match reading {
        RouterReading::Empty => Err("router YAML is empty".to_owned()),
        RouterReading::Invalid(error) => Err(text::joined("invalid YAML: ", error.as_str())),
        RouterReading::Router { document, more } => {
            if more {
                return Err(
                    "custom model router YAML must contain exactly one document".to_owned(),
                );
            }
            document.into_domain(source)
        },
    }
}

/// The routing section that is written for a router; none where it would be
/// empty.
pub enum OutputSection {
    Absent,
    Buckets(BucketSection),
    Rules(Vec<RuleSection>),
}

/// A router document to be written.
pub struct OutputDocument {
    pub name: String,
    pub model_type: &'static str,
    pub default: String,
    pub routing: OutputSection,
}

/// What a written section says, over character sequences.
pub enum SectionModel {
    Absent,
    Buckets(Option<Seq<char>>, Option<Seq<char>>, Option<Seq<char>>),
    Rules(Seq<(Seq<char>, Seq<char>)>),
}

pub open spec fn section_model(section: OutputSection) -> SectionModel {
    match section {
        OutputSection::Absent => SectionModel::Absent,
        OutputSection::Buckets(b) => SectionModel::Buckets(
            text::text_opt(b.easy),
            text::text_opt(b.medium),
            text::text_opt(b.hard),
        ),
        OutputSection::Rules(rules) => SectionModel::Rules(rule_pairs(rules@)),
    }
}

/// The name of a kind of routing in a document.
pub open spec fn kind_name(routing: RoutingModel) -> Seq<char> {
    match routing {
        CustomModelRouting::Complexity(_) => "complexity"@,
        CustomModelRouting::Prompt(_) => "prompt"@,
    }
}

/// The default target of a routing.
pub open spec fn default_of(routing: RoutingModel) -> Seq<char> {
    match routing {
        CustomModelRouting::Complexity(r) => r.default,
        CustomModelRouting::Prompt(r) => r.default_model,
    }
}

/// The section that is written for a routing.
pub open spec fn written_section(routing: RoutingModel) -> SectionModel {
    match routing {
        CustomModelRouting::Complexity(r) => if r.easy is None && r.medium is None && r.hard
            is None {
            SectionModel::Absent
        } else {
            SectionModel::Buckets(r.easy, r.medium, r.hard)
        },
        CustomModelRouting::Prompt(r) => if r.rules.len() == 0 {
            SectionModel::Absent
        } else {
            SectionModel::Rules(
                Seq::new(r.rules.len(), |i: int| (r.rules[i].description, r.rules[i].model)),
            )
        },
    }
}

impl CustomModelRouter {
    /// The document that is written for the router.
    pub fn to_document(&self) -> (r: OutputDocument)
        ensures
            r.name@ == self@.info.display_name,
            r.model_type@ == kind_name(self@.routing),
            r.default@ == default_of(self@.routing),
            section_model(r.routing) == written_section(self@.routing),
    {
        match &self.routing {
            CustomModelRouting::Complexity(routing) => {
                let some = routing.easy.is_some() || routing.medium.is_some()
                    || routing.hard.is_some();
                let section = if some {
                    OutputSection::Buckets(
                        BucketSection {
                            easy: text::clone_opt(&routing.easy),
                            medium: text::clone_opt(&routing.medium),
                            hard: text::clone_opt(&routing.hard),
                        },
                    )
                } else {
                    OutputSection::Absent
                };
                OutputDocument {
                    name: self.info.display_name.clone(),
                    model_type: "complexity",
                    default: routing.default.clone(),
                    routing: section,
                }
            },
            CustomModelRouting::Prompt(routing) => {
                let ghost models = rule_models(routing.rules@);
                let mut rules: Vec<RuleSection> = Vec::new();
                let mut i: usize = 0;
                while i < routing.rules.len()
                    invariant
                        i <= routing.rules.len(),
                        rules.len() == i,
                        models == rule_models(routing.rules@),
                        forall|j: int|
                            0 <= j < i ==> (#[trigger] rules@[j]).description@
                                == models[j].description && rules@[j].model@ == models[j].model,
                    decreases routing.rules.len() - i,
                {
                    let rule = &routing.rules[i];
                    assert(models[i as int] == rule@);
                    rules.push(
                        RuleSection {
                            description: rule.description.clone(),
                            model: rule.model.clone(),
                        },
                    );
                    i += 1;
                }
                assert(rule_pairs(rules@) =~= Seq::new(
                    models.len(),
                    |k: int| (models[k].description, models[k].model),
                ));
                let section = if rules.len() == 0 {
                    OutputSection::Absent
                } else {
                    OutputSection::Rules(rules)
                };
                OutputDocument {
                    name: self.info.display_name.clone(),
                    model_type: "prompt",
                    default: routing.default_model.clone(),
                    routing: section,
                }
            },
        }
    }
}

// ---------------------------------------------------------------------------
// Laws.

/// The name of its file is a router's identity: called otherwise, it stays the
/// same router.
pub proof fn law_file_is_the_identity(
    name: Seq<char>,
    other: Seq<char>,
    routing: RoutingModel,
    source: (Seq<char>, Seq<char>),
)
    requires
        paths::file_stem(source.0) matches Some(stem) && stem.len() > 0,
    ensures
        router_of(name, routing, Some(source)).info.id == router_of(
            other,
            routing,
            Some(source),
        ).info.id,
{
}

/// Whether a document reads as what was written for a routing of that name.
pub open spec fn reads_as(document: RouterDocument, name: Seq<char>, routing: RoutingModel) -> bool {
    &&& document.name@ == name
    &&& document.model_type@ == kind_name(routing)
    &&& text::text_opt(document.default) == Some(default_of(routing))
    &&& match written_section(routing) {
        SectionModel::Absent => document.routing is Absent,
        SectionModel::Buckets(easy, medium, hard) => !(document.routing is Absent)
            && section_buckets(document.routing) == Ok::<
            (Option<Seq<char>>, Option<Seq<char>>, Option<Seq<char>>),
            Seq<char>,
        >((easy, medium, hard)),
        SectionModel::Rules(pairs) => !(document.routing is Absent) && section_rules(
            document.routing,
        ) == Ok::<Seq<(Seq<char>, Seq<char>)>, Seq<char>>(pairs),
    }
}

/// Whether a text has no white space around it.
pub open spec fn is_trimmed(s: Seq<char>) -> bool {
    text::trimmed(s) == s
}

/// Whether no text of a routing has white space around it.
pub open spec fn routing_trimmed(routing: RoutingModel) -> bool {
    match routing {
        CustomModelRouting::Complexity(r) => is_trimmed(r.default) && (r.easy matches Some(t)
            ==> is_trimmed(t)) && (r.medium matches Some(t) ==> is_trimmed(t)) && (
        r.hard matches Some(t) ==> is_trimmed(t)),
        CustomModelRouting::Prompt(r) => is_trimmed(r.default_model) && forall|i: int|
            0 <= i < r.rules.len() ==> is_trimmed((#[trigger] r.rules[i]).description)
                && is_trimmed(r.rules[i].model),
    }
}

/// A saved router is read back as it was: whatever document reads as what was
/// written for a router without problems, in a file of the same path, describes
/// that router again.
pub proof fn law_saved_router_reads_back(
    m: RouterModel,
    document: RouterDocument,
    name: Seq<char>,
    source: Option<(Seq<char>, Seq<char>)>,
)
    requires
        m == router_of(name, normalized_routing(m.routing), source),
        router_problem(m) is None,
        is_trimmed(name),
        routing_trimmed(m.routing),
        reads_as(document, name, m.routing),
    ensures
        document_outcome(document, source) == Ok::<RouterModel, Seq<char>>(m),
{
    reveal_strlit("complexity");
    reveal_strlit("prompt");
    assert("complexity"@.len() == 10 && "prompt"@.len() == 6);
    assert(m.info.display_name == name);
    assert(text::trimmed(document.name@) == name);
    assert(m == router_of(name, normalized_routing(m.routing), source));
    match m.routing {
        CustomModelRouting::Complexity(r) => {
            assert(m.routing == normalized_routing(m.routing));
            assert(complexity_problem(r) is None);
            assert(normal_target(Some(r.default)) == Some(r.default));
            assert(normal_target(text::text_opt(document.default)) == Some(r.default));
            assert(bucket_problem("easy"@, r.easy) is None);
            assert(bucket_problem("medium"@, r.medium) is None);
            assert(bucket_problem("hard"@, r.hard) is None);
            assert(normal_target(r.easy) == r.easy);
            assert(normal_target(r.medium) == r.medium);
            assert(normal_target(r.hard) == r.hard);
            assert(section_buckets(document.routing) == Ok::<
                (Option<Seq<char>>, Option<Seq<char>>, Option<Seq<char>>),
                Seq<char>,
            >((r.easy, r.medium, r.hard)));
            assert(routing_outcome(name, document.model_type@, r.default, document.routing) == Ok::<
                RoutingModel,
                Seq<char>,
            >(m.routing));
        },
        CustomModelRouting::Prompt(r) => {
            let pairs = Seq::new(
                r.rules.len(),
                |i: int| (r.rules[i].description, r.rules[i].model),
            );
            assert(m.routing == normalized_routing(m.routing));
            assert(r.rules == retokenized(r.rules));
            assert(read_rules(pairs) =~= r.rules) by {
                assert forall|i: int| 0 <= i < r.rules.len() implies #[trigger] read_rules(pairs)[i]
                    == r.rules[i] by {
                    assert(retokenized(r.rules)[i] == rule_of(
                        r.rules[i].description,
                        r.rules[i].model,
                    ));
                }
            }
            if r.rules.len() == 0 {
                assert(read_rules(Seq::empty()) =~= r.rules);
            }
            if r.rules.len() > 0 {
                assert(section_rules(document.routing)->Ok_0 =~= pairs);
            }
            assert(prompt_problem(r) is None);
            assert(normal_target(text::text_opt(document.default)) == Some(r.default_model));
            assert(routing_outcome(
                name,
                document.model_type@,
                r.default_model,
                document.routing,
            ) == Ok::<RoutingModel, Seq<char>>(m.routing));
        },
    }
}

proof fn lemma_normal_target_trimmed(value: Option<Seq<char>>)
    ensures
        normal_target(value) matches Some(t) ==> is_trimmed(t),
{
    if let Some(value) = value {
        text::lemma_trimmed_twice(value);
    }
}

/// What a document describes has no white space around its texts, and its rules
/// carry the tokens of their descriptions.
proof fn lemma_read_router(
    document: RouterDocument,
    source: Option<(Seq<char>, Seq<char>)>,
    m: RouterModel,
)
    requires
        document_outcome(document, source) == Ok::<RouterModel, Seq<char>>(m),
    ensures
        m == router_of(m.info.display_name, normalized_routing(m.routing), source),
        router_problem(m) is None,
        is_trimmed(m.info.display_name),
        routing_trimmed(m.routing),
{
    let name = text::trimmed(document.name@);
    let default = normal_target(text::text_opt(document.default));
    text::lemma_trimmed_twice(document.name@);
    lemma_normal_target_trimmed(text::text_opt(document.default));
    let routing = routing_outcome(name, document.model_type@, default->0, document.routing)->Ok_0;
    assert(m == router_of(name, normalized_routing(routing), source));
    assert(m.info.display_name == name);
    match routing {
        CustomModelRouting::Complexity(r) => {
            let b = section_buckets(document.routing)->Ok_0;
            lemma_normal_target_trimmed(b.0);
            lemma_normal_target_trimmed(b.1);
            lemma_normal_target_trimmed(b.2);
        },
        CustomModelRouting::Prompt(r) => {
            let pairs = section_rules(document.routing)->Ok_0;
            assert(r.rules == read_rules(pairs));
            assert(retokenized(retokenized(r.rules)) =~= retokenized(r.rules));
            assert forall|i: int| 0 <= i < r.rules.len() implies is_trimmed(
                (#[trigger] r.rules[i]).description,
            ) && is_trimmed(r.rules[i].model) by {
                assert(read_rules(pairs)[i] == rule_of(
                    text::trimmed(pairs[i].0),
                    text::trimmed(pairs[i].1),
                ));
                text::lemma_trimmed_twice(pairs[i].0);
                text::lemma_trimmed_twice(pairs[i].1);
            }
            assert forall|i: int| 0 <= i < retokenized(r.rules).len() implies is_trimmed(
                (#[trigger] retokenized(r.rules)[i]).description,
            ) && is_trimmed(retokenized(r.rules)[i].model) by {
                assert(is_trimmed(r.rules[i].description));
            }
        },
    }
}

/// A router that was read from a file is read again from what is written for
/// it: from every text within the limit that holds one document which reads as
/// the router's own.
pub proof fn law_parsed_router_reads_back(
    m: RouterModel,
    contents: Seq<char>,
    reading: RouterReading,
    source: Option<(Seq<char>, Seq<char>)>,
    written: Seq<char>,
    again: RouterDocument,
)
    requires
        reading_outcome(contents, reading, source) == Ok::<RouterModel, Seq<char>>(m),
        text::utf8_len(written) <= MAX_ROUTER_YAML_BYTES,
        reads_as(again, m.info.display_name, m.routing),
    ensures
        reading_outcome(
            written,
            RouterReading::Router { document: again, more: false },
            source,
        ) == Ok::<RouterModel, Seq<char>>(m),
{
    lemma_read_router(reading->document, source, m);
    law_saved_router_reads_back(m, again, m.info.display_name, source);
}

/// What a router chooses is one of its own targets, whatever the request.
pub proof fn law_choice_is_a_target(m: RouterModel, facts: FactsModel)
    ensures
        targets_of(m.routing).contains(choice_of(m, facts).model_id),
{
    let targets = targets_of(m.routing);
    match m.routing {
        CustomModelRouting::Complexity(r) => {
            let chosen = bucket_target(r, bucket_of(facts));
            let e = listed(r.easy).len() as int;
            let n = listed(r.medium).len() as int;
            match bucket_of(facts) {
                ComplexityBucket::Easy => {
                    if r.easy is Some {
                        assert(targets[1] == chosen);
                    } else {
                        assert(targets[0] == chosen);
                    }
                },
                ComplexityBucket::Medium => {
                    if r.medium is Some {
                        assert(targets[1 + e] == chosen);
                    } else {
                        assert(targets[0] == chosen);
                    }
                },
                ComplexityBucket::Hard => {
                    if r.hard is Some {
                        assert(targets[1 + e + n] == chosen);
                    } else {
                        assert(targets[0] == chosen);
                    }
                },
            }
        },
        CustomModelRouting::Prompt(r) => {
            let tokens = meaningful(facts.prompt);
            lemma_first_match(r.rules, tokens, 0);
            let i = first_match(r.rules, tokens, 0);
            if i < r.rules.len() {
                assert(targets[1 + i] == r.rules[i].model);
            } else {
                assert(targets[0] == r.default_model);
            }
        },
    }
}

proof fn lemma_first_match(rules: Seq<RuleModel>, tokens: Seq<Seq<char>>, from: int)
    requires
        0 <= from <= rules.len(),
    ensures
        from <= first_match(rules, tokens, from) <= rules.len(),
        first_match(rules, tokens, from) < rules.len() ==> rule_matches(
            rules[first_match(rules, tokens, from)],
            tokens,
        ),
        forall|i: int|
            from <= i < first_match(rules, tokens, from) ==> !rule_matches(
                #[trigger] rules[i],
                tokens,
            ),
    decreases rules.len() - from,
{
    if from < rules.len() && !rule_matches(rules[from], tokens) {
        lemma_first_match(rules, tokens, from + 1);
    }
}

/// Rules are tried in order: the chosen rule shares a token with the prompt
/// and no rule before it does.
pub proof fn law_first_matching_rule_wins(m: RouterModel, facts: FactsModel)
    requires
        m.routing is Prompt,
    ensures
        ({
            let rules = m.routing->Prompt_0.rules;
            let tokens = meaningful(facts.prompt);
            let i = first_match(rules, tokens, 0);
            &&& 0 <= i <= rules.len()
            &&& i < rules.len() ==> rule_matches(rules[i], tokens) && choice_of(m, facts).model_id
                == rules[i].model
            &&& i == rules.len() ==> choice_of(m, facts).model_id
                == m.routing->Prompt_0.default_model
            &&& forall|k: int| 0 <= k < i ==> !rule_matches(#[trigger] rules[k], tokens)
        }),
{
    lemma_first_match(m.routing->Prompt_0.rules, meaningful(facts.prompt), 0);
}

/// A router never resolves to a hosted or automatic model: what it resolves to
/// is a model that exactly one configured provider lists.
pub proof fn law_resolution_is_configured(
    m: RouterModel,
    facts: FactsModel,
    providers: Seq<CustomProviderConfig>,
    target: TargetModel,
)
    requires
        router_outcome(m, facts, providers) == Ok::<TargetModel, ErrorModel>(target),
    ensures
        providers::name_is_unique(target.provider_name, providers),
        text::texts(
            providers::provider_of(target.provider_name, providers).models@,
        ).contains(target.model_id),
        providers::provider_error(providers::provider_of(target.provider_name, providers)) is None,
        target.capabilities.chat,
        facts.requires_vision ==> target.capabilities.vision,
        facts.requires_tools ==> target.capabilities.tools,
{
}

/// A router in the catalogue can serve every ordinary request: whichever target
/// it chooses for one, that target resolves.
pub proof fn law_listed_router_serves_ordinary_requests(
    m: RouterModel,
    providers: Seq<CustomProviderConfig>,
)
    requires
        is_servable(m, providers),
    ensures
        router_outcome(m, ordinary_request(), providers) is Ok,
{
    let targets = targets_of(m.routing);
    law_choice_is_a_target(m, ordinary_request());
    let chosen = choice_of(m, ordinary_request()).model_id;
    let i = choose|i: int| 0 <= i < targets.len() && targets[i] == chosen;
    lemma_target_ok(targets, providers, targets.len() as int, i);
}

proof fn lemma_target_ok(
    targets: Seq<Seq<char>>,
    providers: Seq<CustomProviderConfig>,
    n: int,
    i: int,
)
    requires
        0 <= i < n <= targets.len(),
        targets_outcome(targets, providers, n) is Ok,
    ensures
        target_outcome(targets[i], ordinary_request(), providers) is Ok,
    decreases n,
{
    if i < n - 1 {
        lemma_target_ok(targets, providers, n - 1, i);
    }
}

/// A stale router never gives way to a hosted model: what remains of a stored
/// selection of a local router is that router or a configured model.
pub proof fn law_stale_router_stays_local(
    current: Seq<char>,
    routers: Seq<RouterModel>,
    providers: Seq<CustomProviderConfig>,
    kept: Seq<char>,
)
    requires
        is_local_router_id(current),
        reconciled(current, routers, providers) == Some(kept),
    ensures
        kept == current || is_concrete_offer(kept, providers),
{
    if kept != current {
        lemma_first_concrete(providers, 0);
    }
}

proof fn lemma_first_concrete(providers: Seq<CustomProviderConfig>, from: int)
    requires
        0 <= from,
    ensures
        first_concrete(providers, from) matches Some(id) ==> is_concrete_offer(id, providers),
    decreases providers.len() - from,
{
    if from < providers.len() {
        let p = providers[from];
        let models = text::texts(p.models@);
        if provider_offered(p, providers) && first_model(p.name@, models, 0) is Some {
            lemma_first_model(p.name@, models, 0);
            let id = first_model(p.name@, models, 0)->0;
            let j = choose|j: int|
                0 <= j < models.len() && id == model_id_of(p.name@, #[trigger] models[j]);
            assert(offered_at(id, providers, from, j));
        } else {
            lemma_first_concrete(providers, from + 1);
        }
    }
}

proof fn lemma_first_model(name: Seq<char>, models: Seq<Seq<char>>, from: int)
    requires
        0 <= from,
    ensures
        first_model(name, models, from) matches Some(id) ==> concrete_parts(id) is Some && exists|
            j: int,
        |
            0 <= j < models.len() && id == model_id_of(name, #[trigger] models[j]),
    decreases models.len() - from,
{
    if from < models.len() {
        if concrete_parts(model_id_of(name, models[from])) is None {
            lemma_first_model(name, models, from + 1);
        } else {
            assert(model_id_of(name, models[from]) == first_model(name, models, from)->0);
        }
    }
}

// ---------------------------------------------------------------------------
// What routing promises.

/// A request that asks for a review or an edit, carries four attachments or
/// 96000 characters is served by the model for hard requests; below that, one
/// that needs tools, carries an attachment or 12000 characters by the model for
/// medium ones; any other by the model for easy ones. A missing model is the
/// default.
pub proof fn law_requests_are_served_by_difficulty(m: RouterModel, facts: FactsModel)
    requires
        m.routing is Complexity,
    ensures
        ({
            let r = m.routing->Complexity_0;
            let c = choice_of(m, facts);
            let hard = facts.requires_code_review || facts.requires_edit || facts.attachment_count
                >= 4 || facts.context_chars >= 96_000;
            let plain = !facts.requires_tools && facts.attachment_count == 0 && facts.context_chars
                < 12_000;
            &&& hard ==> c.complexity_bucket == Some(ComplexityBucket::Hard) && (match r.hard {
                Some(target) => c.model_id == target,
                None => c.model_id == r.default,
            })
            &&& !hard && !plain ==> c.complexity_bucket == Some(ComplexityBucket::Medium) && (
            match r.medium {
                Some(target) => c.model_id == target,
                None => c.model_id == r.default,
            })
            &&& !hard && plain ==> c.complexity_bucket == Some(ComplexityBucket::Easy) && (
            match r.easy {
                Some(target) => c.model_id == target,
                None => c.model_id == r.default,
            })
            &&& c.router_id == m.info.id
            &&& c.prompt_rule_index is None
        }),
{
}

/// How far a request is up the scale.
pub open spec fn rank_of(bucket: ComplexityBucket) -> int {
    match bucket {
        ComplexityBucket::Easy => 0,
        ComplexityBucket::Medium => 1,
        ComplexityBucket::Hard => 2,
    }
}

/// More never makes a request easier, and what the prompt says or whether it
/// shows pictures does not make it harder.
pub proof fn law_difficulty_grows_with_the_request(a: FactsModel, b: FactsModel)
    requires
        a.context_chars <= b.context_chars,
        a.attachment_count <= b.attachment_count,
        a.requires_code_review ==> b.requires_code_review,
        a.requires_edit ==> b.requires_edit,
        a.requires_tools ==> b.requires_tools,
    ensures
        rank_of(bucket_of(a)) <= rank_of(bucket_of(b)),
{
}

/// Rules are tried in order: the first of which a token is among those of the
/// prompt gives the model, and the default does where no rule has one.
pub proof fn law_rules_choose_by_shared_tokens(m: RouterModel, facts: FactsModel, i: int)
    requires
        m.routing is Prompt,
        m.routing->Prompt_0.rules.len() <= usize::MAX,
    ensures
        ({
            let r = m.routing->Prompt_0;
            let c = choice_of(m, facts);
            let words = meaningful(facts.prompt);
            &&& 0 <= i < r.rules.len() && (exists|k: int|
                0 <= k < r.rules[i].tokens.len() && words.contains(
                    #[trigger] r.rules[i].tokens[k],
                )) && (forall|j: int, k: int|
                0 <= j < i && 0 <= k < r.rules[j].tokens.len() ==> !words.contains(
                    #[trigger] r.rules[j].tokens[k],
                )) ==> c.model_id == r.rules[i].model && c.prompt_rule_index == Some(i as usize)
            &&& (forall|j: int, k: int|
                0 <= j < r.rules.len() && 0 <= k < r.rules[j].tokens.len() ==> !words.contains(
                    #[trigger] r.rules[j].tokens[k],
                )) ==> c.model_id == r.default_model && c.prompt_rule_index is None
            &&& c.router_id == m.info.id
            &&& c.complexity_bucket is None
        }),
{
    let r = m.routing->Prompt_0;
    let words = meaningful(facts.prompt);
    lemma_first_match(r.rules, words, 0);
    let at = first_match(r.rules, words, 0);
    if 0 <= i < r.rules.len() && (exists|k: int|
        0 <= k < r.rules[i].tokens.len() && words.contains(#[trigger] r.rules[i].tokens[k])) {
        assert(rule_matches(r.rules[i], words));
        assert(at <= i);
    }
    if at < r.rules.len() {
        assert(rule_matches(r.rules[at], words));
        let k = choose|k: int|
            0 <= k < r.rules[at].tokens.len() && words.contains(#[trigger] r.rules[at].tokens[k]);
        assert(words.contains(r.rules[at].tokens[k]));
    }
}

/// The tokens of a text are the words of more than one letter or digit in it
/// that are not among the most common ones, each once.
pub proof fn law_tokens_are_the_words_that_say_something(normalized: Seq<char>, word: Seq<char>)
    ensures
        tokens_of(normalized).no_duplicates(),
        tokens_of(normalized).contains(word) <==> tokens::lexemes(normalized).contains(word)
            && word.len() >= 2 && word != "an"@ && word != "and"@ && word != "for"@ && word != "in"@
            && word != "of"@ && word != "the"@ && word != "to"@ && word != "with"@,
{
    reveal_strlit("a");
    lemma_distinct_meaningful(tokens::lexemes(normalized), word);
    assert("a"@.len() == 1);
}

proof fn lemma_distinct_meaningful(words: Seq<Seq<char>>, word: Seq<char>)
    ensures
        distinct_meaningful(words).no_duplicates(),
        distinct_meaningful(words).contains(word) <==> words.contains(word) && is_meaningful(word),
    decreases words.len(),
{
    if words.len() > 0 {
        let head = words.drop_last();
        let init = distinct_meaningful(head);
        let out = distinct_meaningful(words);
        lemma_distinct_meaningful(head, word);
        lemma_distinct_meaningful(head, words.last());
        if words.contains(word) {
            let k = choose|k: int| 0 <= k < words.len() && words[k] == word;
            if k < head.len() {
                assert(head[k] == word);
                assert(head.contains(word));
            }
        }
        if head.contains(word) {
            let k = choose|k: int| 0 <= k < head.len() && head[k] == word;
            assert(words[k] == word);
        }
        assert(words[words.len() - 1] == words.last());
        assert(words.contains(words.last()));
        if out.len() > init.len() {
            assert(out == init.push(words.last()));
            assert(out[init.len() as int] == words.last());
            if init.contains(word) {
                let j = choose|j: int| 0 <= j < init.len() && init[j] == word;
                assert(out[j] == word);
            }
            if out.contains(word) {
                let j = choose|j: int| 0 <= j < out.len() && out[j] == word;
                if j < init.len() {
                    assert(init[j] == word);
                    assert(init.contains(word));
                }
            }
            assert forall|i: int, j: int|
                0 <= i < out.len() && 0 <= j < out.len() && i != j implies out[i] != out[j] by {
                if i < init.len() {
                    assert(init.contains(init[i]));
                }
                if j < init.len() {
                    assert(init.contains(init[j]));
                }
            }
        }
    }
}

/// Of a prompt the first 65536 characters count.
pub proof fn law_long_prompts_count_by_their_beginning(prompt: Seq<char>, more: Seq<char>)
    requires
        prompt.len() == 65_536,
    ensures
        meaningful(prompt + more) == meaningful(prompt),
{
    assert((prompt + more).subrange(0, 65_536) =~= prompt);
}

/// Whether two names make a target: both say something without white space, and
/// the model is no router.
pub open spec fn names_a_model(provider: Seq<char>, model: Seq<char>) -> bool {
    &&& provider.len() > 0
    &&& model.len() > 0
    &&& forall|i: int| 0 <= i < provider.len() ==> !text::is_space(#[trigger] provider[i])
    &&& forall|i: int| 0 <= i < model.len() ==> !text::is_space(#[trigger] model[i])
    &&& !text::starts_with(model, "router:"@)
    &&& !text::starts_with(model, "custom-router:"@)
}

/// A concrete target is a provider's name without slashes and a model's name, in
/// at most 256 bytes.
pub proof fn law_concrete_targets(provider: Seq<char>, model: Seq<char>, id: Seq<char>)
    ensures
        concrete_parts(id) == Some((provider, model)) <==> {
            &&& id == "custom/"@ + provider + "/"@ + model
            &&& !provider.contains('/')
            &&& names_a_model(provider, model)
            &&& text::utf8_len(id) <= 256
        },
{
    if id == "custom/"@ + provider + "/"@ + model && !provider.contains('/') {
        providers::law_model_ids_read_back(provider, model);
    }
    if providers::custom_model_parts(id) == Some((provider, model)) {
        providers::law_model_ids_are_whole(id, provider, model);
        if provider.len() > 0 {
            assert(text::is_blank(provider) ==> text::is_space(provider[0]));
        }
        if model.len() > 0 {
            assert(text::is_blank(model) ==> text::is_space(model[0]));
        }
    }
}

/// A target can be routed to where it is a concrete model; what leaves the
/// choice to someone else cannot.
pub proof fn law_routable_targets(value: Seq<char>)
    ensures
        target_problem(value) is None <==> concrete_parts(text::trimmed(value)) is Some,
        is_auto(value) ==> target_problem(value) is Some,
        text::is_blank(value) ==> target_problem(value) is Some,
{
    let v = text::trimmed(value);
    text::lemma_trimmed_twice(value);
    text::lemma_trimmed_empty(value);
    reveal_strlit("custom/");
    reveal_strlit("auto");
    reveal_strlit("auto-");
    reveal_strlit("cli-agent-auto");
    reveal_strlit("computer-use-agent-auto");
    reveal_strlit("custom-router:");
    if concrete_parts(v) is Some {
        assert(text::starts_with(v, "custom/"@));
        let head = v.subrange(0, 7);
        assert(v[6] == head[6]);
        assert(v[1] == head[1]);
        assert(v[2] == head[2]);
        assert(head[6] == '/');
        if text::starts_with(v, "auto-"@) {
            assert(v.subrange(0, 5)[0] == v[0]);
            assert(v[0] == head[0]);
        }
        if text::starts_with(v, "custom-router:"@) {
            assert(v.subrange(0, 14)[6] == v[6]);
        }
    }
}

proof fn lemma_description_chars(rules: Seq<RuleModel>, n: int)
    requires
        0 <= n <= rules.len(),
    ensures
        description_chars(rules, n) == rules.take(n).map_values(
            |r: RuleModel| r.description,
        ).flatten().len(),
        token_count(rules, n) == rules.take(n).map_values(|r: RuleModel| r.tokens).flatten().len(),
        forall|k: int|
            0 <= k <= n ==> #[trigger] description_chars(rules, k) <= description_chars(rules, n),
        forall|k: int| 0 <= k <= n ==> #[trigger] token_count(rules, k) <= token_count(rules, n),
    decreases n,
{
    let texts = rules.take(n).map_values(|r: RuleModel| r.description);
    let words = rules.take(n).map_values(|r: RuleModel| r.tokens);
    texts.lemma_flatten_and_flatten_alt_are_equivalent();
    words.lemma_flatten_and_flatten_alt_are_equivalent();
    if n > 0 {
        lemma_description_chars(rules, n - 1);
        assert(texts.drop_last() =~= rules.take(n - 1).map_values(|r: RuleModel| r.description));
        assert(words.drop_last() =~= rules.take(n - 1).map_values(|r: RuleModel| r.tokens));
        texts.drop_last().lemma_flatten_and_flatten_alt_are_equivalent();
        words.drop_last().lemma_flatten_and_flatten_alt_are_equivalent();
        assert(texts.last() == rules[n - 1].description);
        assert(words.last() == rules[n - 1].tokens);
    }
}

proof fn lemma_good_rules(rules: Seq<RuleModel>, from: int)
    requires
        0 <= from <= rules.len(),
    ensures
        rules_problem(rules, from) is None <==> forall|i: int|
            from <= i < rules.len() ==> #[trigger] rule_problem(rules, i) is None,
    decreases rules.len() - from,
{
    if from < rules.len() {
        lemma_good_rules(rules, from + 1);
        if rule_problem(rules, from) is None && rules_problem(rules, from + 1) is None {
            assert forall|i: int| from <= i < rules.len() implies #[trigger] rule_problem(
                rules,
                i,
            ) is None by {}
        }
    }
}

/// A router by rules is sound where it has at most 128 of them with at most
/// 262144 characters and 16384 tokens together, every rule says something, and
/// every target is a concrete model.
pub proof fn law_sound_rules(r: PromptRouting<Seq<char>, Seq<RuleModel>>)
    ensures
        prompt_problem(r) is None <==> {
            &&& r.rules.len() <= 128
            &&& target_problem(r.default_model) is None
            &&& forall|i: int|
                0 <= i < r.rules.len() ==> (#[trigger] r.rules[i]).tokens.len() > 0
                    && target_problem(r.rules[i].model) is None
            &&& r.rules.map_values(|rule: RuleModel| rule.description).flatten().len() <= 262_144
            &&& r.rules.map_values(|rule: RuleModel| rule.tokens).flatten().len() <= 16_384
        },
{
    let rules = r.rules;
    let n = rules.len() as int;
    lemma_description_chars(rules, n);
    lemma_good_rules(rules, 0);
    assert(rules.take(n) =~= rules);
    if rules_problem(rules, 0) is None {
        assert forall|i: int| 0 <= i < n implies (#[trigger] rules[i]).tokens.len() > 0
            && target_problem(rules[i].model) is None by {
            assert(rule_problem(rules, i) is None);
        }
        if n > 0 {
            assert(rule_problem(rules, n - 1) is None);
        } else {
            assert(rules.map_values(|rule: RuleModel| rule.description) =~= Seq::empty());
            assert(rules.map_values(|rule: RuleModel| rule.tokens) =~= Seq::empty());
        }
    }
    if (forall|i: int|
        0 <= i < rules.len() ==> (#[trigger] rules[i]).tokens.len() > 0 && target_problem(
            rules[i].model,
        ) is None) && description_chars(rules, n) <= 262_144 && token_count(rules, n) <= 16_384 {
        assert forall|i: int| 0 <= i < n implies #[trigger] rule_problem(rules, i) is None by {
            assert(description_chars(rules, i + 1) <= description_chars(rules, n));
            assert(token_count(rules, i + 1) <= token_count(rules, n));
            assert(rules[i].tokens.len() > 0);
        }
    }
}

/// A router is sound where it has a name of at most 256 characters and its
/// routing is; one by difficulty is sound where all its targets are concrete
/// models.
pub proof fn law_sound_routers(m: RouterModel)
    ensures
        router_problem(m) is None <==> {
            &&& 0 < text::trimmed(m.info.display_name).len() <= 256
            &&& match m.routing {
                CustomModelRouting::Complexity(r) => target_problem(r.default) is None && (
                r.easy matches Some(t) ==> target_problem(t) is None) && (r.medium matches Some(t)
                    ==> target_problem(t) is None) && (r.hard matches Some(t) ==> target_problem(
                    t,
                ) is None),
                CustomModelRouting::Prompt(r) => prompt_problem(r) is None,
            }
        },
{
}

/// A request is served by a target exactly where one provider has its name, can
/// be used, lists the model and is able to: to chat, to use tools for a request
/// that needs them, reviews or edits, to see for one with pictures, and to hold
/// a third of its characters as tokens. What it resolves to is that provider's.
pub proof fn law_served_requests(
    provider: Seq<char>,
    model: Seq<char>,
    target: Seq<char>,
    facts: FactsModel,
    providers: Seq<CustomProviderConfig>,
    i: int,
)
    requires
        concrete_parts(target) == Some((provider, model)),
        0 <= i < providers.len(),
        providers[i].name@ == provider,
        forall|j: int|
            0 <= j < providers.len() && j != i ==> (#[trigger] providers[j]).name@ != provider,
    ensures
        ({
            let p = providers[i];
            let able = p.effective();
            let context = if facts.context_chars < 1_000_000 {
                facts.context_chars as int
            } else {
                1_000_000
            };
            &&& target_outcome(target, facts, providers) is Ok <==> {
                &&& providers::provider_error(p) is None
                &&& text::texts(p.models@).contains(model)
                &&& able.chat
                &&& facts.requires_tools || facts.requires_code_review || facts.requires_edit
                    ==> able.tools
                &&& facts.requires_vision ==> able.vision
                &&& p.capabilities.context_window_tokens matches Some(window) ==> context <= 3
                    * window
            }
            &&& target_outcome(target, facts, providers) matches Ok(found)
                ==> found.provider_name == provider && found.model_id == model && found.base_url
                == p.base_url@ && found.capabilities == able && found.context_window_tokens
                == p.capabilities.context_window_tokens
        }),
{
    assert(providers::is_only_provider(provider, providers, i));
    let k = choose|k: int| providers::is_only_provider(provider, providers, k);
    assert(providers::is_only_provider(provider, providers, k));
    assert(k == i) by {
        if k != i {
            assert(providers[i].name@ != provider);
        }
    }
    assert(providers[i].name@ == provider);
}

/// A target of a provider that is not there, or that is there more than once,
/// is not served.
pub proof fn law_unclear_providers_serve_nothing(
    provider: Seq<char>,
    model: Seq<char>,
    target: Seq<char>,
    facts: FactsModel,
    providers: Seq<CustomProviderConfig>,
    i: int,
    j: int,
)
    requires
        concrete_parts(target) == Some((provider, model)),
    ensures
        (forall|k: int| 0 <= k < providers.len() ==> (#[trigger] providers[k]).name@ != provider)
            ==> target_outcome(target, facts, providers) == Err::<TargetModel, ErrorModel>(
            RouterResolutionError::MissingProvider(provider),
        ),
        0 <= i < j < providers.len() && providers[i].name@ == provider && providers[j].name@
            == provider ==> target_outcome(target, facts, providers) == Err::<
            TargetModel,
            ErrorModel,
        >(RouterResolutionError::AmbiguousProvider(provider)),
{
    if 0 <= i < j < providers.len() && providers[i].name@ == provider && providers[j].name@
        == provider {
        if providers::name_is_unique(provider, providers) {
            let k = choose|k: int| providers::is_only_provider(provider, providers, k);
            assert(providers::is_only_provider(provider, providers, k));
            if k == i {
                assert(providers[j].name@ != provider);
            } else {
                assert(providers[i].name@ != provider);
            }
        }
    }
}

/// The smallest known context window is that of a target, and no target has a
/// smaller one; there is none only where no target's is known.
pub proof fn law_smallest_window(targets: Seq<TargetModel>, i: int)
    requires
        0 <= i < targets.len(),
    ensures
        targets[i].context_window_tokens matches Some(window) ==> smallest_window(
            targets,
        ) matches Some(least) && least <= window,
        smallest_window(targets) matches Some(least) ==> exists|k: int|
            0 <= k < targets.len() && (#[trigger] targets[k]).context_window_tokens == Some(least),
    decreases targets.len(),
{
    let init = targets.drop_last();
    if i < init.len() {
        assert(init[i] == targets[i]);
        law_smallest_window(init, i);
    } else if init.len() > 0 {
        law_smallest_window(init, 0);
    }
    if smallest_window(targets) is Some {
        let least = smallest_window(targets)->0;
        if targets.last().context_window_tokens == Some(least) {
            assert(targets[targets.len() - 1].context_window_tokens == Some(least));
        } else {
            assert(smallest_window(init) == Some(least));
            assert(init.len() > 0);
            let k = choose|k: int|
                0 <= k < init.len() && (#[trigger] init[k]).context_window_tokens == Some(least);
            assert(targets[k].context_window_tokens == Some(least));
        }
    }
}

/// A router is in the catalogue as one that can be used exactly where it is
/// sound and every target serves an ordinary request; it is then said to be
/// able to do what every target can, and otherwise nothing.
pub proof fn law_catalogue_tells_what_all_targets_can(
    m: RouterModel,
    providers: Seq<CustomProviderConfig>,
    min_context_tokens: u32,
)
    ensures
        ({
            let entry = catalog_entry(m, providers, min_context_tokens);
            let targets = targets_of(m.routing);
            let all_served = forall|i: int|
                0 <= i < targets.len() ==> target_outcome(
                    #[trigger] targets[i],
                    ordinary_request(),
                    providers,
                ) is Ok;
            &&& entry.disable_reason is None <==> router_problem(m) is None && all_served
            &&& entry.router == m
            &&& entry.info.id == m.info.id
            &&& entry.info.display_name == m.info.display_name
            &&& entry.disable_reason is None ==> {
                &&& entry.info.disable_reason == m.info.disable_reason
                &&& entry.info.vision_supported == entry.capabilities.vision
                &&& entry.capabilities.tools
                &&& entry.capabilities.chat
                &&& forall|i: int|
                    0 <= i < targets.len() && entry.capabilities.vision ==> (target_outcome(
                        #[trigger] targets[i],
                        ordinary_request(),
                        providers,
                    )->Ok_0).capabilities.vision
            }
            &&& entry.disable_reason is Some ==> entry.info.disable_reason is Some
                && !entry.capabilities.chat && !entry.capabilities.tools
                && !entry.capabilities.vision && entry.context_window_tokens is None
        }),
{
    let targets = targets_of(m.routing);
    let entry = catalog_entry(m, providers, min_context_tokens);
    lemma_all_targets(targets, providers, targets.len() as int);
    match targets_outcome(targets, providers, targets.len() as int) {
        Ok(found) => {
            assert(forall|i: int|
                0 <= i < found.len() ==> target_outcome(
                    targets[i],
                    ordinary_request(),
                    providers,
                ) == Ok::<TargetModel, ErrorModel>(#[trigger] found[i]));
            if router_problem(m) is None {
                assert(entry == entry_of(m, found, min_context_tokens));
                assert forall|i: int|
                    0 <= i < targets.len() && entry.capabilities.vision implies (target_outcome(
                    #[trigger] targets[i],
                    ordinary_request(),
                    providers,
                )->Ok_0).capabilities.vision by {
                    assert(found[i].capabilities.vision);
                }
                assert(entry.capabilities.tools) by {
                    assert forall|i: int| 0 <= i < found.len() implies (
                    #[trigger] found[i]).capabilities.tools by {
                        assert(target_outcome(targets[i], ordinary_request(), providers) is Ok);
                    }
                }
                assert(entry.capabilities.chat) by {
                    assert forall|i: int| 0 <= i < found.len() implies (
                    #[trigger] found[i]).capabilities.chat by {
                        assert(target_outcome(targets[i], ordinary_request(), providers) is Ok);
                    }
                }
            }
        },
        Err(_) => {},
    }
}

proof fn lemma_all_targets(
    targets: Seq<Seq<char>>,
    providers: Seq<CustomProviderConfig>,
    n: int,
)
    requires
        0 <= n <= targets.len(),
    ensures
        targets_outcome(targets, providers, n) is Ok <==> forall|i: int|
            0 <= i < n ==> target_outcome(
                #[trigger] targets[i],
                ordinary_request(),
                providers,
            ) is Ok,
        targets_outcome(targets, providers, n) matches Ok(found) ==> found.len() == n && forall|
            i: int,
        |
            0 <= i < n ==> target_outcome(#[trigger] targets[i], ordinary_request(), providers)
                == Ok::<TargetModel, ErrorModel>(found[i]) && found[i].capabilities.tools
                && found[i].capabilities.chat,
    decreases n,
{
    if n > 0 {
        lemma_all_targets(targets, providers, n - 1);
        if targets_outcome(targets, providers, n) is Ok {
            let found = targets_outcome(targets, providers, n)->Ok_0;
            let init = targets_outcome(targets, providers, n - 1)->Ok_0;
            assert forall|i: int| 0 <= i < n implies target_outcome(
                #[trigger] targets[i],
                ordinary_request(),
                providers,
            ) == Ok::<TargetModel, ErrorModel>(found[i]) && found[i].capabilities.tools
                && found[i].capabilities.chat by {
                if i < n - 1 {
                    assert(found[i] == init[i]);
                }
            }
        }
    }
}

/// A selection stays where it is no local router, or where a router of its
/// identifier can be used; else a configured model takes its place wherever
/// there is one.
pub proof fn law_usable_selection_stays(
    current: Seq<char>,
    routers: Seq<RouterModel>,
    providers: Seq<CustomProviderConfig>,
    i: int,
    id: Seq<char>,
)
    ensures
        !text::starts_with(current, "custom-router:local:"@) ==> reconciled(
            current,
            routers,
            providers,
        ) == Some(current),
        0 <= i < routers.len() && routers[i].info.id == current && is_servable(
            routers[i],
            providers,
        ) ==> reconciled(current, routers, providers) == Some(current),
        is_concrete_offer(id, providers) ==> reconciled(current, routers, providers) is Some,
{
    if is_concrete_offer(id, providers) {
        let (a, b) = choose|a: int, b: int| #[trigger] offered_at(id, providers, a, b);
        lemma_first_concrete_found(providers, 0, a, b, id);
    }
}

proof fn lemma_first_concrete_found(
    providers: Seq<CustomProviderConfig>,
    from: int,
    a: int,
    b: int,
    id: Seq<char>,
)
    requires
        0 <= from <= a,
        offered_at(id, providers, a, b),
    ensures
        first_concrete(providers, from) is Some,
    decreases a - from,
{
    if from == a {
        let p = providers[a];
        assert(text::texts(p.models@)[b] == p.models@[b]@);
        lemma_first_model_found(p.name@, text::texts(p.models@), 0, b);
    } else {
        lemma_first_concrete_found(providers, from + 1, a, b, id);
    }
}

proof fn lemma_first_model_found(name: Seq<char>, models: Seq<Seq<char>>, from: int, b: int)
    requires
        0 <= from <= b < models.len(),
        concrete_parts(model_id_of(name, models[b])) is Some,
    ensures
        first_model(name, models, from) is Some,
    decreases b - from,
{
    if from < b {
        lemma_first_model_found(name, models, from + 1, b);
    }
}

/// Whether a target is read from what was written for it: without the white
/// space around it, and as none where nothing else is written.
pub open spec fn read_bucket(written: Option<String>, target: Option<Seq<char>>) -> bool {
    match written {
        Some(s) => if text::is_blank(s@) {
            target is None
        } else {
            target == Some(text::trimmed(s@))
        },
        None => target is None,
    }
}

/// A document is read as it says: its name and its targets without the white
/// space around them, each in its own place.
pub proof fn law_documents_say_what_they_route(
    document: RouterDocument,
    source: Option<(Seq<char>, Seq<char>)>,
    m: RouterModel,
)
    requires
        document_outcome(document, source) == Ok::<RouterModel, Seq<char>>(m),
    ensures
        m.info.display_name == text::trimmed(document.name@),
        document.default matches Some(default) && default_of(m.routing) == text::trimmed(default@),
        document.model_type@ == "complexity"@ <==> m.routing is Complexity,
        document.model_type@ == "prompt"@ <==> m.routing is Prompt,
        router_problem(m) is None,
        m.routing matches CustomModelRouting::Complexity(r) ==> match document.routing {
            RoutingSection::Absent => r.easy is None && r.medium is None && r.hard is None,
            RoutingSection::Present { buckets, .. } => buckets matches Ok(b) && read_bucket(
                b.easy,
                r.easy,
            ) && read_bucket(b.medium, r.medium) && read_bucket(b.hard, r.hard),
        },
        m.routing matches CustomModelRouting::Prompt(r) ==> match document.routing {
            RoutingSection::Absent => r.rules.len() == 0,
            RoutingSection::Present { rules, .. } => rules matches Ok(written) && r.rules.len()
                == written@.len() && forall|i: int|
                0 <= i < written@.len() ==> (#[trigger] r.rules[i]).description == text::trimmed(
                    written@[i].description@,
                ) && r.rules[i].model == text::trimmed(written@[i].model@) && r.rules[i].tokens
                    == meaningful(text::trimmed(written@[i].description@)),
        },
{
    reveal_strlit("complexity");
    reveal_strlit("prompt");
    assert("complexity"@.len() == 10 && "prompt"@.len() == 6);
    if let RoutingSection::Present { buckets, .. } = document.routing {
        if let Ok(b) = buckets {
            if b.easy is Some {
                text::lemma_trimmed_empty(b.easy->0@);
            }
            if b.medium is Some {
                text::lemma_trimmed_empty(b.medium->0@);
            }
            if b.hard is Some {
                text::lemma_trimmed_empty(b.hard->0@);
            }
        }
    }
}

/// What is written of a router says what it routes: each bucket under its own
/// name, each rule with its own model, and nothing where there is nothing.
pub proof fn law_written_routing_says_what_is_routed(
    section: OutputSection,
    routing: RoutingModel,
    i: int,
)
    requires
        section_model(section) == written_section(routing),
    ensures
        routing matches CustomModelRouting::Complexity(r) ==> (r.easy is None && r.medium is None
            && r.hard is None ==> section is Absent),
        routing matches CustomModelRouting::Complexity(r) ==> (!(r.easy is None && r.medium is None
            && r.hard is None) ==> (section matches OutputSection::Buckets(b) && text::text_opt(
            b.easy,
        ) == r.easy && text::text_opt(b.medium) == r.medium && text::text_opt(b.hard) == r.hard)),
        routing matches CustomModelRouting::Prompt(r) ==> (r.rules.len() == 0 ==> section
            is Absent),
        routing matches CustomModelRouting::Prompt(r) ==> (0 <= i < r.rules.len() ==> (section
            matches OutputSection::Rules(rules) && rules@.len() == r.rules.len()
            && rules@[i].description@ == r.rules[i].description && rules@[i].model@
            == r.rules[i].model)),
{
    match routing {
        CustomModelRouting::Complexity(r) => {},
        CustomModelRouting::Prompt(r) => {
            if 0 <= i < r.rules.len() {
                let written = Seq::new(
                    r.rules.len(),
                    |k: int| (r.rules[k].description, r.rules[k].model),
                );
                assert(section is Rules);
                let rules = section->Rules_0@;
                assert(rule_pairs(rules) == written);
                assert(rule_pairs(rules)[i] == written[i]);
                assert(rule_pairs(rules).len() == rules.len());
            }
        },
    }
}

} // verus!
