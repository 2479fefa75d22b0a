//! Which model serves a request: the choices of the user, of the profiles and
//! of each terminal, over the models on offer.

use crate::custom_model_routers;
use crate::custom_model_routers::{CustomModelRouter, RouterModel};
use crate::execution_profiles;
use crate::execution_profiles::{
    AIExecutionProfile, AIExecutionProfilesModel, AIExecutionProfilesModelEvent, ClientProfileId,
    ProfileEdit, ProfileModel, ProfilesModel, SyncId,
};
use crate::id_map::IdMap;
use crate::ids;
use crate::ids::EntityId;
use crate::json_text;
use crate::llms;
use crate::llms::{
    AvailableLLMs, AvailableModel, DisableReason, FeaturesModel, InfoModel, LLMId, LLMInfo,
    LLMProvider, ModelsByFeature,
};
use crate::providers::CustomProviderConfig;
use crate::text;
use vstd::prelude::*;

verus! {

/// What has happened to the preferences.
#[derive(Clone, Copy, Debug, PartialEq, Eq, Structural)]
pub enum LLMPreferencesEvent {
    UpdatedAvailableLLMs,
    UpdatedActiveAgentModeLLM,
    UpdatedActiveCodingLLM,
}

/// Whether the news about models is shown.
#[derive(Clone, Copy, Debug, PartialEq, Eq, Structural)]
pub enum UpdatePopupVisibilityState {
    WaitingToBeShown,
    Visible(EntityId),
    Hidden,
}

/// The models that came with the last update.
pub struct AvailableLLMsUpdate {
    new_choices: Vec<LLMInfo>,
    popup_visibility_state: UpdatePopupVisibilityState,
}

/// What the last update brought.
#[verifier::ext_equal]
pub struct UpdateModel {
    pub new_choices: Seq<InfoModel>,
    pub popup: UpdatePopupVisibilityState,
}

pub closed spec fn update_model(u: Option<AvailableLLMsUpdate>) -> Option<UpdateModel> {
    match u {
        Some(u) => Some(
            UpdateModel {
                new_choices: llms::infos(u.new_choices@),
                popup: u.popup_visibility_state,
            },
        ),
        None => None,
    }
}

/// The models on offer and what is chosen of them.
pub struct LLMPreferences {
    models_by_feature: ModelsByFeature,
    last_update: Option<AvailableLLMsUpdate>,
    base_llm_for_terminal_view: IdMap<LLMId>,
    custom_model_routers: Vec<CustomModelRouter>,
    default_computer_use: AvailableLLMs,
}

/// What is on offer and what is chosen of it.
#[verifier::ext_equal]
pub struct PreferencesModel {
    pub features: FeaturesModel,
    pub last_update: Option<UpdateModel>,
    /// The models that were chosen for a terminal against its profile.
    pub overrides: Map<usize, Seq<char>>,
    pub routers: Seq<RouterModel>,
}

pub open spec fn override_models(m: Map<usize, LLMId>) -> Map<usize, Seq<char>> {
    m.map_values(|id: LLMId| id@)
}

impl View for LLMPreferences {
    type V = PreferencesModel;

    closed spec fn view(&self) -> PreferencesModel {
        PreferencesModel {
            features: self.models_by_feature@,
            last_update: update_model(self.last_update),
            overrides: override_models(self.base_llm_for_terminal_view@),
            routers: custom_model_routers::router_models(self.custom_model_routers@),
        }
    }
}

/// The position of the first router of an identifier from a position on, or
/// their number.
pub open spec fn router_position(routers: Seq<RouterModel>, id: Seq<char>, from: int) -> int
    decreases routers.len() - from,
{
    if from >= routers.len() {
        routers.len() as int
    } else if routers[from].info.id == id {
        from
    } else {
        router_position(routers, id, from + 1)
    }
}

/// The first usable configured model from a position on, or the number of
/// models.
pub open spec fn usable_custom_position(choices: Seq<InfoModel>, from: int) -> int
    decreases choices.len() - from,
{
    if from >= choices.len() {
        choices.len() as int
    } else if choices[from].provider is Custom && llms::usable(choices[from]) {
        from
    } else {
        usable_custom_position(choices, from + 1)
    }
}

/// The models that an administrator has not disabled.
pub open spec fn shown_choices(choices: Seq<InfoModel>, n: int) -> Seq<InfoModel>
    decreases n,
{
    if n <= 0 {
        Seq::empty()
    } else {
        let init = shown_choices(choices, n - 1);
        if choices[n - 1].disable_reason == Some(DisableReason::AdminDisabled) {
            init
        } else {
            init.push(choices[n - 1])
        }
    }
}

/// The routers that can be chosen.
pub open spec fn router_choices(routers: Seq<RouterModel>, n: int) -> Seq<InfoModel>
    decreases n,
{
    if n <= 0 {
        Seq::empty()
    } else {
        let init = router_choices(routers, n - 1);
        if routers[n - 1].info.disable_reason is None {
            init.push(routers[n - 1].info)
        } else {
            init
        }
    }
}

/// The first of two, if there is one, or else the second.
pub open spec fn or_else(a: Option<InfoModel>, b: Option<InfoModel>) -> Option<InfoModel> {
    if a is Some {
        a
    } else {
        b
    }
}

impl PreferencesModel {
    pub open spec fn valid(self) -> bool {
        self.features.valid()
    }

    /// What is known of a router, if it can be used.
    pub open spec fn router_info(self, id: Seq<char>) -> Option<InfoModel> {
        let i = router_position(self.routers, id, 0);
        if i < self.routers.len() && self.routers[i].info.disable_reason is None {
            Some(self.routers[i].info)
        } else {
            None
        }
    }

    /// The usable model or router of an identifier.
    pub open spec fn chosen_info(self, available: AvailableModel, id: Seq<char>) -> Option<
        InfoModel,
    > {
        or_else(available.usable_info(id), self.router_info(id))
    }

    /// The model of agent mode of an identifier, if a configured provider
    /// offers it and it can be used.
    pub open spec fn custom_info(self, id: Seq<char>) -> Option<InfoModel> {
        match self.features.agent_mode.usable_info(id) {
            Some(info) => if info.provider is Custom {
                Some(info)
            } else {
                None
            },
            None => None,
        }
    }

    /// The model that serves where none is chosen: the default one if it can be
    /// used, or another one of the feature, or a configured one, or the default
    /// one all the same.
    pub open spec fn fallback(self, available: AvailableModel) -> InfoModel {
        let choices = self.features.agent_mode.choices;
        let custom = llms::model_at(choices, usable_custom_position(choices, 0));
        match or_else(available.usable_default(), custom) {
            Some(info) => info,
            None => available.default_info(),
        }
    }

    /// The model of a feature that a profile names, or else the fallback.
    pub open spec fn from_profile(self, available: AvailableModel, id: Option<Seq<char>>) -> InfoModel {
        match id {
            Some(id) => match self.chosen_info(available, id) {
                Some(info) => info,
                None => self.fallback(available),
            },
            None => self.fallback(available),
        }
    }

    /// The model that serves agent mode in a terminal.
    pub open spec fn base_model(self, profiles: ProfilesModel, view: Option<EntityId>) -> InfoModel {
        let available = self.features.agent_mode;
        let own = match view {
            Some(view) => if self.overrides.contains_key(view.0) {
                self.chosen_info(available, self.overrides[view.0])
            } else {
                None
            },
            None => None,
        };
        match own {
            Some(info) => info,
            None => self.from_profile(available, profiles.active_profile(view).data.base_model),
        }
    }

    /// The model that serves coding in a terminal.
    pub open spec fn coding_model(self, profiles: ProfilesModel, view: Option<EntityId>) -> InfoModel {
        self.from_profile(self.features.coding, profiles.active_profile(view).data.coding_model)
    }

    /// The model that serves the command-line agent in a terminal.
    pub open spec fn cli_agent_model(self, profiles: ProfilesModel, view: Option<EntityId>) -> InfoModel {
        let available = self.features.for_cli_agent();
        let own = match profiles.active_profile(view).data.cli_agent_model {
            Some(id) => available.usable_info(id),
            None => None,
        };
        match own {
            Some(info) => info,
            None => self.fallback(available),
        }
    }

    /// The model that serves computer use where none is chosen.
    pub open spec fn computer_use_default(self) -> InfoModel {
        let available = self.features.for_computer_use();
        match available.usable_default() {
            Some(info) => info,
            None => available.default_info(),
        }
    }

    /// The model that serves computer use in a terminal.
    pub open spec fn computer_use_model(self, profiles: ProfilesModel, view: Option<EntityId>) -> InfoModel {
        let own = match profiles.active_profile(view).data.computer_use_model {
            Some(id) => self.features.for_computer_use().usable_info(id),
            None => None,
        };
        match own {
            Some(info) => info,
            None => self.computer_use_default(),
        }
    }

    /// The model that a terminal's profile stands for.
    pub open spec fn profile_default(self, profiles: ProfilesModel, view: EntityId) -> Seq<char> {
        let available = self.features.agent_mode;
        let own = match profiles.active_profile(Some(view)).data.base_model {
            Some(id) => available.info(id),
            None => None,
        };
        match own {
            Some(info) => info.id,
            None => available.default_info().id,
        }
    }

    /// The preferences after a model was chosen for a terminal: the one that
    /// its profile stands for needs no mention.
    pub open spec fn choose_base(
        self,
        preferred: Seq<char>,
        profiles: ProfilesModel,
        view: EntityId,
    ) -> PreferencesModel {
        PreferencesModel {
            overrides: if preferred == self.profile_default(profiles, view) {
                self.overrides.remove(view.0)
            } else {
                self.overrides.insert(view.0, preferred)
            },
            ..self
        }
    }

    /// Whether that choice is news.
    pub open spec fn choice_is_news(
        self,
        preferred: Seq<char>,
        profiles: ProfilesModel,
        view: EntityId,
    ) -> bool {
        preferred != self.profile_default(profiles, view) || self.overrides.contains_key(view.0)
    }

    /// The preferences after a terminal took over another one's choice.
    pub open spec fn copy_choice(self, source: EntityId, target: EntityId) -> PreferencesModel {
        PreferencesModel {
            overrides: if self.overrides.contains_key(source.0) {
                self.overrides.insert(target.0, self.overrides[source.0])
            } else {
                self.overrides.remove(target.0)
            },
            ..self
        }
    }

    /// How a model is named in a profile's choice for coding: not at all where
    /// it is the default.
    pub open spec fn coding_choice(self, id: Seq<char>) -> Option<Seq<char>> {
        if id == self.features.coding.default_id {
            None
        } else {
            Some(id)
        }
    }

    /// Whether a popup about new models may be shown in a view.
    pub open spec fn shows_popup(self, view: EntityId) -> bool {
        match self.last_update {
            Some(update) => update.popup == UpdatePopupVisibilityState::WaitingToBeShown
                || update.popup == UpdatePopupVisibilityState::Visible(view),
            None => false,
        }
    }

    /// What a profile becomes when models have gone: choices that can no longer
    /// be served are cleared, and so is a context limit that no longer applies.
    pub open spec fn reconciled_profile(self, p: ProfileModel) -> ProfileModel {
        let base_id = match p.base_model {
            Some(id) => id,
            None => self.features.agent_mode.default_id,
        };
        let base = or_else(
            or_else(self.features.agent_mode.usable_info(base_id), self.custom_info(base_id)),
            self.router_info(base_id),
        );
        ProfileModel {
            base_model: if base is None {
                None
            } else {
                p.base_model
            },
            context_window_limit: if base is None || !base->0.context_window.is_configurable {
                None
            } else {
                p.context_window_limit
            },
            coding_model: self.kept(self.features.coding, p.coding_model),
            cli_agent_model: self.kept(self.features.for_cli_agent(), p.cli_agent_model),
            computer_use_model: match p.computer_use_model {
                Some(id) => if self.features.for_computer_use().usable_info(id) is Some {
                    Some(id)
                } else {
                    None
                },
                None => None,
            },
            ..p
        }
    }

    /// A choice for a feature, if it can still be served.
    pub open spec fn kept(self, available: AvailableModel, id: Option<Seq<char>>) -> Option<Seq<char>> {
        match id {
            Some(id) => if or_else(
                or_else(available.usable_info(id), self.custom_info(id)),
                self.router_info(id),
            ) is Some {
                Some(id)
            } else {
                None
            },
            None => None,
        }
    }
}

/// What has become of the choices of the terminals after routers have changed.
pub open spec fn reconciled_overrides(
    overrides: Map<usize, Seq<char>>,
    routers: Seq<RouterModel>,
    providers: Seq<CustomProviderConfig>,
) -> Map<usize, Seq<char>> {
    Map::new(
        |view: usize|
            overrides.contains_key(view) && custom_model_routers::reconciled(
                overrides[view],
                routers,
                providers,
            ) is Some,
        |view: usize|
            custom_model_routers::reconciled(overrides[view], routers, providers)->0,
    )
}

impl LLMPreferences {
    pub closed spec fn wf(&self) -> bool {
        &&& self.models_by_feature.wf()
        &&& self.base_llm_for_terminal_view.wf()
        &&& self.default_computer_use.wf()
        &&& self.default_computer_use@ == llms::hosted_computer_use()
        &&& self@.valid()
    }

    /// The preferences at the start: the models of the configured providers,
    /// and no choice of any terminal.
    pub fn new(providers: &[CustomProviderConfig], min_context_tokens: u32) -> (r: Self)
        ensures
            r.wf(),
            r@ == (PreferencesModel {
                features: llms::features_of(providers@, min_context_tokens),
                last_update: None,
                overrides: Map::empty(),
                routers: Seq::empty(),
            }),
    {
        let r = LLMPreferences {
            models_by_feature: llms::models_by_feature_from_custom_providers(
                providers,
                min_context_tokens,
            ),
            last_update: None,
            base_llm_for_terminal_view: IdMap::new(),
            custom_model_routers: Vec::new(),
            default_computer_use: llms::default_computer_use_llms(),
        };
        assert(r@.overrides =~= Map::empty());
        assert(r@.routers =~= Seq::empty());
        r
    }

    fn find_router(&self, id: &str) -> (r: usize)
        ensures
            r == router_position(self@.routers, id@, 0),
            r <= self.custom_model_routers.len(),
    {
        let ghost models = custom_model_routers::router_models(self.custom_model_routers@);
        let mut i: usize = 0;
        while i < self.custom_model_routers.len()
            invariant
                i <= self.custom_model_routers.len(),
                models == custom_model_routers::router_models(self.custom_model_routers@),
                router_position(models, id@, 0) == router_position(models, id@, i as int),
            decreases self.custom_model_routers.len() - i,
        {
            assert(models[i as int] == self.custom_model_routers@[i as int]@);
            if text::same_text(self.custom_model_routers[i].info.id.as_str(), id) {
                return i;
            }
            i += 1;
        }
        i
    }

    /// The router of an identifier.
    pub fn custom_model_router_for_id(&self, id: &LLMId) -> (r: Option<&CustomModelRouter>)
        ensures
            match r {
                Some(router) => router_position(self@.routers, id@, 0) < self@.routers.len()
                    && router@ == self@.routers[router_position(self@.routers, id@, 0)],
                None => router_position(self@.routers, id@, 0) == self@.routers.len(),
            },
    {
        let i: usize = self.find_router(id.as_str());
        if i < self.custom_model_routers.len() {
            assert(custom_model_routers::router_models(self.custom_model_routers@)[i as int]
                == self.custom_model_routers@[i as int]@);
            Some(&self.custom_model_routers[i])
        } else {
            None
        }
    }

    fn custom_router_llm_info_for_id(&self, id: &LLMId) -> (r: Option<&LLMInfo>)
        ensures
            llms::seen(r) == self@.router_info(id@),
    {
        match self.custom_model_router_for_id(id) {
            Some(router) => if router.info.disable_reason.is_none() {
                Some(&router.info)
            } else {
                None
            },
            None => None,
        }
    }

    fn model_info_for_id<'a>(&'a self, available: &'a AvailableLLMs, id: &LLMId) -> (r: Option<
        &'a LLMInfo,
    >)
        ensures
            llms::seen(r) == self@.chosen_info(available@, id@),
    {
        match available.usable_info_for_id(id) {
            Some(info) => Some(info),
            None => self.custom_router_llm_info_for_id(id),
        }
    }

    fn custom_llm_info_for_id_if_enabled(&self, id: &LLMId) -> (r: Option<&LLMInfo>)
        ensures
            llms::seen(r) == self@.custom_info(id@),
    {
        match self.models_by_feature.agent_mode.usable_info_for_id(id) {
            Some(info) => match &info.provider {
                LLMProvider::Custom(_) => Some(info),
                _ => None,
            },
            None => None,
        }
    }

    fn first_usable_custom(&self) -> (r: Option<&LLMInfo>)
        ensures
            llms::seen(r) == llms::model_at(
                self@.features.agent_mode.choices,
                usable_custom_position(self@.features.agent_mode.choices, 0),
            ),
    {
        let choices = self.models_by_feature.agent_mode.choices();
        let ghost models = llms::infos(choices@);
        let mut i: usize = 0;
        while i < choices.len()
            invariant
                i <= choices.len(),
                models == llms::infos(choices@),
                models == self@.features.agent_mode.choices,
                usable_custom_position(models, 0) == usable_custom_position(models, i as int),
            decreases choices.len() - i,
        {
            assert(models[i as int] == choices@[i as int]@);
            let custom = match &choices[i].provider {
                LLMProvider::Custom(_) => true,
                _ => false,
            };
            if custom && llms::is_usable_llm(&choices[i]) {
                return Some(&choices[i]);
            }
            i += 1;
        }
        None
    }

    fn fallback_llm_info<'a>(&'a self, available: &'a AvailableLLMs) -> (r: &'a LLMInfo)
        requires
            available.wf(),
        ensures
            r@ == self@.fallback(available@),
    {
        match available.usable_default_llm_info() {
            Some(info) => info,
            None => match self.first_usable_custom() {
                Some(info) => info,
                None => available.default_llm_info(),
            },
        }
    }

    fn info_from_profile<'a>(&'a self, available: &'a AvailableLLMs, id: &Option<LLMId>) -> (r:
        &'a LLMInfo)
        requires
            available.wf(),
        ensures
            r@ == self@.from_profile(available@, llms::id_opt(*id)),
    {
        match id {
            Some(id) => match self.model_info_for_id(available, id) {
                Some(info) => info,
                None => self.fallback_llm_info(available),
            },
            None => self.fallback_llm_info(available),
        }
    }

    /// The model that serves agent mode in a terminal: the one chosen there, or
    /// else the one of its profile, or else the fallback.
    pub fn get_active_base_model(
        &self,
        profiles: &AIExecutionProfilesModel,
        terminal_view_id: Option<EntityId>,
    ) -> (r: &LLMInfo)
        requires
            self.wf(),
            profiles.wf(),
        ensures
            r@ == self@.base_model(profiles@, terminal_view_id),
    {
        if let Some(view) = terminal_view_id {
            if let Some(id) = self.base_llm_for_terminal_view.get(view.0) {
                assert(self@.overrides[view.0] == id@);
                if let Some(info) = self.model_info_for_id(
                    &self.models_by_feature.agent_mode,
                    id,
                ) {
                    return info;
                }
            } else {
                assert(!self@.overrides.contains_key(view.0));
            }
        }
        let profile = profiles.active_profile(terminal_view_id);
        self.info_from_profile(&self.models_by_feature.agent_mode, &profile.data().base_model)
    }

    /// The model that serves coding in a terminal.
    pub fn get_active_coding_model(
        &self,
        profiles: &AIExecutionProfilesModel,
        terminal_view_id: Option<EntityId>,
    ) -> (r: &LLMInfo)
        requires
            self.wf(),
            profiles.wf(),
        ensures
            r@ == self@.coding_model(profiles@, terminal_view_id),
    {
        let profile = profiles.active_profile(terminal_view_id);
        self.info_from_profile(&self.models_by_feature.coding, &profile.data().coding_model)
    }

    fn get_cli_agent_available(&self) -> (r: &AvailableLLMs)
        requires
            self.wf(),
        ensures
            r@ == self@.features.for_cli_agent(),
            r.wf(),
    {
        match &self.models_by_feature.cli_agent {
            Some(available) => available,
            None => &self.models_by_feature.agent_mode,
        }
    }

    fn get_computer_use_available(&self) -> (r: &AvailableLLMs)
        requires
            self.wf(),
        ensures
            r@ == self@.features.for_computer_use(),
            r.wf(),
    {
        match &self.models_by_feature.computer_use {
            Some(available) => available,
            None => &self.default_computer_use,
        }
    }

    /// The model that serves the command-line agent in a terminal.
    pub fn get_active_cli_agent_model(
        &self,
        profiles: &AIExecutionProfilesModel,
        terminal_view_id: Option<EntityId>,
    ) -> (r: &LLMInfo)
        requires
            self.wf(),
            profiles.wf(),
        ensures
            r@ == self@.cli_agent_model(profiles@, terminal_view_id),
    {
        let profile = profiles.active_profile(terminal_view_id);
        let available = self.get_cli_agent_available();
        if let Some(id) = &profile.data().cli_agent_model {
            if let Some(info) = available.usable_info_for_id(id) {
                return info;
            }
        }
        self.fallback_llm_info(available)
    }

    pub fn get_default_cli_agent_model(&self) -> (r: &LLMInfo)
        requires
            self.wf(),
        ensures
            r@ == self@.fallback(self@.features.for_cli_agent()),
    {
        self.fallback_llm_info(self.get_cli_agent_available())
    }

    /// The model that serves computer use in a terminal.
    pub fn get_active_computer_use_model(
        &self,
        profiles: &AIExecutionProfilesModel,
        terminal_view_id: Option<EntityId>,
    ) -> (r: &LLMInfo)
        requires
            self.wf(),
            profiles.wf(),
        ensures
            r@ == self@.computer_use_model(profiles@, terminal_view_id),
    {
        let profile = profiles.active_profile(terminal_view_id);
        let available = self.get_computer_use_available();
        if let Some(id) = &profile.data().computer_use_model {
            if let Some(info) = available.usable_info_for_id(id) {
                return info;
            }
        }
        self.get_default_computer_use_model()
    }

    pub fn get_default_computer_use_model(&self) -> (r: &LLMInfo)
        requires
            self.wf(),
        ensures
            r@ == self@.computer_use_default(),
    {
        let available = self.get_computer_use_available();
        match available.usable_default_llm_info() {
            Some(info) => info,
            None => available.default_llm_info(),
        }
    }

    pub fn get_default_base_model(&self) -> (r: &LLMInfo)
        requires
            self.wf(),
        ensures
            r@ == self@.fallback(self@.features.agent_mode),
    {
        self.fallback_llm_info(&self.models_by_feature.agent_mode)
    }

    pub fn get_default_coding_model(&self) -> (r: &LLMInfo)
        requires
            self.wf(),
        ensures
            r@ == self@.fallback(self@.features.coding),
    {
        self.fallback_llm_info(&self.models_by_feature.coding)
    }

    /// The model preferred for Codex, if it is on offer.
    pub fn get_preferred_codex_model(&self) -> (r: Option<&LLMInfo>)
        ensures
            llms::seen(r) == (match self@.features.agent_mode.preferred_codex_model_id {
                Some(id) => self@.features.agent_mode.info(id),
                None => None,
            }),
    {
        match self.models_by_feature.agent_mode.preferred_codex_model_id() {
            Some(id) => self.models_by_feature.agent_mode.info_for_id(id),
            None => None,
        }
    }

    /// What is known of a model of agent mode or of a router.
    pub fn get_llm_info(&self, id: &LLMId) -> (r: Option<&LLMInfo>)
        ensures
            llms::seen(r) == or_else(self@.features.agent_mode.info(id@), self@.router_info(id@)),
    {
        match self.models_by_feature.info_for_id(id) {
            Some(info) => Some(info),
            None => self.custom_router_llm_info_for_id(id),
        }
    }

    /// Whether a model is on offer in agent mode.
    pub fn is_available_agent_mode_llm(&self, id: &LLMId) -> (r: bool)
        ensures
            r == self@.features.agent_mode.info(id@) is Some,
    {
        self.models_by_feature.agent_mode.info_for_id(id).is_some()
    }

    pub fn vision_supported(
        &self,
        profiles: &AIExecutionProfilesModel,
        terminal_view_id: Option<EntityId>,
    ) -> (r: bool)
        requires
            self.wf(),
            profiles.wf(),
        ensures
            r == self@.base_model(profiles@, terminal_view_id).vision_supported,
    {
        self.get_active_base_model(profiles, terminal_view_id).vision_supported
    }

    /// The routers that can be chosen.
    pub fn custom_router_choices(&self) -> (r: Vec<LLMInfo>)
        ensures
            llms::infos(r@) == router_choices(self@.routers, self@.routers.len() as int),
    {
        let ghost models = custom_model_routers::router_models(self.custom_model_routers@);
        let mut out: Vec<LLMInfo> = Vec::new();
        let mut i: usize = 0;
        assert(llms::infos(out@) =~= Seq::<InfoModel>::empty());
        while i < self.custom_model_routers.len()
            invariant
                i <= self.custom_model_routers.len(),
                models == custom_model_routers::router_models(self.custom_model_routers@),
                llms::infos(out@) == router_choices(models, i as int),
            decreases self.custom_model_routers.len() - i,
        {
            let info = &self.custom_model_routers[i].info;
            assert(models[i as int].info == info@);
            if info.disable_reason.is_none() {
                let ghost before = llms::infos(out@);
                out.push(info.clone());
                assert(llms::infos(out@) =~= before.push(info@));
            }
            i += 1;
        }
        out
    }

    fn choices_with_routers(&self, available: &AvailableLLMs) -> (r: Vec<LLMInfo>)
        ensures
            llms::infos(r@) == shown_choices(
                available@.choices,
                available@.choices.len() as int,
            ) + router_choices(self@.routers, self@.routers.len() as int),
    {
        let choices = available.choices();
        let ghost models = llms::infos(choices@);
        let mut out: Vec<LLMInfo> = Vec::new();
        let mut i: usize = 0;
        assert(llms::infos(out@) =~= Seq::<InfoModel>::empty());
        while i < choices.len()
            invariant
                i <= choices.len(),
                models == llms::infos(choices@),
                llms::infos(out@) == shown_choices(models, i as int),
            decreases choices.len() - i,
        {
            assert(models[i as int] == choices@[i as int]@);
            let hidden = match choices[i].disable_reason {
                Some(DisableReason::AdminDisabled) => true,
                _ => false,
            };
            if !hidden {
                let ghost before = llms::infos(out@);
                out.push(choices[i].clone());
                assert(llms::infos(out@) =~= before.push(choices@[i as int]@));
            }
            i += 1;
        }
        let routers = self.custom_router_choices();
        let ghost head = llms::infos(out@);
        let ghost tail = llms::infos(routers@);
        let mut k: usize = 0;
        assert(head + tail.subrange(0, 0) =~= head);
        while k < routers.len()
            invariant
                k <= routers.len(),
                tail == llms::infos(routers@),
                llms::infos(out@) == head + tail.subrange(0, k as int),
            decreases routers.len() - k,
        {
            let ghost before = llms::infos(out@);
            out.push(routers[k].clone());
            assert(llms::infos(out@) =~= before.push(routers@[k as int]@));
            k += 1;
            assert(head + tail.subrange(0, k as int) =~= (head + tail.subrange(0, k - 1)).push(
                tail[k - 1],
            ));
        }
        assert(tail.subrange(0, tail.len() as int) =~= tail);
        out
    }

    /// The models and routers to choose from for agent mode.
    pub fn get_base_llm_choices_for_agent_mode(&self) -> (r: Vec<LLMInfo>)
        ensures
            llms::infos(r@) == shown_choices(
                self@.features.agent_mode.choices,
                self@.features.agent_mode.choices.len() as int,
            ) + router_choices(self@.routers, self@.routers.len() as int),
    {
        self.choices_with_routers(&self.models_by_feature.agent_mode)
    }

    /// The models and routers to choose from for coding.
    pub fn get_coding_llm_choices(&self) -> (r: Vec<LLMInfo>)
        ensures
            llms::infos(r@) == shown_choices(
                self@.features.coding.choices,
                self@.features.coding.choices.len() as int,
            ) + router_choices(self@.routers, self@.routers.len() as int),
    {
        self.choices_with_routers(&self.models_by_feature.coding)
    }

    /// The models to choose from for the command-line agent.
    pub fn get_cli_agent_llm_choices(&self) -> (r: &Vec<LLMInfo>)
        requires
            self.wf(),
        ensures
            llms::infos(r@) == self@.features.for_cli_agent().choices,
    {
        self.get_cli_agent_available().choices()
    }

    /// The models to choose from for computer use.
    pub fn get_computer_use_llm_choices(&self) -> (r: &Vec<LLMInfo>)
        requires
            self.wf(),
        ensures
            llms::infos(r@) == self@.features.for_computer_use().choices,
    {
        self.get_computer_use_available().choices()
    }

    // -----------------------------------------------------------------------
    // Choices.

    /// Chooses a model for agent mode in a terminal, and says whether that is
    /// news: then the choice is to be saved.
    pub fn update_preferred_agent_mode_llm(
        &mut self,
        preferred_llm_id: &LLMId,
        terminal_view_id: EntityId,
        profiles: &AIExecutionProfilesModel,
    ) -> (changed: bool)
        requires
            old(self).wf(),
            profiles.wf(),
        ensures
            final(self).wf(),
            final(self)@ == old(self)@.choose_base(
                preferred_llm_id@,
                profiles@,
                terminal_view_id,
            ),
            changed == old(self)@.choice_is_news(
                preferred_llm_id@,
                profiles@,
                terminal_view_id,
            ),
    {
        let ghost before = self@;
        let ghost old_map = self.base_llm_for_terminal_view@;
        let profile = profiles.active_profile(Some(terminal_view_id));
        let available = &self.models_by_feature.agent_mode;
        let own = match &profile.data().base_model {
            Some(id) => available.info_for_id(id),
            None => None,
        };
        let default_info = match own {
            Some(info) => info,
            None => available.default_llm_info(),
        };
        assert(default_info@.id == before.profile_default(profiles@, terminal_view_id));
        let is_default = preferred_llm_id.same(&default_info.id);
        if is_default {
            let changed = self.base_llm_for_terminal_view.remove(terminal_view_id.0);
            proof {
                assert(override_models(self.base_llm_for_terminal_view@) =~= override_models(
                    old_map,
                ).remove(terminal_view_id.0));
                assert(self@ =~= before.choose_base(
                    preferred_llm_id@,
                    profiles@,
                    terminal_view_id,
                ));
            }
            changed
        } else {
            let id = preferred_llm_id.clone();
            self.base_llm_for_terminal_view.insert(terminal_view_id.0, id);
            proof {
                assert(override_models(self.base_llm_for_terminal_view@) =~= override_models(
                    old_map,
                ).insert(terminal_view_id.0, preferred_llm_id@));
                assert(self@ =~= before.choose_base(
                    preferred_llm_id@,
                    profiles@,
                    terminal_view_id,
                ));
            }
            true
        }
    }

    /// Gives a terminal the choice of another one, and says whether that
    /// changes anything.
    pub fn copy_agent_mode_selection(
        &mut self,
        source_terminal_view_id: EntityId,
        new_terminal_view_id: EntityId,
    ) -> (changed: bool)
        requires
            old(self).wf(),
        ensures
            final(self).wf(),
            final(self)@ == old(self)@.copy_choice(
                source_terminal_view_id,
                new_terminal_view_id,
            ),
            changed == (final(self)@.overrides != old(self)@.overrides),
    {
        let ghost before = self@;
        let ghost old_map = self.base_llm_for_terminal_view@;
        let source = match self.base_llm_for_terminal_view.get(source_terminal_view_id.0) {
            Some(id) => {
                assert(before.overrides[source_terminal_view_id.0] == id@);
                Some(id.clone())
            },
            None => {
                assert(!before.overrides.contains_key(source_terminal_view_id.0));
                None
            },
        };
        match source {
            Some(id) => {
                let ghost chosen = id@;
                let same = match self.base_llm_for_terminal_view.get(new_terminal_view_id.0) {
                    Some(old_id) => {
                        assert(before.overrides[new_terminal_view_id.0] == old_id@);
                        old_id.same(&id)
                    },
                    None => {
                        assert(!before.overrides.contains_key(new_terminal_view_id.0));
                        false
                    },
                };
                self.base_llm_for_terminal_view.insert(new_terminal_view_id.0, id);
                proof {
                    assert(override_models(self.base_llm_for_terminal_view@) =~= override_models(
                        old_map,
                    ).insert(new_terminal_view_id.0, chosen));
                    assert(self@ =~= before.copy_choice(
                        source_terminal_view_id,
                        new_terminal_view_id,
                    ));
                    if same {
                        assert(self@.overrides =~= before.overrides);
                    } else {
                        assert(self@.overrides[new_terminal_view_id.0] == chosen);
                        assert(self@.overrides.contains_key(new_terminal_view_id.0));
                    }
                }
                !same
            },
            None => {
                let removed = self.base_llm_for_terminal_view.remove(new_terminal_view_id.0);
                proof {
                    assert(override_models(self.base_llm_for_terminal_view@) =~= override_models(
                        old_map,
                    ).remove(new_terminal_view_id.0));
                    assert(self@ =~= before.copy_choice(
                        source_terminal_view_id,
                        new_terminal_view_id,
                    ));
                    if !removed {
                        assert(self@.overrides =~= before.overrides);
                    } else {
                        assert(before.overrides.contains_key(new_terminal_view_id.0));
                        assert(!self@.overrides.contains_key(new_terminal_view_id.0));
                    }
                }
                removed
            },
        }
    }

    /// Forgets the choice of a terminal, and says whether there was one.
    pub fn remove_llm_override(&mut self, terminal_view_id: EntityId) -> (changed: bool)
        requires
            old(self).wf(),
        ensures
            final(self).wf(),
            final(self)@ == (PreferencesModel {
                overrides: old(self)@.overrides.remove(terminal_view_id.0),
                ..old(self)@
            }),
            changed == old(self)@.overrides.contains_key(terminal_view_id.0),
    {
        let ghost old_map = self.base_llm_for_terminal_view@;
        let changed = self.base_llm_for_terminal_view.remove(terminal_view_id.0);
        assert(override_models(self.base_llm_for_terminal_view@) =~= override_models(
            old_map,
        ).remove(terminal_view_id.0));
        changed
    }

    /// The choice of a terminal as JSON, if there is one.
    pub fn get_base_llm_override(&self, terminal_view_id: EntityId) -> (r: Option<String>)
        requires
            self.wf(),
        ensures
            text::text_opt(r) == (if self@.overrides.contains_key(terminal_view_id.0) {
                Some(json_text::json_string(self@.overrides[terminal_view_id.0]))
            } else {
                None
            }),
    {
        match self.base_llm_for_terminal_view.get(terminal_view_id.0) {
            Some(id) => {
                assert(self@.overrides[terminal_view_id.0] == id@);
                Some(json_text::write_string(id.as_str()))
            },
            None => {
                assert(!self@.overrides.contains_key(terminal_view_id.0));
                None
            },
        }
    }

    /// Chooses the model for coding in the profile of a terminal, and says
    /// whether that is a new choice and what happened to the profile. The
    /// default needs no mention.
    pub fn update_preferred_coding_llm(
        &self,
        preferred_llm_id: &LLMId,
        terminal_view_id: Option<EntityId>,
        profiles: &mut AIExecutionProfilesModel,
    ) -> (r: (bool, Option<AIExecutionProfilesModelEvent>))
        requires
            self.wf(),
            old(profiles).wf(),
        ensures
            final(profiles).wf(),
            r.0 == (old(profiles)@.active_profile(terminal_view_id).data.coding_model
                != self@.coding_choice(preferred_llm_id@)),
            if r.0 {
                execution_profiles::edit_happened(
                    old(profiles)@,
                    final(profiles)@,
                    old(profiles)@.active_profile(terminal_view_id).id,
                    ProfileEdit::CodingModel(self@.coding_choice(preferred_llm_id@)),
                    r.1,
                )
            } else {
                final(profiles)@ == old(profiles)@ && r.1 is None
            },
    {
        let wanted = if preferred_llm_id.same(self.models_by_feature.coding.default_id()) {
            None
        } else {
            Some(preferred_llm_id.clone())
        };
        let profile = profiles.active_profile(terminal_view_id);
        if llms::same_id_opt(&profile.data().coding_model, &wanted) {
            return (false, None);
        }
        let event = profiles.set_coding_model(*profile.id(), wanted);
        (true, event)
    }

    // -----------------------------------------------------------------------
    // News about models.

    /// The new models of the last update, without the ones of the house brand.
    pub fn new_choices_since_last_update(&self) -> (r: Option<Vec<LLMInfo>>)
        ensures
            match r {
                Some(list) => self@.last_update matches Some(update) && llms::infos(list@)
                    == news_of(update.new_choices, update.new_choices.len() as int),
                None => self@.last_update is None,
            },
    {
        match &self.last_update {
            None => None,
            Some(update) => {
                let ghost models = llms::infos(update.new_choices@);
                let mut out: Vec<LLMInfo> = Vec::new();
                let mut i: usize = 0;
                assert(llms::infos(out@) =~= Seq::<InfoModel>::empty());
                while i < update.new_choices.len()
                    invariant
                        i <= update.new_choices.len(),
                        models == llms::infos(update.new_choices@),
                        llms::infos(out@) == news_of(models, i as int),
                    decreases update.new_choices.len() - i,
                {
                    let info = &update.new_choices[i];
                    assert(models[i as int] == info@);
                    if !text::str_starts_with(info.display_name.as_str(), "lite") {
                        let ghost before = llms::infos(out@);
                        out.push(info.clone());
                        assert(llms::infos(out@) =~= before.push(info@));
                    }
                    i += 1;
                }
                Some(out)
            },
        }
    }

    pub fn should_show_new_choices_popup(&self, view_id: EntityId) -> (r: bool)
        ensures
            r == self@.shows_popup(view_id),
    {
        match &self.last_update {
            None => false,
            Some(update) => match update.popup_visibility_state {
                UpdatePopupVisibilityState::WaitingToBeShown => true,
                UpdatePopupVisibilityState::Visible(id) => id == view_id,
                UpdatePopupVisibilityState::Hidden => false,
            },
        }
    }

    /// Notes that the popup is shown in a view, if it was waiting for one.
    pub fn mark_new_choices_popup_as_shown(&mut self, view_id: EntityId)
        requires
            old(self).wf(),
        ensures
            final(self).wf(),
            final(self)@ == (PreferencesModel {
                last_update: match old(self)@.last_update {
                    Some(update) => if update.popup
                        == UpdatePopupVisibilityState::WaitingToBeShown {
                        Some(
                            UpdateModel {
                                popup: UpdatePopupVisibilityState::Visible(view_id),
                                ..update
                            },
                        )
                    } else {
                        Some(update)
                    },
                    None => None,
                },
                ..old(self)@
            }),
    {
        let mut last: Option<AvailableLLMsUpdate> = None;
        std::mem::swap(&mut last, &mut self.last_update);
        if let Some(update) = last {
            let popup = match update.popup_visibility_state {
                UpdatePopupVisibilityState::WaitingToBeShown => UpdatePopupVisibilityState::Visible(
                    view_id,
                ),
                other => other,
            };
            self.last_update = Some(
                AvailableLLMsUpdate {
                    new_choices: update.new_choices,
                    popup_visibility_state: popup,
                },
            );
        }
    }

    /// Hides the popup, if the view may show it.
    pub fn hide_llm_popup(&mut self, view_id: EntityId)
        requires
            old(self).wf(),
        ensures
            final(self).wf(),
            final(self)@ == (PreferencesModel {
                last_update: match old(self)@.last_update {
                    Some(update) => if old(self)@.shows_popup(view_id) {
                        Some(UpdateModel { popup: UpdatePopupVisibilityState::Hidden, ..update })
                    } else {
                        Some(update)
                    },
                    None => None,
                },
                ..old(self)@
            }),
    {
        if !self.should_show_new_choices_popup(view_id) {
            return;
        }
        let mut last: Option<AvailableLLMsUpdate> = None;
        std::mem::swap(&mut last, &mut self.last_update);
        if let Some(update) = last {
            self.last_update = Some(
                AvailableLLMsUpdate {
                    new_choices: update.new_choices,
                    popup_visibility_state: UpdatePopupVisibilityState::Hidden,
                },
            );
        }
    }
}

/// The new models that are worth telling.
pub open spec fn news_of(choices: Seq<InfoModel>, n: int) -> Seq<InfoModel>
    decreases n,
{
    if n <= 0 {
        Seq::empty()
    } else {
        let init = news_of(choices, n - 1);
        if text::starts_with(choices[n - 1].display_name, "lite"@) {
            init
        } else {
            init.push(choices[n - 1])
        }
    }
}

// ---------------------------------------------------------------------------
// Updates.

/// The routers with what the catalogue says of them.
pub open spec fn catalogued(
    routers: Seq<RouterModel>,
    providers: Seq<CustomProviderConfig>,
    min_context_tokens: u32,
) -> Seq<RouterModel> {
    Seq::new(
        routers.len(),
        |i: int|
            RouterModel {
                info: custom_model_routers::catalog_entry(
                    routers[i],
                    providers,
                    min_context_tokens,
                ).info,
                ..routers[i]
            },
    )
}

/// Whether one profile was reconciled with the models on offer.
pub open spec fn profile_reconciled(
    m: PreferencesModel,
    before: ProfilesModel,
    after: ProfilesModel,
    id: ClientProfileId,
) -> bool {
    match before.profile(id) {
        None => after.profile(id) is None,
        Some(info) => {
            let data = if before.editable(id) {
                m.reconciled_profile(info.data)
            } else {
                info.data
            };
            &&& after.profile(id) is Some
            &&& after.profile(id)->0.data == data
            &&& execution_profiles::identity_kept(
                info.sync_id,
                after.profile(id)->0.sync_id,
                data != info.data,
            )
        },
    }
}

/// How many choices one state of a profile has cleared of another.
#[verifier::opaque]
pub open spec fn cleared(before: ProfileModel, after: ProfileModel) -> nat {
    one_if(after.base_model != before.base_model) + one_if(
        after.context_window_limit != before.context_window_limit,
    ) + one_if(after.coding_model != before.coding_model) + one_if(
        after.cli_agent_model != before.cli_agent_model,
    ) + one_if(after.computer_use_model != before.computer_use_model)
}

pub open spec fn one_if(b: bool) -> nat {
    if b {
        1
    } else {
        0
    }
}

/// How often an update of a profile is told.
pub open spec fn times(events: Seq<AIExecutionProfilesModelEvent>, id: ClientProfileId) -> nat
    decreases events.len(),
{
    if events.len() == 0 {
        0
    } else {
        times(events.drop_last(), id) + one_if(
            events.last() == AIExecutionProfilesModelEvent::ProfileUpdated(id),
        )
    }
}

/// How often reconciling tells of a profile: once for every choice that it
/// clears.
pub open spec fn updates_of(m: PreferencesModel, before: ProfilesModel, id: ClientProfileId) -> nat {
    match before.profile(id) {
        Some(info) if before.editable(id) => cleared(info.data, m.reconciled_profile(info.data)),
        _ => 0,
    }
}

/// Whether that is what reconciling tells, in some order of the profiles.
pub open spec fn updates_told(
    m: PreferencesModel,
    before: ProfilesModel,
    events: Seq<AIExecutionProfilesModelEvent>,
) -> bool {
    &&& forall|i: int| 0 <= i < events.len() ==> (#[trigger] events[i]) is ProfileUpdated
    &&& forall|id: ClientProfileId| #[trigger] times(events, id) == updates_of(m, before, id)
}

/// Whether every profile was reconciled with the models on offer, and nothing
/// else happened.
pub open spec fn profiles_reconciled(
    m: PreferencesModel,
    before: ProfilesModel,
    after: ProfilesModel,
) -> bool {
    &&& execution_profiles::default_id(after.default) == execution_profiles::default_id(
        before.default,
    )
    &&& after.active == before.active
    &&& after.next == before.next
    &&& forall|id: ClientProfileId| #[trigger] profile_reconciled(m, before, after, id)
}

/// Which choices of a profile are to be cleared.
#[derive(Clone, Copy)]
struct ProfileResets {
    base_model: bool,
    context_window_limit: bool,
    coding_model: bool,
    cli_agent_model: bool,
    computer_use_model: bool,
}

/// A profile without the choices that are to be cleared.
#[verifier::opaque]
spec fn reset_profile(p: ProfileModel, resets: ProfileResets) -> ProfileModel {
    ProfileModel {
        base_model: if resets.base_model {
            None
        } else {
            p.base_model
        },
        context_window_limit: if resets.context_window_limit {
            None
        } else {
            p.context_window_limit
        },
        coding_model: if resets.coding_model {
            None
        } else {
            p.coding_model
        },
        cli_agent_model: if resets.cli_agent_model {
            None
        } else {
            p.cli_agent_model
        },
        computer_use_model: if resets.computer_use_model {
            None
        } else {
            p.computer_use_model
        },
        ..p
    }
}

/// Whether a change of one profile gave it this data and did nothing else.
#[verifier::opaque]
spec fn became(
    before: ProfilesModel,
    after: ProfilesModel,
    id: ClientProfileId,
    data: ProfileModel,
) -> bool {
    &&& same_but_for(before, after, id)
    &&& before.profile(id) is None ==> after.profile(id) is None
    &&& before.profile(id) matches Some(info) ==> after.profile(id) is Some && after.profile(
        id,
    )->0.data == (if before.editable(id) {
        data
    } else {
        info.data
    }) && execution_profiles::identity_kept(
        info.sync_id,
        after.profile(id)->0.sync_id,
        before.editable(id) && data != info.data,
    )
}

/// Whether an update of a profile was told so many times more.
#[verifier::opaque]
spec fn told(
    before: Seq<AIExecutionProfilesModelEvent>,
    after: Seq<AIExecutionProfilesModelEvent>,
    id: ClientProfileId,
    n: nat,
) -> bool {
    after == before + Seq::new(n, |i: int| AIExecutionProfilesModelEvent::ProfileUpdated(id))
}

/// How often a change of a profile to this data is told.
#[verifier::opaque]
spec fn owed(m: ProfilesModel, id: ClientProfileId, data: ProfileModel) -> nat {
    if m.profile(id) is Some && m.editable(id) {
        cleared(m.profile(id)->0.data, data)
    } else {
        0
    }
}

proof fn lemma_told(
    a: Seq<AIExecutionProfilesModelEvent>,
    b: Seq<AIExecutionProfilesModelEvent>,
    c: Seq<AIExecutionProfilesModelEvent>,
    id: ClientProfileId,
    n: nat,
    k: nat,
)
    requires
        told(a, b, id, n),
        told(b, c, id, k),
    ensures
        told(a, c, id, n + k),
{
    reveal(told);
    assert(c =~= a + Seq::new(
        n + k,
        |i: int| AIExecutionProfilesModelEvent::ProfileUpdated(id),
    ));
}

proof fn lemma_times(
    a: Seq<AIExecutionProfilesModelEvent>,
    b: Seq<AIExecutionProfilesModelEvent>,
    id: ClientProfileId,
    n: nat,
    other: ClientProfileId,
)
    requires
        told(a, b, id, n),
    ensures
        times(b, other) == times(a, other) + (if other == id {
            n
        } else {
            0
        }),
    decreases n,
{
    reveal(told);
    if n == 0 {
        assert(b =~= a);
    } else {
        let c = a + Seq::new(
            (n - 1) as nat,
            |i: int| AIExecutionProfilesModelEvent::ProfileUpdated(id),
        );
        assert(b.drop_last() =~= c);
        assert(b.last() == AIExecutionProfilesModelEvent::ProfileUpdated(id));
        lemma_times(a, c, id, (n - 1) as nat, other);
    }
}

/// The data of a profile that exists.
#[verifier::opaque]
spec fn data_of(m: ProfilesModel, id: ClientProfileId) -> ProfileModel {
    m.profile(id)->0.data
}

fn clear_base_model(
    profiles: &mut AIExecutionProfilesModel,
    id: ClientProfileId,
    wanted: bool,
    events: &mut Vec<AIExecutionProfilesModelEvent>,
)
    requires
        old(profiles).wf(),
        old(profiles)@.valid(),
    ensures
        final(profiles).wf(),
        final(profiles)@.valid(),
        ({
            let data = reset_profile(
                data_of(old(profiles)@, id),
                ProfileResets { base_model: wanted, ..no_resets() },
            );
            &&& became(old(profiles)@, final(profiles)@, id, data)
            &&& told(old(events)@, final(events)@, id, owed(old(profiles)@, id, data))
        }),
{
    proof {
        reveal(became);
        reveal(data_of);
        reveal(reset_profile);
        reveal(owed);
        reveal(cleared);
    }
    edit_if(profiles, id, wanted, ProfileEdit::BaseModel(None), events);
}

fn clear_context_window_limit(
    profiles: &mut AIExecutionProfilesModel,
    id: ClientProfileId,
    wanted: bool,
    events: &mut Vec<AIExecutionProfilesModelEvent>,
)
    requires
        old(profiles).wf(),
        old(profiles)@.valid(),
    ensures
        final(profiles).wf(),
        final(profiles)@.valid(),
        ({
            let data = reset_profile(
                data_of(old(profiles)@, id),
                ProfileResets { context_window_limit: wanted, ..no_resets() },
            );
            &&& became(old(profiles)@, final(profiles)@, id, data)
            &&& told(old(events)@, final(events)@, id, owed(old(profiles)@, id, data))
        }),
{
    proof {
        reveal(became);
        reveal(data_of);
        reveal(reset_profile);
        reveal(owed);
        reveal(cleared);
    }
    edit_if(profiles, id, wanted, ProfileEdit::ContextWindowLimit(None), events);
}

fn clear_coding_model(
    profiles: &mut AIExecutionProfilesModel,
    id: ClientProfileId,
    wanted: bool,
    events: &mut Vec<AIExecutionProfilesModelEvent>,
)
    requires
        old(profiles).wf(),
        old(profiles)@.valid(),
    ensures
        final(profiles).wf(),
        final(profiles)@.valid(),
        ({
            let data = reset_profile(
                data_of(old(profiles)@, id),
                ProfileResets { coding_model: wanted, ..no_resets() },
            );
            &&& became(old(profiles)@, final(profiles)@, id, data)
            &&& told(old(events)@, final(events)@, id, owed(old(profiles)@, id, data))
        }),
{
    proof {
        reveal(became);
        reveal(data_of);
        reveal(reset_profile);
        reveal(owed);
        reveal(cleared);
    }
    edit_if(profiles, id, wanted, ProfileEdit::CodingModel(None), events);
}

fn clear_cli_agent_model(
    profiles: &mut AIExecutionProfilesModel,
    id: ClientProfileId,
    wanted: bool,
    events: &mut Vec<AIExecutionProfilesModelEvent>,
)
    requires
        old(profiles).wf(),
        old(profiles)@.valid(),
    ensures
        final(profiles).wf(),
        final(profiles)@.valid(),
        ({
            let data = reset_profile(
                data_of(old(profiles)@, id),
                ProfileResets { cli_agent_model: wanted, ..no_resets() },
            );
            &&& became(old(profiles)@, final(profiles)@, id, data)
            &&& told(old(events)@, final(events)@, id, owed(old(profiles)@, id, data))
        }),
{
    proof {
        reveal(became);
        reveal(data_of);
        reveal(reset_profile);
        reveal(owed);
        reveal(cleared);
    }
    edit_if(profiles, id, wanted, ProfileEdit::CliAgentModel(None), events);
}

fn clear_computer_use_model(
    profiles: &mut AIExecutionProfilesModel,
    id: ClientProfileId,
    wanted: bool,
    events: &mut Vec<AIExecutionProfilesModelEvent>,
)
    requires
        old(profiles).wf(),
        old(profiles)@.valid(),
    ensures
        final(profiles).wf(),
        final(profiles)@.valid(),
        ({
            let data = reset_profile(
                data_of(old(profiles)@, id),
                ProfileResets { computer_use_model: wanted, ..no_resets() },
            );
            &&& became(old(profiles)@, final(profiles)@, id, data)
            &&& told(old(events)@, final(events)@, id, owed(old(profiles)@, id, data))
        }),
{
    proof {
        reveal(became);
        reveal(data_of);
        reveal(reset_profile);
        reveal(owed);
        reveal(cleared);
    }
    edit_if(profiles, id, wanted, ProfileEdit::ComputerUseModel(None), events);
}

fn apply_resets(
    profiles: &mut AIExecutionProfilesModel,
    id: ClientProfileId,
    resets: ProfileResets,
    events: &mut Vec<AIExecutionProfilesModelEvent>,
)
    requires
        old(profiles).wf(),
        old(profiles)@.valid(),
    ensures
        final(profiles).wf(),
        final(profiles)@.valid(),
        ({
            let data = reset_profile(data_of(old(profiles)@, id), resets);
            &&& became(old(profiles)@, final(profiles)@, id, data)
            &&& told(old(events)@, final(events)@, id, owed(old(profiles)@, id, data))
        }),
{
    let ghost p0 = profiles@;
    let ghost e0 = events@;
    clear_base_model(profiles, id, resets.base_model, events);
    let ghost p1 = profiles@;
    let ghost e1 = events@;
    clear_context_window_limit(profiles, id, resets.context_window_limit, events);
    let ghost p2 = profiles@;
    let ghost e2 = events@;
    clear_coding_model(profiles, id, resets.coding_model, events);
    let ghost p3 = profiles@;
    let ghost e3 = events@;
    clear_cli_agent_model(profiles, id, resets.cli_agent_model, events);
    let ghost p4 = profiles@;
    let ghost e4 = events@;
    clear_computer_use_model(profiles, id, resets.computer_use_model, events);
    proof {
        let p5 = profiles@;
        let e5 = events@;
        let p = data_of(p0, id);
        let d1 = reset_profile(
            p,
            ProfileResets { base_model: resets.base_model, ..no_resets() },
        );
        let d2 = reset_profile(
            data_of(p1, id),
            ProfileResets { context_window_limit: resets.context_window_limit, ..no_resets() },
        );
        let d3 = reset_profile(
            data_of(p2, id),
            ProfileResets { coding_model: resets.coding_model, ..no_resets() },
        );
        let d4 = reset_profile(
            data_of(p3, id),
            ProfileResets { cli_agent_model: resets.cli_agent_model, ..no_resets() },
        );
        let d5 = reset_profile(
            data_of(p4, id),
            ProfileResets { computer_use_model: resets.computer_use_model, ..no_resets() },
        );
        lemma_resets_compose(p, resets);
        lemma_became_data(p0, p1, id, d1);
        lemma_became(p0, p1, p2, id, d1, d2);
        lemma_became_data(p0, p2, id, d2);
        lemma_became(p0, p2, p3, id, d2, d3);
        lemma_became_data(p0, p3, id, d3);
        lemma_became(p0, p3, p4, id, d3, d4);
        lemma_became_data(p0, p4, id, d4);
        lemma_became(p0, p4, p5, id, d4, d5);
        lemma_became_same(p0, p5, id, d5, reset_profile(p, resets));
        let (n1, n2, n3, n4, n5) = (
            owed(p0, id, d1),
            owed(p1, id, d2),
            owed(p2, id, d3),
            owed(p3, id, d4),
            owed(p4, id, d5),
        );
        lemma_told(e0, e1, e2, id, n1, n2);
        lemma_told(e0, e2, e3, id, n1 + n2, n3);
        lemma_told(e0, e3, e4, id, n1 + n2 + n3, n4);
        lemma_told(e0, e4, e5, id, n1 + n2 + n3 + n4, n5);
        lemma_owed(p0, id, d1);
        lemma_owed(p1, id, d2);
        lemma_owed(p2, id, d3);
        lemma_owed(p3, id, d4);
        lemma_owed(p4, id, d5);
        lemma_owed(p0, id, reset_profile(p, resets));
    }
}

proof fn lemma_resets_compose(p: ProfileModel, resets: ProfileResets)
    ensures
        ({
            let d1 = reset_profile(
                p,
                ProfileResets { base_model: resets.base_model, ..no_resets() },
            );
            let d2 = reset_profile(
                d1,
                ProfileResets { context_window_limit: resets.context_window_limit, ..no_resets() },
            );
            let d3 = reset_profile(
                d2,
                ProfileResets { coding_model: resets.coding_model, ..no_resets() },
            );
            let d4 = reset_profile(
                d3,
                ProfileResets { cli_agent_model: resets.cli_agent_model, ..no_resets() },
            );
            let d5 = reset_profile(
                d4,
                ProfileResets { computer_use_model: resets.computer_use_model, ..no_resets() },
            );
            &&& is_same(d5, reset_profile(p, resets))
            &&& is_same(d2, p) ==> is_same(d1, p)
            &&& is_same(d3, p) ==> is_same(d2, p)
            &&& is_same(d4, p) ==> is_same(d3, p)
            &&& is_same(d5, p) ==> is_same(d4, p)
            &&& cleared(p, d1) + cleared(d1, d2) + cleared(d2, d3) + cleared(d3, d4) + cleared(
                d4,
                d5,
            ) == cleared(p, d5)
        }),
{
    let r1 = ProfileResets { base_model: resets.base_model, ..no_resets() };
    let s2 = ProfileResets { context_window_limit: resets.context_window_limit, ..no_resets() };
    let s3 = ProfileResets { coding_model: resets.coding_model, ..no_resets() };
    let s4 = ProfileResets { cli_agent_model: resets.cli_agent_model, ..no_resets() };
    let s5 = ProfileResets { computer_use_model: resets.computer_use_model, ..no_resets() };
    let r2 = both_resets(r1, s2);
    let r3 = both_resets(r2, s3);
    let r4 = both_resets(r3, s4);
    lemma_reset_step(p, r1, s2);
    lemma_reset_step(p, r2, s3);
    lemma_reset_step(p, r3, s4);
    lemma_reset_step(p, r4, s5);
    assert(both_resets(r4, s5) == resets);
}

spec fn both_resets(a: ProfileResets, b: ProfileResets) -> ProfileResets {
    ProfileResets {
        base_model: a.base_model || b.base_model,
        context_window_limit: a.context_window_limit || b.context_window_limit,
        coding_model: a.coding_model || b.coding_model,
        cli_agent_model: a.cli_agent_model || b.cli_agent_model,
        computer_use_model: a.computer_use_model || b.computer_use_model,
    }
}

spec fn disjoint_resets(a: ProfileResets, b: ProfileResets) -> bool {
    &&& !(a.base_model && b.base_model)
    &&& !(a.context_window_limit && b.context_window_limit)
    &&& !(a.coding_model && b.coding_model)
    &&& !(a.cli_agent_model && b.cli_agent_model)
    &&& !(a.computer_use_model && b.computer_use_model)
}

/// Whether two profiles are the same one.
spec fn is_same(a: ProfileModel, b: ProfileModel) -> bool {
    a == b
}

/// Clearing some choices and then others is clearing both.
proof fn lemma_reset_both(p: ProfileModel, a: ProfileResets, b: ProfileResets)
    ensures
        is_same(reset_profile(reset_profile(p, a), b), reset_profile(p, both_resets(a, b))),
{
    reveal(reset_profile);
}

/// What further clearing leaves as it was, the clearing before left so too.
proof fn lemma_reset_back(p: ProfileModel, a: ProfileResets, b: ProfileResets)
    requires
        is_same(reset_profile(reset_profile(p, a), b), p),
    ensures
        is_same(reset_profile(p, a), p),
{
    reveal(reset_profile);
}

proof fn lemma_reset_count(p: ProfileModel, a: ProfileResets, b: ProfileResets)
    requires
        disjoint_resets(a, b),
    ensures
        cleared(p, reset_profile(p, a)) + cleared(
            reset_profile(p, a),
            reset_profile(reset_profile(p, a), b),
        ) == cleared(p, reset_profile(reset_profile(p, a), b)),
{
    reveal(reset_profile);
    reveal(cleared);
}

proof fn lemma_reset_step(p: ProfileModel, a: ProfileResets, b: ProfileResets)
    requires
        disjoint_resets(a, b),
    ensures
        ({
            let d = reset_profile(p, a);
            let e = reset_profile(d, b);
            &&& is_same(e, reset_profile(p, both_resets(a, b)))
            &&& is_same(e, p) ==> is_same(d, p)
            &&& cleared(p, d) + cleared(d, e) == cleared(p, e)
        }),
{
    lemma_reset_both(p, a, b);
    lemma_reset_count(p, a, b);
    if is_same(reset_profile(reset_profile(p, a), b), p) {
        lemma_reset_back(p, a, b);
    }
}

spec fn no_resets() -> ProfileResets {
    ProfileResets {
        base_model: false,
        context_window_limit: false,
        coding_model: false,
        cli_agent_model: false,
        computer_use_model: false,
    }
}

proof fn lemma_became(
    a: ProfilesModel,
    b: ProfilesModel,
    c: ProfilesModel,
    id: ClientProfileId,
    d: ProfileModel,
    e: ProfileModel,
)
    requires
        became(a, b, id, d),
        became(b, c, id, e),
        a.profile(id) is Some && a.editable(id) && is_same(e, data_of(a, id)) ==> is_same(
            d,
            data_of(a, id),
        ),
    ensures
        became(a, c, id, e),
{
    reveal(became);
    reveal(data_of);
    lemma_same_but_for(a, b, c, id);
}

proof fn lemma_owed(m: ProfilesModel, id: ClientProfileId, data: ProfileModel)
    ensures
        owed(m, id, data) == (if m.profile(id) is Some && m.editable(id) {
            cleared(data_of(m, id), data)
        } else {
            0
        }),
{
    reveal(owed);
    reveal(data_of);
}

proof fn lemma_became_data(a: ProfilesModel, b: ProfilesModel, id: ClientProfileId, d: ProfileModel)
    requires
        became(a, b, id, d),
    ensures
        (b.profile(id) is Some) == (a.profile(id) is Some),
        b.editable(id) == a.editable(id),
        a.profile(id) is Some && a.editable(id) ==> is_same(data_of(b, id), d),
        a.profile(id) is Some && !a.editable(id) ==> is_same(data_of(b, id), data_of(a, id)),
{
    reveal(became);
    reveal(data_of);
    reveal(same_but_for);
}

proof fn lemma_became_same(
    a: ProfilesModel,
    b: ProfilesModel,
    id: ClientProfileId,
    d: ProfileModel,
    e: ProfileModel,
)
    requires
        became(a, b, id, d),
        a.profile(id) is Some && a.editable(id) ==> is_same(d, e),
    ensures
        became(a, b, id, e),
{
    reveal(became);
}

proof fn lemma_same_but_for(a: ProfilesModel, b: ProfilesModel, c: ProfilesModel, id: ClientProfileId)
    requires
        same_but_for(a, b, id),
        same_but_for(b, c, id),
    ensures
        same_but_for(a, c, id),
        a.editable(id) == b.editable(id),
        a.editable(id) == c.editable(id),
{
    reveal(same_but_for);
}

/// Whether nothing but one profile differs.
#[verifier::opaque]
spec fn same_but_for(before: ProfilesModel, after: ProfilesModel, id: ClientProfileId) -> bool {
    &&& execution_profiles::default_id(after.default) == execution_profiles::default_id(
        before.default,
    )
    &&& after.default is Cli == before.default is Cli
    &&& after.active == before.active
    &&& after.next == before.next
    &&& forall|other: ClientProfileId|
        other != id ==> (#[trigger] after.profile(other)) == before.profile(other)
}

/// Makes a change of a profile, if it is to be made.
fn edit_if(
    profiles: &mut AIExecutionProfilesModel,
    id: ClientProfileId,
    wanted: bool,
    edit: ProfileEdit,
    events: &mut Vec<AIExecutionProfilesModelEvent>,
)
    requires
        old(profiles).wf(),
        old(profiles)@.valid(),
    ensures
        final(profiles).wf(),
        final(profiles)@.valid(),
        same_but_for(old(profiles)@, final(profiles)@, id),
        old(profiles)@.profile(id) is None ==> final(profiles)@.profile(id) is None,
        old(profiles)@.profile(id) matches Some(info) ==> final(profiles)@.profile(id) is Some
            && final(profiles)@.profile(id)->0.data == (if wanted && old(profiles)@.editable(id) {
            execution_profiles::edited(info.data, edit@)
        } else {
            info.data
        }) && execution_profiles::identity_kept(
            info.sync_id,
            final(profiles)@.profile(id)->0.sync_id,
            wanted && old(profiles)@.changes(id, edit@),
        ),
        told(
            old(events)@,
            final(events)@,
            id,
            one_if(wanted && old(profiles)@.changes(id, edit@)),
        ),
{
    let ghost told_before = events@;
    proof {
        reveal(same_but_for);
        reveal(told);
    }
    if wanted {
        let fresh = SyncId(ids::random_uuid());
        proof {
            execution_profiles::lemma_edit_frame(profiles@, id, edit@, fresh);
        }
        if let Some(event) = profiles.edit_profile_as(id, &edit, fresh) {
            events.push(event);
        }
    }
    assert(events@ =~= told_before + Seq::new(
        one_if(wanted && old(profiles)@.changes(id, edit@)),
        |i: int| AIExecutionProfilesModelEvent::ProfileUpdated(id),
    ));
}

impl LLMPreferences {
    /// Whether a choice for a feature can no longer be served.
    fn is_gone(&self, available: &AvailableLLMs, id: &Option<LLMId>) -> (r: bool)
        ensures
            r == (id is Some && self@.kept(available@, llms::id_opt(*id)) is None),
    {
        match id {
            None => false,
            Some(id) => available.usable_info_for_id(id).is_none()
                && self.custom_llm_info_for_id_if_enabled(id).is_none()
                && self.custom_router_llm_info_for_id(id).is_none(),
        }
    }

    fn resets_for(&self, data: &AIExecutionProfile) -> (r: ProfileResets)
        requires
            self.wf(),
        ensures
            reset_profile(data@, r) == self@.reconciled_profile(data@),
    {
        let agent_mode = &self.models_by_feature.agent_mode;
        let base_id = match &data.base_model {
            Some(id) => id,
            None => agent_mode.default_id(),
        };
        let base = match agent_mode.usable_info_for_id(base_id) {
            Some(info) => Some(info),
            None => match self.custom_llm_info_for_id_if_enabled(base_id) {
                Some(info) => Some(info),
                None => self.custom_router_llm_info_for_id(base_id),
            },
        };
        let (unusable, configurable) = match base {
            Some(info) => (false, info.context_window.is_configurable),
            None => (true, false),
        };
        let r = ProfileResets {
            base_model: data.base_model.is_some() && unusable,
            context_window_limit: data.context_window_limit.is_some() && !configurable,
            coding_model: self.is_gone(&self.models_by_feature.coding, &data.coding_model),
            cli_agent_model: self.is_gone(
                self.get_cli_agent_available(),
                &data.cli_agent_model,
            ),
            computer_use_model: match &data.computer_use_model {
                Some(id) => self.get_computer_use_available().usable_info_for_id(id).is_none(),
                None => false,
            },
        };
        proof {
            reveal(reset_profile);
        }
        assert(reset_profile(data@, r) =~= self@.reconciled_profile(data@));
        r
    }

    fn reconcile_profile(
        &self,
        profiles: &mut AIExecutionProfilesModel,
        id: ClientProfileId,
        events: &mut Vec<AIExecutionProfilesModelEvent>,
    )
        requires
            self.wf(),
            old(profiles).wf(),
            old(profiles)@.valid(),
        ensures
            final(profiles).wf(),
            final(profiles)@.valid(),
            same_but_for(old(profiles)@, final(profiles)@, id),
            profile_reconciled(self@, old(profiles)@, final(profiles)@, id),
            told(old(events)@, final(events)@, id, updates_of(self@, old(profiles)@, id)),
    {
        proof {
            reveal(same_but_for);
            reveal(owed);
        }
        let info = match profiles.get_profile_by_id(id) {
            Some(info) => info,
            None => {
                proof {
                    reveal(told);
                    assert(events@ =~= events@ + Seq::new(
                        0,
                        |i: int| AIExecutionProfilesModelEvent::ProfileUpdated(id),
                    ));
                }
                return;
            },
        };
        let resets = self.resets_for(info.data());
        apply_resets(profiles, id, resets, events);
        proof {
            reveal(became);
            reveal(data_of);
        }
    }

    /// Clears the choices in the profiles that can no longer be served, and the
    /// context limits that no longer apply. Returns what happened to the
    /// profiles.
    pub fn reconcile_disabled_model_preferences(
        &self,
        profiles: &mut AIExecutionProfilesModel,
    ) -> (r: Vec<AIExecutionProfilesModelEvent>)
        requires
            self.wf(),
            old(profiles).wf(),
        ensures
            final(profiles).wf(),
            profiles_reconciled(self@, old(profiles)@, final(profiles)@),
            updates_told(self@, old(profiles)@, r@),
    {
        let ghost before = profiles@;
        proof {
            execution_profiles::lemma_profiles_wf(*profiles);
        }
        let profile_ids = profiles.get_all_profile_ids();
        let mut events: Vec<AIExecutionProfilesModelEvent> = Vec::new();
        let mut i: usize = 0;
        while i < profile_ids.len()
            invariant
                self.wf(),
                profiles.wf(),
                profiles@.valid(),
                before.valid(),
                i <= profile_ids.len(),
                profile_ids@.no_duplicates(),
                forall|id: ClientProfileId| #[trigger]
                    profile_ids@.contains(id) <==> before.profile(id) is Some,
                execution_profiles::default_id(profiles@.default) == execution_profiles::default_id(
                    before.default,
                ),
                profiles@.default is Cli == before.default is Cli,
                profiles@.active == before.active,
                profiles@.next == before.next,
                forall|id: ClientProfileId|
                    before.profile(id) is None ==> (#[trigger] profiles@.profile(id)) is None,
                forall|j: int|
                    i <= j < profile_ids@.len() ==> profiles@.profile(#[trigger] profile_ids@[j])
                        == before.profile(profile_ids@[j]),
                forall|j: int|
                    0 <= j < i ==> profile_reconciled(
                        self@,
                        before,
                        profiles@,
                        #[trigger] profile_ids@[j],
                    ),
                forall|k: int| 0 <= k < events@.len() ==> (#[trigger] events@[k]) is ProfileUpdated,
                forall|j: int|
                    0 <= j < i ==> times(events@, #[trigger] profile_ids@[j]) == updates_of(
                        self@,
                        before,
                        profile_ids@[j],
                    ),
                forall|id: ClientProfileId|
                    !profile_ids@.subrange(0, i as int).contains(id) ==> #[trigger] times(
                        events@,
                        id,
                    ) == 0,
            decreases profile_ids.len() - i,
        {
            let id = profile_ids[i];
            let ghost now = profiles@;
            let ghost told_before = events@;
            assert(profile_ids@.contains(id));
            self.reconcile_profile(profiles, id, &mut events);
            proof {
                let n = updates_of(self@, now, id);
                assert(!profile_ids@.subrange(0, i as int).contains(id));
                assert forall|j: int| 0 <= j < i + 1 implies times(
                    events@,
                    #[trigger] profile_ids@[j],
                ) == updates_of(self@, before, profile_ids@[j]) by {
                    lemma_times(told_before, events@, id, n, profile_ids@[j]);
                }
                assert forall|other: ClientProfileId|
                    !profile_ids@.subrange(0, i + 1).contains(other) implies #[trigger] times(
                    events@,
                    other,
                ) == 0 by {
                    let earlier = profile_ids@.subrange(0, i as int);
                    let now_done = profile_ids@.subrange(0, i + 1);
                    assert(now_done[i as int] == id);
                    if earlier.contains(other) {
                        let j = choose|j: int| 0 <= j < earlier.len() && earlier[j] == other;
                        assert(now_done[j] == other);
                    }
                    lemma_times(told_before, events@, id, n, other);
                }
                assert forall|k: int| 0 <= k < events@.len() implies (
                #[trigger] events@[k]) is ProfileUpdated by {
                    reveal(told);
                    if k < told_before.len() {
                        assert(events@[k] == told_before[k]);
                    }
                }
                reveal(same_but_for);
                assert(now.profile(id) == before.profile(id));
                assert(now.editable(id) == before.editable(id));
                assert(profile_reconciled(self@, before, profiles@, id));
                assert forall|j: int| 0 <= j < i implies profile_reconciled(
                    self@,
                    before,
                    profiles@,
                    #[trigger] profile_ids@[j],
                ) by {
                    assert(profile_ids@[j] != id);
                    assert(profiles@.profile(profile_ids@[j]) == now.profile(profile_ids@[j]));
                }
                assert forall|j: int| i + 1 <= j < profile_ids@.len() implies profiles@.profile(
                    #[trigger] profile_ids@[j],
                ) == before.profile(profile_ids@[j]) by {
                    assert(profile_ids@[j] != id);
                    assert(profiles@.profile(profile_ids@[j]) == now.profile(profile_ids@[j]));
                }
                assert forall|other: ClientProfileId| before.profile(other) is None implies (
                #[trigger] profiles@.profile(other)) is None by {
                    assert(other != id);
                    assert(profiles@.profile(other) == now.profile(other));
                }
            }
            i += 1;
        }
        proof {
            assert forall|id: ClientProfileId| #[trigger] profile_reconciled(
                self@,
                before,
                profiles@,
                id,
            ) by {
                if before.profile(id) is Some {
                    assert(profile_ids@.contains(id));
                    let j = choose|j: int| 0 <= j < profile_ids@.len() && profile_ids@[j] == id;
                    assert(profile_reconciled(self@, before, profiles@, profile_ids@[j]));
                } else {
                    assert(profiles@.profile(id) is None);
                }
            }
            assert forall|id: ClientProfileId| #[trigger] times(events@, id) == updates_of(
                self@,
                before,
                id,
            ) by {
                let done = profile_ids@.subrange(0, i as int);
                assert(done =~= profile_ids@);
                if done.contains(id) {
                    let j = choose|j: int| 0 <= j < profile_ids@.len() && profile_ids@[j] == id;
                    assert(times(events@, profile_ids@[j]) == updates_of(
                        self@,
                        before,
                        profile_ids@[j],
                    ));
                } else {
                    assert(!profile_ids@.contains(id));
                }
            }
        }
        events
    }

    /// Takes over new models. `has_existing_persisted_config` says whether the
    /// user has seen a list of models before: only then the news are shown.
    /// Returns what has happened, to the profiles too.
    pub fn on_models_update(
        &mut self,
        update: ModelsByFeature,
        has_existing_persisted_config: bool,
        profiles: &mut AIExecutionProfilesModel,
    ) -> (r: (LLMPreferencesEvent, Vec<AIExecutionProfilesModelEvent>))
        requires
            old(self).wf(),
            update.wf(),
            old(profiles).wf(),
        ensures
            final(self).wf(),
            final(profiles).wf(),
            final(self)@ == old(self)@.updated(update@, has_existing_persisted_config),
            profiles_reconciled(final(self)@, old(profiles)@, final(profiles)@),
            r.0 is UpdatedAvailableLLMs,
            updates_told(final(self)@, old(profiles)@, r.1@),
    {
        let ghost before = self@;
        let mut previous = update;
        std::mem::swap(&mut previous, &mut self.models_by_feature);
        let new_choices = llms::get_new_agent_mode_choices(
            &previous.agent_mode,
            &self.models_by_feature.agent_mode,
        );
        assert(llms::infos(new_choices@).len() == new_choices.len());
        if new_choices.len() > 0 {
            let popup = if has_existing_persisted_config {
                UpdatePopupVisibilityState::WaitingToBeShown
            } else {
                UpdatePopupVisibilityState::Hidden
            };
            self.last_update = Some(
                AvailableLLMsUpdate { new_choices, popup_visibility_state: popup },
            );
        }
        assert(self@ =~= before.updated(update@, has_existing_persisted_config));
        let events = self.reconcile_disabled_model_preferences(profiles);
        (LLMPreferencesEvent::UpdatedAvailableLLMs, events)
    }

    /// Takes over the models of the configured providers, if they are others
    /// than those on offer.
    pub fn refresh_custom_provider_models(
        &mut self,
        providers: &[CustomProviderConfig],
        min_context_tokens: u32,
        has_existing_persisted_config: bool,
        profiles: &mut AIExecutionProfilesModel,
    ) -> (r: Option<(LLMPreferencesEvent, Vec<AIExecutionProfilesModelEvent>)>)
        requires
            old(self).wf(),
            old(profiles).wf(),
        ensures
            final(self).wf(),
            final(profiles).wf(),
            ({
                let offer = llms::features_of(providers@, min_context_tokens);
                if offer == old(self)@.features {
                    r is None && final(self)@ == old(self)@ && final(profiles)@ == old(profiles)@
                } else {
                    &&& r matches Some((event, updates)) && event is UpdatedAvailableLLMs
                        && updates_told(final(self)@, old(profiles)@, updates@)
                    &&& final(self)@ == old(self)@.updated(offer, has_existing_persisted_config)
                    &&& profiles_reconciled(final(self)@, old(profiles)@, final(profiles)@)
                }
            }),
    {
        let offer = llms::models_by_feature_from_custom_providers(providers, min_context_tokens);
        if llms::same_features(&offer, &self.models_by_feature) {
            return None;
        }
        Some(self.on_models_update(offer, has_existing_persisted_config, profiles))
    }

    /// Takes over the routers, and then the models of the configured providers.
    /// Profiles are reconciled with both.
    pub fn refresh_available_models(
        &mut self,
        providers: &[CustomProviderConfig],
        routers: &[CustomModelRouter],
        min_context_tokens: u32,
        has_existing_persisted_config: bool,
        profiles: &mut AIExecutionProfilesModel,
    ) -> (r: Option<(LLMPreferencesEvent, Vec<AIExecutionProfilesModelEvent>)>)
        requires
            old(self).wf(),
            old(profiles).wf(),
        ensures
            final(self).wf(),
            final(profiles).wf(),
            ({
                let offer = llms::features_of(providers@, min_context_tokens);
                let routed = old(self)@.with_routers(
                    custom_model_routers::router_models(routers@),
                    providers@,
                    min_context_tokens,
                );
                if offer == old(self)@.features {
                    &&& r is None
                    &&& final(self)@ == routed
                    &&& final(profiles)@ == old(profiles)@
                } else {
                    &&& r matches Some((event, updates)) && event is UpdatedAvailableLLMs
                        && updates_told(final(self)@, old(profiles)@, updates@)
                    &&& final(self)@ == routed.updated(offer, has_existing_persisted_config)
                    &&& profiles_reconciled(final(self)@, old(profiles)@, final(profiles)@)
                }
            }),
    {
        self.rebuild_custom_model_routers(routers, providers, min_context_tokens);
        self.refresh_custom_provider_models(
            providers,
            min_context_tokens,
            has_existing_persisted_config,
            profiles,
        )
    }

    /// Takes over the routers, and gives up the choices of routers that can no
    /// longer be used.
    pub fn rebuild_custom_model_routers(
        &mut self,
        routers: &[CustomModelRouter],
        providers: &[CustomProviderConfig],
        min_context_tokens: u32,
    )
        requires
            old(self).wf(),
        ensures
            final(self).wf(),
            final(self)@ == old(self)@.with_routers(
                custom_model_routers::router_models(routers@),
                providers@,
                min_context_tokens,
            ),
    {
        let ghost before = self@;
        let ghost given = custom_model_routers::router_models(routers@);
        let catalog = custom_model_routers::build_router_catalog(
            routers,
            providers,
            min_context_tokens,
        );
        let mut known: Vec<CustomModelRouter> = Vec::new();
        let mut i: usize = 0;
        while i < catalog.len()
            invariant
                i <= catalog.len(),
                catalog.len() == routers.len(),
                known.len() == i,
                given == custom_model_routers::router_models(routers@),
                forall|k: int|
                    0 <= k < catalog@.len() ==> (#[trigger] catalog@[k])@
                        == custom_model_routers::catalog_entry(
                        routers@[k]@,
                        providers@,
                        min_context_tokens,
                    ),
                forall|k: int|
                    0 <= k < i ==> (#[trigger] known@[k])@ == catalogued(
                        given,
                        providers@,
                        min_context_tokens,
                    )[k],
            decreases catalog.len() - i,
        {
            let mut router = catalog[i].router.clone();
            router.info = catalog[i].info.clone();
            assert(catalog@[i as int]@.router == given[i as int]);
            known.push(router);
            i += 1;
        }
        self.custom_model_routers = known;
        assert(custom_model_routers::router_models(self.custom_model_routers@) =~= catalogued(
            given,
            providers@,
            min_context_tokens,
        ));
        let ghost models = custom_model_routers::router_models(self.custom_model_routers@);
        let views = self.base_llm_for_terminal_view.keys();
        let ghost start = override_models(self.base_llm_for_terminal_view@);
        let ghost expected = reconciled_overrides(start, models, providers@);
        assert forall|j: int| 0 <= j < views@.len() implies start.contains_key(
            #[trigger] views@[j],
        ) by {
            assert(views@.contains(views@[j]));
        }
        let mut v: usize = 0;
        while v < views.len()
            invariant
                v <= views.len(),
                views@.no_duplicates(),
                self.base_llm_for_terminal_view.wf(),
                models == custom_model_routers::router_models(self.custom_model_routers@),
                self.models_by_feature == old(self).models_by_feature,
                self.last_update == old(self).last_update,
                self.default_computer_use == old(self).default_computer_use,
                expected == reconciled_overrides(start, models, providers@),
                forall|key: usize| #[trigger] views@.contains(key) <==> start.contains_key(key),
                forall|key: usize| #[trigger]
                    override_models(self.base_llm_for_terminal_view@).contains_key(key)
                        ==> start.contains_key(key),
                forall|j: int|
                    v <= j < views@.len() ==> override_models(
                        self.base_llm_for_terminal_view@,
                    ).contains_key(#[trigger] views@[j]) && override_models(
                        self.base_llm_for_terminal_view@,
                    )[views@[j]] == start[views@[j]],
                forall|j: int|
                    0 <= j < v ==> (override_models(
                        self.base_llm_for_terminal_view@,
                    ).contains_key(#[trigger] views@[j]) <==> expected.contains_key(views@[j]))
                        && (expected.contains_key(views@[j]) ==> override_models(
                        self.base_llm_for_terminal_view@,
                    )[views@[j]] == expected[views@[j]]),
            decreases views.len() - v,
        {
            let view: usize = views[v];
            let ghost old_map = self.base_llm_for_terminal_view@;
            let selected = match self.base_llm_for_terminal_view.get(view) {
                Some(id) => {
                    assert(override_models(old_map)[view] == id@);
                    custom_model_routers::reconcile_active_selection(
                        id,
                        self.custom_model_routers.as_slice(),
                        providers,
                    )
                },
                None => None,
            };
            assert(views@.contains(view));
            match selected {
                Some(id) => {
                    let ghost chosen = id@;
                    self.base_llm_for_terminal_view.insert(view, id);
                    assert(override_models(self.base_llm_for_terminal_view@) =~= override_models(
                        old_map,
                    ).insert(view, chosen));
                },
                None => {
                    let _removed = self.base_llm_for_terminal_view.remove(view);
                    assert(override_models(self.base_llm_for_terminal_view@) =~= override_models(
                        old_map,
                    ).remove(view));
                },
            }
            v += 1;
        }
        proof {
            let now = override_models(self.base_llm_for_terminal_view@);
            assert forall|key: usize| #[trigger] now.contains_key(key) <==> expected.contains_key(
                key,
            ) by {
                if start.contains_key(key) {
                    assert(views@.contains(key));
                    let j = choose|j: int| 0 <= j < views@.len() && views@[j] == key;
                    assert(now.contains_key(views@[j]) <==> expected.contains_key(views@[j]));
                }
            }
            assert forall|key: usize| expected.contains_key(key) implies #[trigger] now[key]
                == expected[key] by {
                assert(views@.contains(key));
                let j = choose|j: int| 0 <= j < views@.len() && views@[j] == key;
                assert(views@[j] == key);
            }
            assert(now =~= expected);
            assert(self@ =~= before.with_routers(given, providers@, min_context_tokens));
        }
    }
}

impl PreferencesModel {
    /// The preferences with new models on offer.
    pub open spec fn updated(self, update: FeaturesModel, seen_before: bool) -> PreferencesModel {
        let choices = update.agent_mode.choices;
        let news = llms::new_models(
            self.features.agent_mode.choices,
            choices,
            choices.len() as int,
        );
        PreferencesModel {
            features: update,
            last_update: if news.len() > 0 {
                Some(
                    UpdateModel {
                        new_choices: news,
                        popup: if seen_before {
                            UpdatePopupVisibilityState::WaitingToBeShown
                        } else {
                            UpdatePopupVisibilityState::Hidden
                        },
                    },
                )
            } else {
                self.last_update
            },
            ..self
        }
    }

    /// The preferences with other routers.
    pub open spec fn with_routers(
        self,
        routers: Seq<RouterModel>,
        providers: Seq<CustomProviderConfig>,
        min_context_tokens: u32,
    ) -> PreferencesModel {
        let known = catalogued(routers, providers, min_context_tokens);
        PreferencesModel {
            routers: known,
            overrides: reconciled_overrides(self.overrides, known, providers),
            ..self
        }
    }
}

// ---------------------------------------------------------------------------
// Laws.

/// A terminal that was given a usable model uses it, whatever its profile says.
pub proof fn law_chosen_model_is_used(
    m: PreferencesModel,
    preferred: Seq<char>,
    profiles: ProfilesModel,
    view: EntityId,
)
    requires
        m.chosen_info(m.features.agent_mode, preferred) is Some,
        preferred != m.profile_default(profiles, view),
    ensures
        Some(m.choose_base(preferred, profiles, view).base_model(profiles, Some(view)))
            == m.chosen_info(m.features.agent_mode, preferred),
{
}

/// A terminal that took over another one's choice has the same choice.
pub proof fn law_copied_choice_is_the_same(m: PreferencesModel, source: EntityId, target: EntityId)
    ensures
        m.copy_choice(source, target).overrides.contains_key(target.0)
            == m.overrides.contains_key(source.0),
        m.overrides.contains_key(source.0) ==> m.copy_choice(source, target).overrides[target.0]
            == m.overrides[source.0],
{
}

/// Reconciling a profile again changes nothing more.
pub proof fn law_reconciling_is_idempotent(m: PreferencesModel, p: ProfileModel)
    ensures
        m.reconciled_profile(m.reconciled_profile(p)) == m.reconciled_profile(p),
{
    assert(m.reconciled_profile(m.reconciled_profile(p)) =~= m.reconciled_profile(p));
}

/// A model that is out for a while stays chosen: neither a lack of requests nor
/// an outage of its provider clears the choice.
pub proof fn law_passing_outage_keeps_the_choice(
    m: PreferencesModel,
    p: ProfileModel,
    id: Seq<char>,
    reason: DisableReason,
)
    requires
        p.base_model == Some(id),
        m.features.agent_mode.info(id) matches Some(info) && info.disable_reason == Some(reason),
        reason is OutOfRequests || reason is ProviderOutage,
    ensures
        m.reconciled_profile(p).base_model == Some(id),
{
}

/// After reconciling, a base model that a profile names can be used.
pub proof fn law_reconciled_choice_is_usable(m: PreferencesModel, p: ProfileModel, id: Seq<char>)
    requires
        m.reconciled_profile(p).base_model == Some(id),
    ensures
        m.chosen_info(m.features.agent_mode, id) is Some,
{
}

/// A router is known by the first one of its identifier, where nothing disables
/// it.
pub proof fn law_routers_that_can_be_chosen(m: PreferencesModel, id: Seq<char>, i: int)
    ensures
        0 <= i < m.routers.len() && m.routers[i].info.id == id && (forall|j: int|
            0 <= j < i ==> (#[trigger] m.routers[j]).info.id != id) ==> m.router_info(id) == (
        if m.routers[i].info.disable_reason is None {
            Some(m.routers[i].info)
        } else {
            None
        }),
        (forall|j: int| 0 <= j < m.routers.len() ==> (#[trigger] m.routers[j]).info.id != id)
            ==> m.router_info(id) is None,
{
    lemma_router_position(m.routers, id, 0);
    let at = router_position(m.routers, id, 0);
    if 0 <= i < m.routers.len() && m.routers[i].info.id == id && (forall|j: int|
        0 <= j < i ==> (#[trigger] m.routers[j]).info.id != id) {
        if at < i {
            assert(m.routers[at].info.id != id);
        }
        if i < at {
            assert(m.routers[i].info.id != id);
        }
    }
}

proof fn lemma_router_position(routers: Seq<RouterModel>, id: Seq<char>, from: int)
    requires
        0 <= from <= routers.len(),
    ensures
        from <= router_position(routers, id, from) <= routers.len(),
        router_position(routers, id, from) < routers.len() ==> routers[router_position(
            routers,
            id,
            from,
        )].info.id == id,
        forall|j: int|
            from <= j < router_position(routers, id, from) ==> (#[trigger] routers[j]).info.id
                != id,
    decreases routers.len() - from,
{
    if from < routers.len() && routers[from].info.id != id {
        lemma_router_position(routers, id, from + 1);
    }
}

/// Shown are the models that no administrator has disabled, and the routers that
/// nothing disables.
pub proof fn law_choices_that_are_shown(
    choices: Seq<InfoModel>,
    routers: Seq<RouterModel>,
    info: InfoModel,
)
    ensures
        shown_choices(choices, choices.len() as int).contains(info) <==> choices.contains(info)
            && info.disable_reason != Some(DisableReason::AdminDisabled),
        router_choices(routers, routers.len() as int).contains(info) <==> info.disable_reason
            is None && exists|i: int|
            0 <= i < routers.len() && (#[trigger] routers[i]).info == info,
{
    lemma_shown(choices, choices.len() as int, info);
    lemma_router_choices(routers, routers.len() as int, info);
    assert(choices.contains(info) <==> exists|i: int|
        0 <= i < choices.len() && (#[trigger] choices[i]) == info);
}

proof fn lemma_shown(choices: Seq<InfoModel>, n: int, info: InfoModel)
    requires
        0 <= n <= choices.len(),
    ensures
        shown_choices(choices, n).contains(info) <==> info.disable_reason != Some(
            DisableReason::AdminDisabled,
        ) && exists|i: int| 0 <= i < n && (#[trigger] choices[i]) == info,
    decreases n,
{
    if n > 0 {
        lemma_shown(choices, n - 1, info);
        let init = shown_choices(choices, n - 1);
        let out = shown_choices(choices, n);
        if init.contains(info) {
            let k = choose|k: int| 0 <= k < init.len() && init[k] == info;
            assert(out[k] == info);
        }
        if out.contains(info) {
            let k = choose|k: int| 0 <= k < out.len() && out[k] == info;
            if k < init.len() {
                assert(init[k] == info);
            } else {
                assert(choices[n - 1] == info);
            }
        }
        if choices[n - 1] == info && info.disable_reason != Some(DisableReason::AdminDisabled) {
            assert(out[init.len() as int] == info);
        }
    }
}

proof fn lemma_router_choices(routers: Seq<RouterModel>, n: int, info: InfoModel)
    requires
        0 <= n <= routers.len(),
    ensures
        router_choices(routers, n).contains(info) <==> info.disable_reason is None && exists|i: int|
            0 <= i < n && (#[trigger] routers[i]).info == info,
    decreases n,
{
    if n > 0 {
        lemma_router_choices(routers, n - 1, info);
        let init = router_choices(routers, n - 1);
        let out = router_choices(routers, n);
        if init.contains(info) {
            let k = choose|k: int| 0 <= k < init.len() && init[k] == info;
            assert(out[k] == info);
        }
        if out.contains(info) {
            let k = choose|k: int| 0 <= k < out.len() && out[k] == info;
            if k < init.len() {
                assert(init[k] == info);
            } else {
                assert(routers[n - 1].info == info);
            }
        }
        if routers[n - 1].info == info && info.disable_reason is None {
            assert(out[init.len() as int] == info);
        }
    }
}

/// Where no choice can be served, the default of the feature serves; else
/// another model of the feature that can be used; else the first configured one
/// that can be used; else the default all the same.
pub proof fn law_what_serves_without_a_choice(m: PreferencesModel, a: AvailableModel, i: int)
    ensures
        a.usable_info(a.default_id) is Some ==> Some(m.fallback(a)) == a.usable_info(a.default_id),
        a.usable_default() is Some ==> Some(m.fallback(a)) == a.usable_default(),
        a.usable_default() is None && 0 <= i < m.features.agent_mode.choices.len()
            && m.features.agent_mode.choices[i].provider is Custom && llms::usable(
            m.features.agent_mode.choices[i],
        ) && (forall|j: int|
            0 <= j < i ==> !((#[trigger] m.features.agent_mode.choices[j]).provider is Custom
                && llms::usable(m.features.agent_mode.choices[j]))) ==> m.fallback(a)
            == m.features.agent_mode.choices[i],
        a.usable_default() is None && (forall|j: int|
            0 <= j < m.features.agent_mode.choices.len() ==> !((
            #[trigger] m.features.agent_mode.choices[j]).provider is Custom && llms::usable(
                m.features.agent_mode.choices[j],
            ))) ==> m.fallback(a) == a.default_info(),
{
    let choices = m.features.agent_mode.choices;
    lemma_usable_custom(choices, 0);
    let at = usable_custom_position(choices, 0);
    if 0 <= i < choices.len() && choices[i].provider is Custom && llms::usable(choices[i]) && (
    forall|j: int|
        0 <= j < i ==> !((#[trigger] choices[j]).provider is Custom && llms::usable(choices[j]))) {
        if at < i {
            assert(!(choices[at].provider is Custom && llms::usable(choices[at])));
        }
        if i < at {
            assert(!(choices[i].provider is Custom && llms::usable(choices[i])));
        }
    }
}

proof fn lemma_usable_custom(choices: Seq<InfoModel>, from: int)
    requires
        0 <= from <= choices.len(),
    ensures
        from <= usable_custom_position(choices, from) <= choices.len(),
        usable_custom_position(choices, from) < choices.len()
            ==> choices[usable_custom_position(choices, from)].provider is Custom && llms::usable(
            choices[usable_custom_position(choices, from)],
        ),
        forall|j: int|
            from <= j < usable_custom_position(choices, from) ==> !((
            #[trigger] choices[j]).provider is Custom && llms::usable(choices[j])),
    decreases choices.len() - from,
{
    if from < choices.len() && !(choices[from].provider is Custom && llms::usable(choices[from])) {
        lemma_usable_custom(choices, from + 1);
    }
}

/// Agent mode is served by the choice of the terminal, else by that of its
/// profile, where they can be used; coding by the profile's choice for coding.
pub proof fn law_choices_are_served(
    m: PreferencesModel,
    profiles: ProfilesModel,
    view: EntityId,
    id: Seq<char>,
    info: InfoModel,
)
    ensures
        m.overrides.contains_key(view.0) && m.overrides[view.0] == id && (
        m.features.agent_mode.usable_info(id) == Some(info) || (m.features.agent_mode.usable_info(
            id,
        ) is None && m.router_info(id) == Some(info))) ==> m.base_model(profiles, Some(view))
            == info,
        !m.overrides.contains_key(view.0) && profiles.active_profile(Some(view)).data.base_model
            == Some(id) && (m.features.agent_mode.usable_info(id) == Some(info) || (
        m.features.agent_mode.usable_info(id) is None && m.router_info(id) == Some(info)))
            ==> m.base_model(profiles, Some(view)) == info,
        !m.overrides.contains_key(view.0) && profiles.active_profile(Some(view)).data.base_model
            is None ==> m.base_model(profiles, Some(view)) == m.fallback(m.features.agent_mode),
        profiles.active_profile(None).data.base_model is None ==> m.base_model(profiles, None)
            == m.fallback(m.features.agent_mode),
        profiles.active_profile(Some(view)).data.coding_model == Some(id) && (
        m.features.coding.usable_info(id) == Some(info) || (m.features.coding.usable_info(id)
            is None && m.router_info(id) == Some(info))) ==> m.coding_model(profiles, Some(view))
            == info,
        profiles.active_profile(Some(view)).data.coding_model is None ==> m.coding_model(
            profiles,
            Some(view),
        ) == m.fallback(m.features.coding),
{
}

/// The command-line agent and computer use are served by their own models, by
/// the profile's choices for them.
pub proof fn law_other_features_are_served(
    m: PreferencesModel,
    profiles: ProfilesModel,
    view: Option<EntityId>,
    id: Seq<char>,
    info: InfoModel,
)
    ensures
        profiles.active_profile(view).data.cli_agent_model == Some(id)
            && m.features.for_cli_agent().usable_info(id) == Some(info) ==> m.cli_agent_model(
            profiles,
            view,
        ) == info,
        profiles.active_profile(view).data.cli_agent_model is None ==> m.cli_agent_model(
            profiles,
            view,
        ) == m.fallback(m.features.for_cli_agent()),
        profiles.active_profile(view).data.cli_agent_model == Some(id)
            && m.features.for_cli_agent().usable_info(id) is None ==> m.cli_agent_model(
            profiles,
            view,
        ) == m.fallback(m.features.for_cli_agent()),
        profiles.active_profile(view).data.computer_use_model == Some(id)
            && m.features.for_computer_use().usable_info(id) == Some(info)
            ==> m.computer_use_model(profiles, view) == info,
        profiles.active_profile(view).data.computer_use_model is None
            && m.features.for_computer_use().usable_default() is Some ==> Some(
            m.computer_use_model(profiles, view),
        ) == m.features.for_computer_use().usable_default(),
        profiles.active_profile(view).data.computer_use_model is None
            && m.features.for_computer_use().usable_default() is None ==> m.computer_use_model(
            profiles,
            view,
        ) == m.features.for_computer_use().default_info(),
{
}

/// A choice for a terminal is its own: it is kept unless it is what the profile
/// stands for, and no other terminal and nothing else changes.
pub proof fn law_choices_are_kept(
    m: PreferencesModel,
    preferred: Seq<char>,
    profiles: ProfilesModel,
    view: EntityId,
    other: usize,
)
    ensures
        ({
            let after = m.choose_base(preferred, profiles, view);
            let own = profiles.active_profile(Some(view)).data.base_model;
            let stands_for = if own is Some && m.features.agent_mode.info(own->0) is Some {
                m.features.agent_mode.info(own->0)->0.id
            } else {
                m.features.agent_mode.default_info().id
            };
            &&& preferred != stands_for ==> after.overrides.contains_key(view.0)
                && after.overrides[view.0] == preferred
            &&& preferred == stands_for ==> !after.overrides.contains_key(view.0)
            &&& other != view.0 ==> after.overrides.contains_key(other)
                == m.overrides.contains_key(other)
            &&& other != view.0 && m.overrides.contains_key(other) ==> after.overrides[other]
                == m.overrides[other]
            &&& after.features == m.features
            &&& after.last_update == m.last_update
            &&& after.routers == m.routers
            &&& m.choice_is_news(preferred, profiles, view) <==> preferred != stands_for
                || m.overrides.contains_key(view.0)
        }),
{
}

/// Taking a choice over changes the one terminal alone.
pub proof fn law_taking_a_choice_over_changes_one_terminal(
    m: PreferencesModel,
    source: EntityId,
    target: EntityId,
    other: usize,
)
    ensures
        ({
            let after = m.copy_choice(source, target);
            &&& other != target.0 ==> after.overrides.contains_key(other)
                == m.overrides.contains_key(other)
            &&& other != target.0 && m.overrides.contains_key(other) ==> after.overrides[other]
                == m.overrides[other]
            &&& after.features == m.features
            &&& after.last_update == m.last_update
            &&& after.routers == m.routers
        }),
{
}

/// The default model for coding needs no mention, any other one is named.
pub proof fn law_coding_choices(m: PreferencesModel, id: Seq<char>)
    ensures
        m.coding_choice(id) is None <==> id == m.features.coding.default_id,
        m.coding_choice(id) is Some ==> m.coding_choice(id)->0 == id,
{
}

/// News is shown in a view where it waits or is shown there already.
pub proof fn law_news_is_shown(m: PreferencesModel, view: EntityId)
    ensures
        m.shows_popup(view) <==> m.last_update is Some && (m.last_update->0.popup
            is WaitingToBeShown || (m.last_update->0.popup is Visible
            && m.last_update->0.popup->Visible_0 == view)),
{
}

/// Reconciling clears the choices that can no longer be served, and no others,
/// and leaves everything else of a profile.
pub proof fn law_reconciling_clears_what_cannot_be_served(
    m: PreferencesModel,
    p: ProfileModel,
    id: Seq<char>,
)
    ensures
        ({
            let after = m.reconciled_profile(p);
            let usable_router = m.router_info(id) is Some;
            &&& p.base_model is None ==> after.base_model is None
            &&& p.base_model == Some(id) && (m.features.agent_mode.usable_info(id) is Some
                || usable_router) ==> after.base_model == Some(id)
            &&& p.base_model == Some(id) && m.features.agent_mode.usable_info(id) is None
                && !usable_router ==> after.base_model is None && after.context_window_limit
                is None
            &&& p.base_model == Some(id) && m.features.agent_mode.usable_info(id) is Some ==> (
            if m.features.agent_mode.usable_info(id)->0.context_window.is_configurable {
                after.context_window_limit == p.context_window_limit
            } else {
                after.context_window_limit is None
            })
            &&& p.coding_model == Some(id) ==> (after.coding_model == Some(id)
                <==> m.features.coding.usable_info(id) is Some || m.custom_info(id) is Some
                || usable_router) && (after.coding_model != Some(id) ==> after.coding_model
                is None)
            &&& p.cli_agent_model == Some(id) ==> (after.cli_agent_model == Some(id)
                <==> m.features.for_cli_agent().usable_info(id) is Some || m.custom_info(id)
                is Some || usable_router) && (after.cli_agent_model != Some(id)
                ==> after.cli_agent_model is None)
            &&& p.computer_use_model == Some(id) ==> (after.computer_use_model == Some(id)
                <==> m.features.for_computer_use().usable_info(id) is Some) && (
            after.computer_use_model != Some(id) ==> after.computer_use_model is None)
            &&& p.coding_model is None ==> after.coding_model is None
            &&& p.cli_agent_model is None ==> after.cli_agent_model is None
            &&& p.computer_use_model is None ==> after.computer_use_model is None
            &&& after == (ProfileModel {
                base_model: after.base_model,
                context_window_limit: after.context_window_limit,
                coding_model: after.coding_model,
                cli_agent_model: after.cli_agent_model,
                computer_use_model: after.computer_use_model,
                ..p
            })
        }),
{
    let after = m.reconciled_profile(p);
    assert(after =~= (ProfileModel {
        base_model: after.base_model,
        context_window_limit: after.context_window_limit,
        coding_model: after.coding_model,
        cli_agent_model: after.cli_agent_model,
        computer_use_model: after.computer_use_model,
        ..p
    }));
}

/// A model of a configured provider can serve any feature, where it can be used.
pub proof fn law_configured_models_serve_any_feature(m: PreferencesModel, id: Seq<char>)
    ensures
        m.custom_info(id) is Some <==> m.features.agent_mode.usable_info(id) is Some
            && m.features.agent_mode.usable_info(id)->0.provider is Custom,
        m.custom_info(id) is Some ==> m.custom_info(id) == m.features.agent_mode.usable_info(id),
{
}

/// Every choice that reconciling clears is told once.
pub proof fn law_cleared_choices_are_told(before: ProfileModel, after: ProfileModel)
    ensures
        cleared(before, before) == 0,
        cleared(before, after) <= 5,
        cleared(before, after) == 0 <==> after.base_model == before.base_model
            && after.context_window_limit == before.context_window_limit && after.coding_model
            == before.coding_model && after.cli_agent_model == before.cli_agent_model
            && after.computer_use_model == before.computer_use_model,
        cleared(before, after) == 5 <==> after.base_model != before.base_model
            && after.context_window_limit != before.context_window_limit && after.coding_model
            != before.coding_model && after.cli_agent_model != before.cli_agent_model
            && after.computer_use_model != before.computer_use_model,
{
    reveal(cleared);
}

/// When routers change, a terminal keeps its choice where it can still be
/// served, and else gets what stands in for it, if anything does.
pub proof fn law_choices_when_routers_change(
    m: PreferencesModel,
    routers: Seq<RouterModel>,
    providers: Seq<CustomProviderConfig>,
    min_context_tokens: u32,
    view: usize,
)
    ensures
        ({
            let after = m.with_routers(routers, providers, min_context_tokens);
            &&& after.features == m.features
            &&& after.last_update == m.last_update
            &&& after.routers.len() == routers.len()
            &&& !m.overrides.contains_key(view) ==> !after.overrides.contains_key(view)
            &&& m.overrides.contains_key(view) && !custom_model_routers::is_local_router_id(
                m.overrides[view],
            ) ==> after.overrides.contains_key(view) && after.overrides[view] == m.overrides[view]
            &&& m.overrides.contains_key(view) && (exists|i: int|
                0 <= i < after.routers.len() && (#[trigger] after.routers[i]).info.id
                    == m.overrides[view] && custom_model_routers::is_servable(
                    after.routers[i],
                    providers,
                )) ==> after.overrides.contains_key(view) && after.overrides[view]
                == m.overrides[view]
        }),
{
}

/// The routers stay what they are, but for what the catalogue says of them.
pub proof fn law_routers_are_catalogued(
    routers: Seq<RouterModel>,
    providers: Seq<CustomProviderConfig>,
    min_context_tokens: u32,
    i: int,
)
    requires
        0 <= i < routers.len(),
    ensures
        catalogued(routers, providers, min_context_tokens).len() == routers.len(),
        catalogued(routers, providers, min_context_tokens)[i].info
            == custom_model_routers::catalog_entry(routers[i], providers, min_context_tokens).info,
        catalogued(routers, providers, min_context_tokens)[i] == (RouterModel {
            info: custom_model_routers::catalog_entry(
                routers[i],
                providers,
                min_context_tokens,
            ).info,
            ..routers[i]
        }),
{
}

/// An update puts its models on offer, tells the new ones where there are any,
/// and changes no choice and no router.
pub proof fn law_updates_put_models_on_offer(
    m: PreferencesModel,
    update: FeaturesModel,
    seen_before: bool,
)
    ensures
        ({
            let after = m.updated(update, seen_before);
            let fresh = exists|i: int|
                0 <= i < update.agent_mode.choices.len() && forall|j: int|
                    0 <= j < m.features.agent_mode.choices.len() ==> (
                    #[trigger] m.features.agent_mode.choices[j]).id != (
                    #[trigger] update.agent_mode.choices[i]).id;
            &&& after.features == update
            &&& after.overrides == m.overrides
            &&& after.routers == m.routers
            &&& !fresh ==> after.last_update == m.last_update
            &&& fresh ==> after.last_update is Some && (if seen_before {
                after.last_update->0.popup is WaitingToBeShown
            } else {
                after.last_update->0.popup is Hidden
            })
        }),
{
    let old_choices = m.features.agent_mode.choices;
    let choices = update.agent_mode.choices;
    let n = choices.len() as int;
    let news = llms::new_models(old_choices, choices, n);
    assert(choices.subrange(0, n) =~= choices);
    if news.len() > 0 {
        assert(news.contains(news[0]));
        llms::law_new_models(old_choices, choices, n, news[0]);
        let i = choose|i: int| 0 <= i < choices.len() && choices[i] == news[0];
        assert(choices[i] == news[0]);
    }
    if exists|i: int|
        0 <= i < choices.len() && forall|j: int|
            0 <= j < old_choices.len() ==> (#[trigger] old_choices[j]).id != (
            #[trigger] choices[i]).id {
        let i = choose|i: int|
            0 <= i < choices.len() && forall|j: int|
                0 <= j < old_choices.len() ==> (#[trigger] old_choices[j]).id != (
                #[trigger] choices[i]).id;
        llms::law_new_models(old_choices, choices, n, choices[i]);
        assert(choices.contains(choices[i]));
        assert(news.contains(choices[i]));
    }
}

/// Of new models those are told whose name does not begin with `lite`.
pub proof fn law_news_that_is_told(choices: Seq<InfoModel>, n: int, info: InfoModel)
    requires
        0 <= n <= choices.len(),
    ensures
        news_of(choices, n).contains(info) <==> !text::starts_with(info.display_name, "lite"@)
            && exists|i: int| 0 <= i < n && (#[trigger] choices[i]) == info,
    decreases n,
{
    if n > 0 {
        law_news_that_is_told(choices, n - 1, info);
        let init = news_of(choices, n - 1);
        let out = news_of(choices, n);
        if init.contains(info) {
            let k = choose|k: int| 0 <= k < init.len() && init[k] == info;
            assert(out[k] == info);
        }
        if out.contains(info) {
            let k = choose|k: int| 0 <= k < out.len() && out[k] == info;
            if k < init.len() {
                assert(init[k] == info);
            } else {
                assert(choices[n - 1] == info);
            }
        }
        if choices[n - 1] == info && !text::starts_with(info.display_name, "lite"@) {
            assert(out[init.len() as int] == info);
        }
    }
}

/// Reconciling goes over every profile that may be changed, and tells of each
/// once for every choice that it clears.
pub proof fn law_every_profile_is_reconciled(
    m: PreferencesModel,
    before: ProfilesModel,
    after: ProfilesModel,
    id: ClientProfileId,
)
    requires
        profiles_reconciled(m, before, after),
    ensures
        (after.profile(id) is Some) == (before.profile(id) is Some),
        before.profile(id) is Some && before.editable(id) ==> after.profile(id)->0.data
            == m.reconciled_profile(before.profile(id)->0.data),
        before.profile(id) is Some && !before.editable(id) ==> after.profile(id)->0.data
            == before.profile(id)->0.data,
        before.profile(id) is None || !before.editable(id) ==> updates_of(m, before, id) == 0,
        before.profile(id) is Some && before.editable(id) ==> updates_of(m, before, id) == cleared(
            before.profile(id)->0.data,
            m.reconciled_profile(before.profile(id)->0.data),
        ),
        after.active == before.active,
        after.next == before.next,
{
    assert(profile_reconciled(m, before, after, id));
}

} // verus!
