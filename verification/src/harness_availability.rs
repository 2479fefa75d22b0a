//! Which local harnesses are offered and what models they serve.

use crate::text;
use vstd::prelude::*;

verus! {

/// The program that runs an agent.
#[derive(Clone, Copy, Debug, PartialEq, Eq, Hash, Structural)]
pub enum Harness {
    Oz,
    Claude,
    Gemini,
    Unknown,
}

/// A model that a harness serves.
#[derive(Debug, PartialEq)]
pub struct HarnessModelInfo {
    pub id: String,
    pub display_name: String,
    pub reasoning_level: Option<String>,
}

#[verifier::ext_equal]
pub struct HarnessModelModel {
    pub id: Seq<char>,
    pub display_name: Seq<char>,
    pub reasoning_level: Option<Seq<char>>,
}

impl View for HarnessModelInfo {
    type V = HarnessModelModel;

    open spec fn view(&self) -> HarnessModelModel {
        HarnessModelModel {
            id: self.id@,
            display_name: self.display_name@,
            reasoning_level: text::text_opt(self.reasoning_level),
        }
    }
}

impl Clone for HarnessModelInfo {
    fn clone(&self) -> (r: Self)
        ensures
            r@ == self@,
    {
        HarnessModelInfo {
            id: self.id.clone(),
            display_name: self.display_name.clone(),
            reasoning_level: text::clone_opt(&self.reasoning_level),
        }
    }
}

pub open spec fn model_models(models: Seq<HarnessModelInfo>) -> Seq<HarnessModelModel> {
    Seq::new(models.len(), |i: int| models[i]@)
}

/// A harness that is known here.
#[derive(Clone, Debug, PartialEq)]
pub struct HarnessAvailability {
    pub harness: Harness,
    pub display_name: String,
    pub enabled: bool,
    pub available_models: Vec<HarnessModelInfo>,
}

#[verifier::ext_equal]
pub struct HarnessEntryModel {
    pub harness: Harness,
    pub display_name: Seq<char>,
    pub enabled: bool,
    pub available_models: Seq<HarnessModelModel>,
}

impl View for HarnessAvailability {
    type V = HarnessEntryModel;

    open spec fn view(&self) -> HarnessEntryModel {
        HarnessEntryModel {
            harness: self.harness,
            display_name: self.display_name@,
            enabled: self.enabled,
            available_models: model_models(self.available_models@),
        }
    }
}

pub open spec fn entry_models(entries: Seq<HarnessAvailability>) -> Seq<HarnessEntryModel> {
    Seq::new(entries.len(), |i: int| entries[i]@)
}

/// The harnesses known without further configuration.
pub open spec fn initial_harnesses() -> Seq<HarnessEntryModel> {
    seq![
        HarnessEntryModel {
            harness: Harness::Oz,
            display_name: "Warp"@,
            enabled: true,
            available_models: Seq::empty(),
        },
    ]
}

pub fn default_harnesses() -> (r: Vec<HarnessAvailability>)
    ensures
        entry_models(r@) == initial_harnesses(),
{
    let mut entries: Vec<HarnessAvailability> = Vec::new();
    let models: Vec<HarnessModelInfo> = Vec::new();
    assert(model_models(models@) =~= Seq::<HarnessModelModel>::empty());
    entries.push(
        HarnessAvailability {
            harness: Harness::Oz,
            display_name: "Warp".to_owned(),
            enabled: true,
            available_models: models,
        },
    );
    assert(entry_models(entries@) =~= initial_harnesses());
    entries
}

/// The first entry for a harness.
pub open spec fn entry_for(entries: Seq<HarnessEntryModel>, harness: Harness) -> Option<
    HarnessEntryModel,
>
    decreases entries.len(),
{
    if entries.len() == 0 {
        None
    } else if entries[0].harness == harness {
        Some(entries[0])
    } else {
        entry_for(entries.subrange(1, entries.len() as int), harness)
    }
}

proof fn lemma_entry_for(entries: Seq<HarnessEntryModel>, harness: Harness, n: int)
    requires
        0 <= n <= entries.len(),
        forall|i: int| 0 <= i < n ==> (#[trigger] entries[i]).harness != harness,
        n < entries.len() ==> entries[n].harness == harness,
    ensures
        entry_for(entries, harness) == if n < entries.len() {
            Some(entries[n])
        } else {
            None
        },
    decreases entries.len(),
{
    if n > 0 {
        assert(entries[0].harness != harness);
        let rest = entries.subrange(1, entries.len() as int);
        assert forall|i: int| 0 <= i < n - 1 implies (#[trigger] rest[i]).harness != harness by {
            assert(rest[i] == entries[i + 1]);
        }
        lemma_entry_for(rest, harness, n - 1);
    }
}

/// The harnesses that are offered.
pub struct HarnessAvailabilityModel {
    harnesses: Vec<HarnessAvailability>,
}

impl View for HarnessAvailabilityModel {
    type V = Seq<HarnessEntryModel>;

    closed spec fn view(&self) -> Seq<HarnessEntryModel> {
        entry_models(self.harnesses@)
    }
}

impl HarnessAvailabilityModel {
    pub fn new() -> (r: Self)
        ensures
            r@ == initial_harnesses(),
    {
        HarnessAvailabilityModel { harnesses: default_harnesses() }
    }

    pub fn available_harnesses(&self) -> (r: &Vec<HarnessAvailability>)
        ensures
            entry_models(r@) == self@,
    {
        &self.harnesses
    }

    fn position(&self, harness: Harness) -> (r: usize)
        ensures
            r <= self.harnesses.len(),
            entry_for(self@, harness) == if r < self.harnesses.len() {
                Some(self.harnesses@[r as int]@)
            } else {
                None
            },
    {
        let mut i: usize = 0;
        while i < self.harnesses.len() && self.harnesses[i].harness != harness
            invariant
                i <= self.harnesses.len(),
                self@ == entry_models(self.harnesses@),
                forall|j: int| 0 <= j < i ==> (#[trigger] self@[j]).harness != harness,
            decreases self.harnesses.len() - i,
        {
            i += 1;
        }
        proof {
            lemma_entry_for(self@, harness, i as int);
        }
        i
    }

    /// The name to show for a harness; `fallback` is that of one not listed.
    pub fn display_name_for(&self, harness: Harness, fallback: &str) -> (r: String)
        ensures
            r@ == match entry_for(self@, harness) {
                Some(entry) => entry.display_name,
                None => fallback@,
            },
    {
        let at: usize = self.position(harness);
        if at < self.harnesses.len() {
            self.harnesses[at].display_name.clone()
        } else {
            fallback.to_owned()
        }
    }

    /// Whether there is a choice to show; `selectable` says whether harnesses
    /// may be chosen at all. Disabled harnesses count.
    pub fn should_show_harness_selector(&self, selectable: bool) -> (r: bool)
        ensures
            r == (selectable && self@.len() > 1),
    {
        selectable && self.harnesses.len() > 1
    }

    /// Whether any harness is enabled.
    pub fn has_any_enabled_harness(&self) -> (r: bool)
        ensures
            r == exists|i: int| 0 <= i < self@.len() && (#[trigger] self@[i]).enabled,
    {
        let mut i: usize = 0;
        while i < self.harnesses.len()
            invariant
                i <= self.harnesses.len(),
                self@ == entry_models(self.harnesses@),
                forall|j: int| 0 <= j < i ==> !(#[trigger] self@[j]).enabled,
            decreases self.harnesses.len() - i,
        {
            if self.harnesses[i].enabled {
                assert(self@[i as int].enabled);
                return true;
            }
            i += 1;
        }
        false
    }

    /// Whether a harness is both known and enabled.
    pub fn is_harness_enabled(&self, harness: Harness) -> (r: bool)
        ensures
            r == exists|i: int|
                0 <= i < self@.len() && (#[trigger] self@[i]).harness == harness
                    && self@[i].enabled,
    {
        let mut i: usize = 0;
        while i < self.harnesses.len()
            invariant
                i <= self.harnesses.len(),
                self@ == entry_models(self.harnesses@),
                forall|j: int|
                    0 <= j < i ==> !((#[trigger] self@[j]).harness == harness
                        && self@[j].enabled),
            decreases self.harnesses.len() - i,
        {
            if self.harnesses[i].harness == harness && self.harnesses[i].enabled {
                assert(self@[i as int].harness == harness);
                return true;
            }
            i += 1;
        }
        false
    }

    /// The models of a harness, if it is known and serves any.
    pub fn models_for(&self, harness: Harness) -> (r: Option<&Vec<HarnessModelInfo>>)
        ensures
            match entry_for(self@, harness) {
                Some(entry) => if entry.available_models.len() > 0 {
                    r matches Some(models) && model_models(models@) == entry.available_models
                } else {
                    r is None
                },
                None => r is None,
            },
    {
        let at: usize = self.position(harness);
        if at < self.harnesses.len() && self.harnesses[at].available_models.len() > 0 {
            Some(&self.harnesses[at].available_models)
        } else {
            None
        }
    }
}

/// A harness is known by the first entry for it.
pub proof fn law_harnesses_are_found(entries: Seq<HarnessEntryModel>, harness: Harness, i: int)
    ensures
        0 <= i < entries.len() && entries[i].harness == harness && (forall|j: int|
            0 <= j < i ==> (#[trigger] entries[j]).harness != harness) ==> entry_for(
            entries,
            harness,
        ) == Some(entries[i]),
        (forall|j: int| 0 <= j < entries.len() ==> (#[trigger] entries[j]).harness != harness)
            ==> entry_for(entries, harness) is None,
{
    if 0 <= i < entries.len() && entries[i].harness == harness && (forall|j: int|
        0 <= j < i ==> (#[trigger] entries[j]).harness != harness) {
        lemma_entry_for(entries, harness, i);
    }
    if forall|j: int| 0 <= j < entries.len() ==> (#[trigger] entries[j]).harness != harness {
        lemma_entry_for(entries, harness, entries.len() as int);
    }
}

/// Without configuration one harness is known, which is enabled and names no
/// models.
pub proof fn law_harness_at_the_start(entry: HarnessAvailability)
    requires
        seq![entry@] == initial_harnesses(),
    ensures
        entry.harness == Harness::Oz,
        entry.display_name@ == "Warp"@,
        entry.enabled,
        entry.available_models@.len() == 0,
{
    assert(seq![entry@][0] == initial_harnesses()[0]);
    assert(model_models(entry.available_models@).len() == 0);
}

} // verus!
