//! The knowledge panes of the windows, and the memories behind them.

use crate::id_map::IdMap;
use crate::ids;
use crate::local_memory;
use crate::local_memory::{
    LocalMemoryError, LocalMemoryRecord, LocalMemoryRepository, LocalMemoryScope,
};
use crate::text;
use vstd::prelude::*;

verus! {

/// What the manager tells those who watch it.
#[derive(Clone, Copy, Debug, PartialEq, Eq, Structural)]
pub enum AIFactManagerEvent {
    MemoriesChanged,
}

/// Where a pane is shown.
#[derive(Clone, Copy, Debug, PartialEq, Eq, Structural)]
pub struct PaneViewLocator {
    pub pane_group_id: usize,
    pub pane_id: usize,
}

/// The knowledge view of a window, and where its pane is shown if it is.
pub struct AIFactPaneData<V> {
    pub locator: Option<PaneViewLocator>,
    pub view: V,
}

/// The views of the windows, at most one each, and the memories. A view stays
/// while its pane is hidden.
pub struct AIFactManager<V> {
    panes: IdMap<AIFactPaneData<V>>,
    memory_repository: LocalMemoryRepository,
}

pub ghost struct ManagerModel<V> {
    pub panes: Map<usize, AIFactPaneData<V>>,
    pub memories: local_memory::RepositoryModel,
}

impl<V> View for AIFactManager<V> {
    type V = ManagerModel<V>;

    closed spec fn view(&self) -> ManagerModel<V> {
        ManagerModel { panes: self.panes@, memories: self.memory_repository@ }
    }
}

impl<V> ManagerModel<V> {
    /// Where the pane of a window is shown.
    pub open spec fn locator(self, window: usize) -> Option<PaneViewLocator> {
        if self.panes.contains_key(window) {
            self.panes[window].locator
        } else {
            None
        }
    }

    /// The manager with a view for a window: a pane that is shown stays so.
    pub open spec fn with_view(self, window: usize, view: V) -> ManagerModel<V> {
        ManagerModel {
            panes: self.panes.insert(
                window,
                AIFactPaneData { locator: self.locator(window), view },
            ),
            memories: self.memories,
        }
    }

    /// The manager with another place for the pane of a window, if the window
    /// has a view.
    pub open spec fn with_locator(
        self,
        window: usize,
        locator: Option<PaneViewLocator>,
    ) -> ManagerModel<V> {
        if self.panes.contains_key(window) {
            ManagerModel {
                panes: self.panes.insert(
                    window,
                    AIFactPaneData { locator, view: self.panes[window].view },
                ),
                memories: self.memories,
            }
        } else {
            self
        }
    }
}

impl<V> AIFactManager<V> {
    pub closed spec fn wf(&self) -> bool {
        self.panes.wf() && self.memory_repository.wf()
    }

    pub fn new(memory_repository: LocalMemoryRepository) -> (r: Self)
        requires
            memory_repository.wf(),
        ensures
            r.wf(),
            r@ == (ManagerModel::<V> { panes: Map::empty(), memories: memory_repository@ }),
    {
        AIFactManager { panes: IdMap::new(), memory_repository }
    }

    /// Why the memories cannot be reached, if they cannot.
    pub fn memory_startup_error(&self) -> (r: Option<String>)
        ensures
            text::text_opt(r) == match self@.memories {
                local_memory::RepositoryModel::Available(_) => None,
                local_memory::RepositoryModel::Unavailable(message) => Some(message),
            },
    {
        self.memory_repository.startup_error()
    }

    pub fn list_memories(&self) -> (r: Result<Vec<LocalMemoryRecord>, LocalMemoryError>)
        ensures
            match r {
                Ok(records) => self@.memories.outage() is None && local_memory::memory_models(
                    records@,
                ) == local_memory::listed(self@.memories.memories()),
                Err(e) => self@.memories.outage() == Some(e@),
            },
    {
        self.memory_repository.list()
    }

    pub fn search_memories(&self, query: &str, current_directory: &Option<String>) -> (r: Result<
        Vec<LocalMemoryRecord>,
        LocalMemoryError,
    >)
        ensures
            match r {
                Ok(records) => (self@.memories.outage() is None || local_memory::query_tokens_of(
                    query@,
                ).len() == 0) && local_memory::memory_models(records@) == local_memory::found(
                    self@.memories.memories(),
                    query@,
                    text::text_opt(*current_directory),
                ),
                Err(e) => self@.memories.outage() == Some(e@) && local_memory::query_tokens_of(
                    query@,
                ).len() > 0,
            },
    {
        self.memory_repository.search(query, current_directory)
    }

    /// Creates a memory and says that the memories changed.
    pub fn create_memory(
        &mut self,
        scope: LocalMemoryScope,
        resolved: Option<String>,
        title: &str,
        content: &str,
        now: i64,
    ) -> (r: Result<(LocalMemoryRecord, AIFactManagerEvent), LocalMemoryError>)
        requires
            old(self).wf(),
        ensures
            final(self).wf(),
            final(self)@.panes == old(self)@.panes,
            match r {
                Ok((record, event)) => old(self)@.memories.create_problem(
                    scope@,
                    text::text_opt(resolved),
                    title@,
                    content@,
                    record@.id,
                ) is None && ids::is_v4(record@.id) && record@
                    == local_memory::StoreModel::new_memory(
                    scope@,
                    text::text_opt(resolved),
                    title@,
                    content@,
                    record@.id,
                    now,
                ) && final(self)@.memories == local_memory::RepositoryModel::Available(
                    old(self)@.memories->Available_0.with_created(record@),
                ) && event == AIFactManagerEvent::MemoriesChanged,
                Err(e) => final(self)@ == old(self)@ && exists|id: u128|
                    ids::is_v4(id) && #[trigger] old(self)@.memories.create_problem(
                        scope@,
                        text::text_opt(resolved),
                        title@,
                        content@,
                        id,
                    ) == Some(e@),
            },
    {
        match self.memory_repository.create(scope, resolved, title, content, now) {
            Ok(record) => Ok((record, AIFactManagerEvent::MemoriesChanged)),
            Err(error) => Err(error),
        }
    }

    /// Updates a memory that still has the expected revision and says that the
    /// memories changed.
    pub fn update_memory(
        &mut self,
        id: u128,
        expected_revision: i64,
        scope: LocalMemoryScope,
        resolved: Option<String>,
        title: &str,
        content: &str,
        now: i64,
    ) -> (r: Result<(LocalMemoryRecord, AIFactManagerEvent), LocalMemoryError>)
        requires
            old(self).wf(),
        ensures
            final(self).wf(),
            final(self)@.panes == old(self)@.panes,
            match r {
                Ok((record, event)) => old(self)@.memories.update_problem(
                    id,
                    expected_revision,
                    scope@,
                    text::text_opt(resolved),
                    title@,
                    content@,
                ) is None && record@ == old(self)@.memories->Available_0.updated_memory(
                    id,
                    scope@,
                    text::text_opt(resolved),
                    title@,
                    content@,
                    now,
                ) && final(self)@.memories == local_memory::RepositoryModel::Available(
                    old(self)@.memories->Available_0.with_updated(record@),
                ) && event == AIFactManagerEvent::MemoriesChanged,
                Err(e) => final(self)@ == old(self)@ && old(self)@.memories.update_problem(
                    id,
                    expected_revision,
                    scope@,
                    text::text_opt(resolved),
                    title@,
                    content@,
                ) == Some(e@),
            },
    {
        match self.memory_repository.update(
            id,
            expected_revision,
            scope,
            resolved,
            title,
            content,
            now,
        ) {
            Ok(record) => Ok((record, AIFactManagerEvent::MemoriesChanged)),
            Err(error) => Err(error),
        }
    }

    /// Deletes a memory that still has the expected revision and says that the
    /// memories changed.
    pub fn delete_memory(&mut self, id: u128, expected_revision: i64, now: i64) -> (r: Result<
        AIFactManagerEvent,
        LocalMemoryError,
    >)
        requires
            old(self).wf(),
        ensures
            final(self).wf(),
            final(self)@.panes == old(self)@.panes,
            match r {
                Ok(event) => old(self)@.memories.delete_problem(id, expected_revision) is None
                    && final(self)@.memories == local_memory::RepositoryModel::Available(
                    old(self)@.memories->Available_0.with_deleted(id, now),
                ) && event == AIFactManagerEvent::MemoriesChanged,
                Err(e) => final(self)@ == old(self)@ && old(self)@.memories.delete_problem(
                    id,
                    expected_revision,
                ) == Some(e@),
            },
    {
        match self.memory_repository.delete(id, expected_revision, now) {
            Ok(_) => Ok(AIFactManagerEvent::MemoriesChanged),
            Err(error) => Err(error),
        }
    }

    /// The view of a window that has one.
    pub fn ai_fact_view(&self, window_id: usize) -> (r: &V)
        requires
            self.wf(),
            self@.panes.contains_key(window_id),
        ensures
            *r == self@.panes[window_id].view,
    {
        &self.panes.get(window_id).unwrap().view
    }

    /// Whether a window has a view.
    pub fn has_view(&self, window_id: usize) -> (r: bool)
        requires
            self.wf(),
        ensures
            r == self@.panes.contains_key(window_id),
    {
        self.panes.contains(window_id)
    }

    /// Gives a window its view.
    pub fn register_view(&mut self, window_id: usize, view: V)
        requires
            old(self).wf(),
        ensures
            final(self).wf(),
            final(self)@ == old(self)@.with_view(window_id, view),
    {
        let locator = self.find_pane(window_id);
        self.panes.insert(window_id, AIFactPaneData { locator, view });
    }

    /// Where the pane of a window is shown.
    pub fn find_pane(&self, window_id: usize) -> (r: Option<PaneViewLocator>)
        requires
            self.wf(),
        ensures
            r == self@.locator(window_id),
    {
        match self.panes.get(window_id) {
            Some(data) => data.locator,
            None => None,
        }
    }

    fn set_locator(&mut self, window_id: usize, locator: Option<PaneViewLocator>)
        requires
            old(self).wf(),
        ensures
            final(self).wf(),
            final(self)@ == old(self)@.with_locator(window_id, locator),
    {
        match self.panes.take(window_id) {
            Some(data) => {
                self.panes.insert(window_id, AIFactPaneData { locator, view: data.view });
                assert(self@.panes =~= old(self)@.with_locator(window_id, locator).panes);
            },
            None => {
                assert(self@.panes =~= old(self)@.panes);
            },
        }
    }

    /// Notes where the pane of a window is shown, if the window has a view.
    pub fn register_pane(&mut self, pane_id: usize, pane_group_id: usize, window_id: usize)
        requires
            old(self).wf(),
        ensures
            final(self).wf(),
            final(self)@ == old(self)@.with_locator(
                window_id,
                Some(PaneViewLocator { pane_group_id, pane_id }),
            ),
    {
        self.set_locator(window_id, Some(PaneViewLocator { pane_group_id, pane_id }));
    }

    /// Notes that the pane of a window is hidden; its view stays.
    pub fn deregister_pane(&mut self, window_id: usize)
        requires
            old(self).wf(),
        ensures
            final(self).wf(),
            final(self)@ == old(self)@.with_locator(window_id, None),
    {
        self.set_locator(window_id, None);
    }
}

/// Hiding a pane and showing it again leaves the view of its window as it was.
pub proof fn law_hidden_pane_keeps_its_view<V>(
    m: ManagerModel<V>,
    window: usize,
    locator: PaneViewLocator,
)
    requires
        m.panes.contains_key(window),
    ensures
        m.with_locator(window, None).panes[window].view == m.panes[window].view,
        m.with_locator(window, None).locator(window) is None,
        m.with_locator(window, None).with_locator(window, Some(locator)).locator(window) == Some(
            locator,
        ),
        m.with_locator(window, None).with_locator(window, Some(locator)) == m.with_locator(
            window,
            Some(locator),
        ),
{
    let hidden = m.with_locator(window, None);
    assert(hidden.with_locator(window, Some(locator)).panes =~= m.with_locator(
        window,
        Some(locator),
    ).panes);
}

/// What is done to one window leaves the others as they are.
pub proof fn law_windows_are_apart<V>(
    m: ManagerModel<V>,
    window: usize,
    other: usize,
    view: V,
    locator: Option<PaneViewLocator>,
)
    requires
        window != other,
    ensures
        m.with_view(window, view).locator(other) == m.locator(other),
        m.with_locator(window, locator).locator(other) == m.locator(other),
        m.with_view(window, view).panes.contains_key(other) == m.panes.contains_key(other),
        m.panes.contains_key(other) ==> m.with_view(window, view).panes[other] == m.panes[other],
        m.panes.contains_key(other) ==> m.with_locator(window, locator).panes[other]
            == m.panes[other],
{
}

} // verus!
