//! The browsing state machine: loading states, the session list with its
//! selection, live search and the project details view.

use crate::domain::{
    distinct_ids, in_recency_order, insert_by_recency, lemma_sorted_by_recency_contains,
    lemma_sorted_by_recency_distinct, lemma_sorted_by_recency_in_order,
    lemma_sorted_by_recency_permutes, project_label_at,
    sort_sessions, sorted_by_recency, Session, SessionId, SessionPage,
};
use crate::text::{
    chars_of, contains_chars, insert_sorted_text, lowercase, pop_char, push_char,
    sanitize_terminal_text, sanitized, strictly_sorted, text_contains, text_lt, texts,
    to_lowercase,
};
use vstd::prelude::*;

verus! {

/// How far loading the sessions has come.
#[derive(Clone, Debug, Eq, PartialEq)]
pub enum LoadState {
    Loading,
    Ready,
    Empty,
    Failed(String),
}

/// `LoadState` with its message as text.
pub enum LoadStateView {
    Loading,
    Ready,
    Empty,
    Failed(Seq<char>),
}

impl View for LoadState {
    type V = LoadStateView;

    open spec fn view(&self) -> LoadStateView {
        match self {
            LoadState::Loading => LoadStateView::Loading,
            LoadState::Ready => LoadStateView::Ready,
            LoadState::Empty => LoadStateView::Empty,
            LoadState::Failed(message) => LoadStateView::Failed(message@),
        }
    }
}

/// A move of the selection through the visible rows.
#[derive(Clone, Copy, Debug, Eq, PartialEq, Structural)]
pub enum Navigation {
    Up,
    Down,
    Home,
    End,
}

/// Which screen the browser shows.
#[derive(Clone, Copy, Debug, Eq, PartialEq, Structural)]
pub enum Screen {
    Sessions,
    Details,
}

/// What the loaded sessions of one project have in common; the label is
/// "Workspace" for the home directory.
#[derive(Clone, Debug, Eq, PartialEq)]
pub struct ProjectOverview {
    pub label: String,
    pub session_count: usize,
    pub latest_activity: i64,
    pub providers: Vec<String>,
    pub statuses: Vec<String>,
    pub branches: Vec<String>,
}

/// What the background loader reports.
#[derive(Clone, Debug, Eq, PartialEq)]
pub enum WorkerMessage {
    Page(SessionPage),
    Failed(String),
    Complete,
}

/// The browser's state.
#[derive(Debug)]
pub struct App {
    sessions: Vec<Session>,
    selected: Option<usize>,
    state: LoadState,
    loading_more: bool,
    warning: Option<String>,
    search: String,
    searching: bool,
    search_restore_id: Option<SessionId>,
    view: Screen,
    home: Option<String>,
}

/// The browser's state as values.
pub struct AppModel {
    pub sessions: Seq<Session>,
    pub selected: Option<usize>,
    pub state: LoadStateView,
    pub loading_more: bool,
    pub warning: Option<Seq<char>>,
    pub search: Seq<char>,
    pub searching: bool,
    pub search_restore_id: Option<Seq<char>>,
    pub view: Screen,
    pub home: Option<Seq<char>>,
}

/// The state is consistent: the sessions fit in memory, the selection is
/// a loaded session, there is one exactly where sessions are loaded, the sessions are in recency order
/// and no two share an identifier.
pub open spec fn model_wf(m: AppModel) -> bool {
    &&& m.sessions.len() <= usize::MAX
    &&& m.selected matches Some(index) ==> index < m.sessions.len()
    &&& (m.selected is Some <==> m.sessions.len() > 0)
    &&& in_recency_order(m.sessions)
    &&& distinct_ids(m.sessions)
}

/// The text of an optional field, empty where it is absent.
pub open spec fn text_or_empty(value: Option<String>) -> Seq<char> {
    match value {
        Some(text) => text@,
        None => Seq::empty(),
    }
}

/// The lower-cased `field` contains `query`.
pub open spec fn field_matches(field: Seq<char>, query: Seq<char>) -> bool {
    text_contains(lowercase(field), query)
}

/// A session matches a lower-cased search query: the query is empty, or it
/// occurs in the lower-cased name, working directory, provider, status or
/// branch. The preview is never searched.
pub open spec fn session_matches(session: Session, query: Seq<char>) -> bool {
    ||| query.len() == 0
    ||| field_matches(text_or_empty(session.name), query)
    ||| field_matches(session.cwd@, query)
    ||| field_matches(session.provider@, query)
    ||| field_matches(session.status@, query)
    ||| field_matches(text_or_empty(session.branch), query)
}

/// The indices below `n` of the sessions that match `query`, in order.
pub open spec fn matching_indices(sessions: Seq<Session>, query: Seq<char>, n: nat) -> Seq<usize>
    decreases n,
{
    if n == 0 {
        Seq::empty()
    } else if session_matches(sessions[n - 1], query) {
        matching_indices(sessions, query, (n - 1) as nat).push((n - 1) as usize)
    } else {
        matching_indices(sessions, query, (n - 1) as nat)
    }
}

/// Where `x` first occurs in `s`.
pub open spec fn position_of(s: Seq<usize>, x: usize) -> Option<usize>
    decreases s.len(),
{
    if s.len() == 0 {
        None
    } else {
        match position_of(s.drop_last(), x) {
            Some(k) => Some(k),
            None => if s.last() == x {
                Some((s.len() - 1) as usize)
            } else {
                None
            },
        }
    }
}

/// Where the first session with the identifier `id` stands in `sessions`.
pub open spec fn position_of_id(sessions: Seq<Session>, id: Seq<char>) -> Option<usize>
    decreases sessions.len(),
{
    if sessions.len() == 0 {
        None
    } else {
        match position_of_id(sessions.drop_last(), id) {
            Some(k) => Some(k),
            None => if sessions.last().id@ == id {
                Some((sessions.len() - 1) as usize)
            } else {
                None
            },
        }
    }
}

/// The indices of the sessions that the search leaves visible.
pub open spec fn visible(m: AppModel) -> Seq<usize> {
    matching_indices(m.sessions, lowercase(m.search), m.sessions.len())
}

/// Where the selected session stands among the visible rows.
pub open spec fn selected_visible_position(m: AppModel) -> Option<usize> {
    match m.selected {
        Some(index) => position_of(visible(m), index),
        None => None,
    }
}

/// The selected session, if the selection is a loaded session.
pub open spec fn selected_session_of(m: AppModel) -> Option<Session> {
    match m.selected {
        Some(index) => if index < m.sessions.len() {
            Some(m.sessions[index as int])
        } else {
            None
        },
        None => None,
    }
}

/// The selection after a search edit: kept where it is visible, else the
/// first visible row, else unchanged.
pub open spec fn select_first_visible(m: AppModel) -> Option<usize> {
    if selected_visible_position(m) is None && visible(m).len() > 0 {
        Some(visible(m)[0])
    } else {
        m.selected
    }
}

/// The selection after a navigation move, as an index into the visible rows.
pub open spec fn navigation_target(m: AppModel, navigation: Navigation) -> int {
    let last = visible(m).len() - 1;
    let current: int = match selected_visible_position(m) {
        Some(position) => position as int,
        None => if navigation == Navigation::End {
            last
        } else {
            0
        },
    };
    match navigation {
        Navigation::Home => 0,
        Navigation::End => last,
        Navigation::Up => if current == 0 {
            0
        } else {
            current - 1
        },
        Navigation::Down => if current + 1 > last {
            last
        } else {
            current + 1
        },
    }
}

/// The failure text shown for a loader error: the sanitized message, or a
/// fixed notice where nothing is left of it.
pub open spec fn failure_text(message: Seq<char>) -> Seq<char> {
    if sanitized(message).len() == 0 {
        unknown_error_text()
    } else {
        sanitized(message)
    }
}

/// "unknown app-server error"
pub open spec fn unknown_error_text() -> Seq<char> {
    seq![
        'u', 'n', 'k', 'n', 'o', 'w', 'n', ' ', 'a', 'p', 'p', '-', 's', 'e', 'r', 'v', 'e', 'r',
        ' ', 'e', 'r', 'r', 'o', 'r',
    ]
}

/// `incoming` appended to `acc`, each session only where no session with its
/// identifier is there already.
pub open spec fn append_new(acc: Seq<Session>, incoming: Seq<Session>) -> Seq<Session>
    decreases incoming.len(),
{
    if incoming.len() == 0 {
        acc
    } else {
        let next = if position_of_id(acc, incoming[0].id@) is Some {
            acc
        } else {
            acc.push(incoming[0])
        };
        append_new(next, incoming.drop_first())
    }
}

/// The sessions after a page arrives: the new ones added and all sorted.
pub open spec fn merged_sessions(existing: Seq<Session>, page: Seq<Session>) -> Seq<Session> {
    sorted_by_recency(append_new(existing, page))
}

/// The selection after a page arrives: the same session, else the first row.
pub open spec fn selection_after_merge(m: AppModel, merged: Seq<Session>) -> Option<usize> {
    let kept = match selected_session_of(m) {
        Some(session) => position_of_id(merged, session.id@),
        None => None,
    };
    match kept {
        Some(index) => Some(index),
        None => if merged.len() > 0 {
            Some(0)
        } else {
            None
        },
    }
}

impl App {
    /// The browser's state as values.
    pub closed spec fn model(&self) -> AppModel {
        AppModel {
            sessions: self.sessions@,
            selected: self.selected,
            state: self.state@,
            loading_more: self.loading_more,
            warning: match &self.warning {
                Some(w) => Some(w@),
                None => None,
            },
            search: self.search@,
            searching: self.searching,
            search_restore_id: match &self.search_restore_id {
                Some(id) => Some(id@),
                None => None,
            },
            view: self.view,
            home: match &self.home {
                Some(h) => Some(h@),
                None => None,
            },
        }
    }

    /// The state is consistent (`model_wf`): the sessions fit in memory,
    /// the selection is a loaded session and there is one exactly where
    /// sessions are loaded, the sessions are in recency order, and no two
    /// share an identifier.
    pub open spec fn wf(&self) -> bool {
        model_wf(self.model())
    }

    /// The state before anything has loaded.
    fn new() -> (r: App)
        ensures
            r.wf(),
            r.model().sessions.len() == 0,
            r.model().selected is None,
            r.model().state == LoadStateView::Loading,
            r.model().loading_more,
            r.model().warning is None,
            r.model().search.len() == 0,
            !r.model().searching,
            r.model().search_restore_id is None,
            r.model().view == Screen::Sessions,
            r.model().home is None,
    {
        App {
            sessions: Vec::new(),
            selected: None,
            state: LoadState::Loading,
            loading_more: true,
            warning: None,
            search: String::new(),
            searching: false,
            search_restore_id: None,
            view: Screen::Sessions,
            home: None,
        }
    }

    /// The loaded sessions, in recency order.
    pub fn sessions(&self) -> (r: &[Session])
        ensures
            r@ == self.model().sessions,
    {
        self.sessions.as_slice()
    }

    /// The index of the selected session.
    pub fn selected(&self) -> (r: Option<usize>)
        ensures
            r == self.model().selected,
    {
        self.selected
    }

    /// The loading state.
    pub fn state(&self) -> (r: &LoadState)
        ensures
            r@ == self.model().state,
    {
        &self.state
    }

    /// Whether more pages are still loading.
    pub fn loading_more(&self) -> (r: bool)
        ensures
            r == self.model().loading_more,
    {
        self.loading_more
    }

    /// The warning about a later page that failed, if any.
    pub fn warning(&self) -> (r: Option<&str>)
        ensures
            r matches Some(w) ==> self.model().warning == Some(w@),
            r is None ==> self.model().warning is None,
    {
        match &self.warning {
            Some(w) => Some(w.as_str()),
            None => None,
        }
    }

    /// The search text.
    pub fn search(&self) -> (r: &str)
        ensures
            r@ == self.model().search,
    {
        self.search.as_str()
    }

    /// Whether a search is being typed.
    pub fn is_searching(&self) -> (r: bool)
        ensures
            r == self.model().searching,
    {
        self.searching
    }

    /// The screen shown.
    pub fn view(&self) -> (r: Screen)
        ensures
            r == self.model().view,
    {
        self.view
    }

    /// The user's home directory, where it is known.
    pub fn home(&self) -> (r: Option<&str>)
        ensures
            r matches Some(h) ==> self.model().home == Some(h@),
            r is None ==> self.model().home is None,
    {
        match &self.home {
            Some(h) => Some(h.as_str()),
            None => None,
        }
    }

    /// Records the user's home directory, whose sessions are labelled
    /// "Workspace".
    pub fn set_home(&mut self, home: Option<String>)
        requires
            old(self).wf(),
        ensures
            final(self).wf(),
            final(self).model() == (AppModel {
                home: match home {
                    Some(h) => Some(h@),
                    None => None,
                },
                ..old(self).model()
            }),
    {
        self.home = home;
    }
}

impl App {
    /// The indices of the sessions that the search leaves visible, in order;
    /// with no search text, every session.
    pub fn filtered_indices(&self) -> (r: Vec<usize>)
        ensures
            r@ == visible(self.model()),
            self.model().search.len() == 0 ==> r@.len() == self.model().sessions.len() && forall|
                i: int,
            | 0 <= i < r@.len() ==> #[trigger] r@[i] == i,
    {
        let query = to_lowercase(self.search.as_str());
        let query_chars = chars_of(query.as_str());
        let mut result: Vec<usize> = Vec::new();
        let mut i: usize = 0;
        while i < self.sessions.len()
            invariant
                i <= self.sessions@.len(),
                query_chars@ == lowercase(self.search@),
                result@ == matching_indices(self.sessions@, query_chars@, i as nat),
            decreases self.sessions@.len() - i,
        {
            if session_matches_exec(&self.sessions[i], query_chars.as_slice()) {
                result.push(i);
            }
            i = i + 1;
        }
        proof {
            if self.search@.len() == 0 {
                lemma_empty_query_matches_all(self.sessions@, query_chars@, self.sessions@.len());
            }
        }
        result
    }

    /// Where the selected session stands among the visible rows.
    pub fn selected_filtered_index(&self) -> (r: Option<usize>)
        ensures
            r == selected_visible_position(self.model()),
    {
        let selected = match self.selected {
            Some(index) => index,
            None => return None,
        };
        let visible_rows = self.filtered_indices();
        let mut k: usize = 0;
        while k < visible_rows.len()
            invariant
                k <= visible_rows@.len(),
                self.selected == Some(selected),
                visible_rows@ == visible(self.model()),
                position_of(visible_rows@.take(k as int), selected) is None,
            decreases visible_rows@.len() - k,
        {
            assert(visible_rows@.take(k + 1).drop_last() =~= visible_rows@.take(k as int));
            if visible_rows[k] == selected {
                proof {
                    let t = visible_rows@.take(k + 1);
                    assert(t.last() == selected);
                    assert(t.len() == k + 1);
                    assert(position_of(t, selected) == Some(k));
                    lemma_position_of_extends(visible_rows@, selected, k + 1);
                }
                return Some(k);
            }
            k = k + 1;
        }
        assert(visible_rows@.take(k as int) =~= visible_rows@);
        None
    }

    /// The selected session.
    pub fn selected_session(&self) -> (r: Option<&Session>)
        ensures
            r matches Some(session) ==> selected_session_of(self.model()) == Some(*session),
            r is None ==> selected_session_of(self.model()) is None,
    {
        match self.selected {
            Some(index) => if index < self.sessions.len() {
                Some(&self.sessions[index])
            } else {
                None
            },
            None => None,
        }
    }
}

/// The working directories of `sessions`, in order.
pub open spec fn working_directories(sessions: Seq<Session>) -> Seq<Seq<char>> {
    sessions.map_values(|s: Session| s.cwd@)
}

/// How many distinct working directories (projects) `sessions` span.
pub open spec fn distinct_projects(sessions: Seq<Session>) -> nat {
    working_directories(sessions).to_set().len()
}

/// How many of the first `n` sessions belong to the project `cwd`.
pub open spec fn project_size(sessions: Seq<Session>, cwd: Seq<char>, n: nat) -> nat
    decreases n,
{
    if n == 0 {
        0
    } else if sessions[n - 1].cwd@ == cwd {
        project_size(sessions, cwd, (n - 1) as nat) + 1
    } else {
        project_size(sessions, cwd, (n - 1) as nat)
    }
}

/// Some session of project `cwd` has the provider `t`.
pub open spec fn project_has_provider(sessions: Seq<Session>, cwd: Seq<char>, t: Seq<char>) -> bool {
    exists|i: int| 0 <= i < sessions.len() && #[trigger] sessions[i].cwd@ == cwd && sessions[i].provider@ == t
}

/// Some session of project `cwd` has the status `t`.
pub open spec fn project_has_status(sessions: Seq<Session>, cwd: Seq<char>, t: Seq<char>) -> bool {
    exists|i: int| 0 <= i < sessions.len() && #[trigger] sessions[i].cwd@ == cwd && sessions[i].status@ == t
}

/// Some session of project `cwd` was on the branch `t`.
pub open spec fn project_has_branch(sessions: Seq<Session>, cwd: Seq<char>, t: Seq<char>) -> bool {
    exists|i: int|
        0 <= i < sessions.len() && #[trigger] sessions[i].cwd@ == cwd && text_or_empty(sessions[i].branch) == t
            && sessions[i].branch is Some
}

/// What a project overview holds for the project `cwd` of `sessions`: its
/// label, its session count, its latest activity, and its providers,
/// statuses and branches, each sorted and without repeats.
pub open spec fn is_overview_of(
    o: ProjectOverview,
    sessions: Seq<Session>,
    cwd: Seq<char>,
    home: Option<Seq<char>>,
) -> bool {
    &&& o.label@ == project_label_at(cwd, home)
    &&& o.session_count == project_size(sessions, cwd, sessions.len())
    &&& exists|i: int| 0 <= i < sessions.len() && #[trigger] sessions[i].cwd@ == cwd && sessions[i].recency_at == o.latest_activity
    &&& forall|i: int| 0 <= i < sessions.len() && #[trigger] sessions[i].cwd@ == cwd ==> sessions[i].recency_at <= o.latest_activity
    &&& strictly_sorted(texts(o.providers@))
    &&& forall|t: Seq<char>| #[trigger] texts(o.providers@).contains(t) <==> project_has_provider(sessions, cwd, t)
    &&& strictly_sorted(texts(o.statuses@))
    &&& forall|t: Seq<char>| #[trigger] texts(o.statuses@).contains(t) <==> project_has_status(sessions, cwd, t)
    &&& strictly_sorted(texts(o.branches@))
    &&& forall|t: Seq<char>| #[trigger] texts(o.branches@).contains(t) <==> project_has_branch(sessions, cwd, t)
}

impl App {
    /// How many projects (distinct working directories) the loaded sessions
    /// span.
    pub fn project_count(&self) -> (r: usize)
        ensures
            r == distinct_projects(self.model().sessions),
    {
        let mut directories: Vec<String> = Vec::new();
        let mut i: usize = 0;
        while i < self.sessions.len()
            invariant
                i <= self.sessions@.len(),
                strictly_sorted(texts(directories@)),
                forall|t: Seq<char>| #[trigger] texts(directories@).contains(t) <==> exists|j: int|
                    0 <= j < i && #[trigger] self.sessions@[j].cwd@ == t,
            decreases self.sessions@.len() - i,
        {
            let ghost before = texts(directories@);
            insert_sorted_text(&mut directories, self.sessions[i].cwd.clone());
            proof {
                assert forall|t: Seq<char>| #[trigger] texts(directories@).contains(t) <==> exists|j: int|
                    0 <= j < i + 1 && #[trigger] self.sessions@[j].cwd@ == t by {
                    if before.contains(t) {
                        let j = choose|j: int| 0 <= j < i && #[trigger] self.sessions@[j].cwd@ == t;
                    }
                    if exists|j: int| 0 <= j < i + 1 && #[trigger] self.sessions@[j].cwd@ == t {
                        let j = choose|j: int| 0 <= j < i + 1 && #[trigger] self.sessions@[j].cwd@ == t;
                        if j < i {
                            assert(exists|j: int| 0 <= j < i && #[trigger] self.sessions@[j].cwd@ == t);
                        }
                    }
                }
            }
            i = i + 1;
        }
        proof {
            let d = texts(directories@);
            let w = working_directories(self.sessions@);
            assert(d.no_duplicates()) by {
                assert forall|a: int, b: int| 0 <= a < d.len() && 0 <= b < d.len() && a != b implies d[a] != d[b] by {
                    if a < b {
                        assert(text_lt(d[a], d[b]));
                    } else {
                        assert(text_lt(d[b], d[a]));
                    }
                    if d[a] == d[b] {
                        crate::text::lemma_text_lt_irreflexive(d[a]);
                    }
                }
            }
            d.unique_seq_to_set();
            assert(d.to_set() =~= w.to_set()) by {
                assert forall|t: Seq<char>| d.to_set().contains(t) <==> w.to_set().contains(t) by {
                    if d.contains(t) {
                        let j = choose|j: int| 0 <= j < i && #[trigger] self.sessions@[j].cwd@ == t;
                        assert(w[j] == t);
                    }
                    if w.contains(t) {
                        let j = choose|j: int| 0 <= j < w.len() && w[j] == t;
                        assert(self.sessions@[j].cwd@ == t);
                    }
                }
            }
        }
        directories.len()
    }
}

/// Adds `x` to the sorted, repeat-free texts `sorted`, keeping track of
/// which sessions' values they hold.
proof fn lemma_add_value(
    before: Seq<Seq<char>>,
    after: Seq<Seq<char>>,
    x: Seq<char>,
    has_before: spec_fn(Seq<char>) -> bool,
    has_after: spec_fn(Seq<char>) -> bool,
)
    requires
        forall|t: Seq<char>| #[trigger] after.contains(t) <==> (before.contains(t) || t == x),
        forall|t: Seq<char>| #[trigger] before.contains(t) <==> has_before(t),
        forall|t: Seq<char>| #[trigger] has_after(t) <==> (has_before(t) || t == x),
    ensures
        forall|t: Seq<char>| #[trigger] after.contains(t) <==> has_after(t),
{
    assert forall|t: Seq<char>| #[trigger] after.contains(t) <==> has_after(t) by {
        assert(before.contains(t) <==> has_before(t));
    }
}

impl App {
    /// The overview of the selected session's project: what all loaded
    /// sessions with the same working directory have in common.
    pub fn selected_project_overview(&self) -> (r: Option<ProjectOverview>)
        ensures
            r is Some <==> selected_session_of(self.model()) is Some,
            r matches Some(o) ==> is_overview_of(
                o,
                self.model().sessions,
                selected_session_of(self.model())->0.cwd@,
                self.model().home,
            ),
    {
        let selected = match self.selected_session() {
            Some(session) => session,
            None => return None,
        };
        let ghost sel_index = self.selected->0;
        let cwd = selected.cwd.clone();
        let ghost sessions = self.sessions@;
        let mut count: usize = 0;
        let mut latest: Option<i64> = None;
        let mut providers: Vec<String> = Vec::new();
        let mut statuses: Vec<String> = Vec::new();
        let mut branches: Vec<String> = Vec::new();
        let mut i: usize = 0;
        while i < self.sessions.len()
            invariant
                i <= sessions.len(),
                sessions == self.sessions@,
                sel_index < sessions.len(),
                sessions[sel_index as int].cwd@ == cwd@,
                count == project_size(sessions, cwd@, i as nat),
                count <= i,
                latest is None <==> forall|j: int| 0 <= j < i ==> #[trigger] sessions[j].cwd@ != cwd@,
                latest matches Some(l) ==> (exists|j: int| 0 <= j < i && #[trigger] sessions[j].cwd@ == cwd@ && sessions[j].recency_at == l),
                latest matches Some(l) ==> (forall|j: int| 0 <= j < i && #[trigger] sessions[j].cwd@ == cwd@ ==> sessions[j].recency_at <= l),
                strictly_sorted(texts(providers@)),
                strictly_sorted(texts(statuses@)),
                strictly_sorted(texts(branches@)),
                forall|t: Seq<char>| #[trigger] texts(providers@).contains(t) <==> project_has_provider(sessions.take(i as int), cwd@, t),
                forall|t: Seq<char>| #[trigger] texts(statuses@).contains(t) <==> project_has_status(sessions.take(i as int), cwd@, t),
                forall|t: Seq<char>| #[trigger] texts(branches@).contains(t) <==> project_has_branch(sessions.take(i as int), cwd@, t),
            decreases sessions.len() - i,
        {
            let session = &self.sessions[i];
            let ghost prefix = sessions.take(i as int);
            let ghost next = sessions.take(i + 1);
            proof {
                assert forall|t: Seq<char>| project_has_provider(next, cwd@, t) <==> (project_has_provider(prefix, cwd@, t) || (session.cwd@ == cwd@ && session.provider@ == t)) by {
                    if project_has_provider(next, cwd@, t) {
                        let j = choose|j: int| 0 <= j < next.len() && #[trigger] next[j].cwd@ == cwd@ && next[j].provider@ == t;
                        if j < i {
                            assert(prefix[j] == next[j]);
                        }
                    }
                    if project_has_provider(prefix, cwd@, t) {
                        let j = choose|j: int| 0 <= j < prefix.len() && #[trigger] prefix[j].cwd@ == cwd@ && prefix[j].provider@ == t;
                        assert(prefix[j] == next[j]);
                    }
                    if session.cwd@ == cwd@ && session.provider@ == t {
                        assert(next[i as int] == *session);
                    }
                }
                assert forall|t: Seq<char>| project_has_status(next, cwd@, t) <==> (project_has_status(prefix, cwd@, t) || (session.cwd@ == cwd@ && session.status@ == t)) by {
                    if project_has_status(next, cwd@, t) {
                        let j = choose|j: int| 0 <= j < next.len() && #[trigger] next[j].cwd@ == cwd@ && next[j].status@ == t;
                        if j < i {
                            assert(prefix[j] == next[j]);
                        }
                    }
                    if project_has_status(prefix, cwd@, t) {
                        let j = choose|j: int| 0 <= j < prefix.len() && #[trigger] prefix[j].cwd@ == cwd@ && prefix[j].status@ == t;
                        assert(prefix[j] == next[j]);
                    }
                    if session.cwd@ == cwd@ && session.status@ == t {
                        assert(next[i as int] == *session);
                    }
                }
                assert forall|t: Seq<char>| project_has_branch(next, cwd@, t) <==> (project_has_branch(prefix, cwd@, t) || (session.cwd@ == cwd@ && session.branch is Some && text_or_empty(session.branch) == t)) by {
                    if project_has_branch(next, cwd@, t) {
                        let j = choose|j: int| 0 <= j < next.len() && #[trigger] next[j].cwd@ == cwd@ && text_or_empty(next[j].branch) == t && next[j].branch is Some;
                        if j < i {
                            assert(prefix[j] == next[j]);
                        }
                    }
                    if project_has_branch(prefix, cwd@, t) {
                        let j = choose|j: int| 0 <= j < prefix.len() && #[trigger] prefix[j].cwd@ == cwd@ && text_or_empty(prefix[j].branch) == t && prefix[j].branch is Some;
                        assert(prefix[j] == next[j]);
                    }
                    if session.cwd@ == cwd@ && session.branch is Some && text_or_empty(session.branch) == t {
                        assert(next[i as int] == *session);
                    }
                }
            }
            if session.cwd == cwd {
                count = count + 1;
                latest = match latest {
                    Some(l) => if session.recency_at > l {
                        Some(session.recency_at)
                    } else {
                        Some(l)
                    },
                    None => Some(session.recency_at),
                };
                let ghost p0 = texts(providers@);
                insert_sorted_text(&mut providers, session.provider.clone());
                proof {
                    lemma_add_value(p0, texts(providers@), session.provider@,
                        |t: Seq<char>| project_has_provider(prefix, cwd@, t),
                        |t: Seq<char>| project_has_provider(next, cwd@, t));
                }
                let ghost s0 = texts(statuses@);
                insert_sorted_text(&mut statuses, session.status.clone());
                proof {
                    lemma_add_value(s0, texts(statuses@), session.status@,
                        |t: Seq<char>| project_has_status(prefix, cwd@, t),
                        |t: Seq<char>| project_has_status(next, cwd@, t));
                }
                match &session.branch {
                    Some(branch) => {
                        let ghost b0 = texts(branches@);
                        insert_sorted_text(&mut branches, branch.clone());
                        proof {
                            lemma_add_value(b0, texts(branches@), branch@,
                                |t: Seq<char>| project_has_branch(prefix, cwd@, t),
                                |t: Seq<char>| project_has_branch(next, cwd@, t));
                        }
                    },
                    None => {
                        proof {
                            assert forall|t: Seq<char>| #[trigger] texts(branches@).contains(t) <==> project_has_branch(next, cwd@, t) by {
                                assert(texts(branches@).contains(t) <==> project_has_branch(prefix, cwd@, t));
                            }
                        }
                    },
                }
            } else {
                proof {
                    assert forall|t: Seq<char>| #[trigger] texts(providers@).contains(t) <==> project_has_provider(next, cwd@, t) by {
                        assert(texts(providers@).contains(t) <==> project_has_provider(prefix, cwd@, t));
                    }
                    assert forall|t: Seq<char>| #[trigger] texts(statuses@).contains(t) <==> project_has_status(next, cwd@, t) by {
                        assert(texts(statuses@).contains(t) <==> project_has_status(prefix, cwd@, t));
                    }
                    assert forall|t: Seq<char>| #[trigger] texts(branches@).contains(t) <==> project_has_branch(next, cwd@, t) by {
                        assert(texts(branches@).contains(t) <==> project_has_branch(prefix, cwd@, t));
                    }
                }
            }
            i = i + 1;
        }
        proof {
            assert(sessions.take(i as int) =~= sessions);
            assert(sessions[sel_index as int].cwd@ == cwd@);
        }
        let latest_activity = match latest {
            Some(l) => l,
            None => {
                proof {
                    assert(sessions[sel_index as int].cwd@ != cwd@);
                }
                0
            },
        };
        Some(
            ProjectOverview {
                label: crate::domain::project_label_in(cwd.as_str(), self.home()),
                session_count: count,
                latest_activity,
                providers,
                statuses,
                branches,
            },
        )
    }
}

proof fn lemma_empty_query_matches_all(sessions: Seq<Session>, query: Seq<char>, n: nat)
    requires
        query.len() == 0,
        n <= usize::MAX,
    ensures
        matching_indices(sessions, query, n).len() == n,
        forall|i: int| 0 <= i < n ==> #[trigger] matching_indices(sessions, query, n)[i] == i,
    decreases n,
{
    if n > 0 {
        lemma_empty_query_matches_all(sessions, query, (n - 1) as nat);
        let prev = matching_indices(sessions, query, (n - 1) as nat);
        assert(session_matches(sessions[n - 1], query));
        assert(matching_indices(sessions, query, n) == prev.push((n - 1) as usize));
        assert forall|i: int| 0 <= i < n implies #[trigger] matching_indices(sessions, query, n)[i] == i by {
            if i < n - 1 {
                assert(prev[i] == i);
            }
        }
    }
}

proof fn lemma_matching_indices_below(sessions: Seq<Session>, query: Seq<char>, n: nat)
    ensures
        forall|k: int| 0 <= k < matching_indices(sessions, query, n).len() ==> #[trigger] matching_indices(sessions, query, n)[k] < n,
    decreases n,
{
    if n > 0 {
        let prev = matching_indices(sessions, query, (n - 1) as nat);
        lemma_matching_indices_below(sessions, query, (n - 1) as nat);
        assert forall|k: int| 0 <= k < matching_indices(sessions, query, n).len() implies #[trigger] matching_indices(sessions, query, n)[k] < n by {
            if k < prev.len() {
                assert(prev[k] < n - 1);
            }
        }
    }
}

proof fn lemma_visible_in_range(m: AppModel)
    ensures
        forall|k: int| 0 <= k < visible(m).len() ==> #[trigger] visible(m)[k] < m.sessions.len(),
{
    lemma_matching_indices_below(m.sessions, lowercase(m.search), m.sessions.len());
}

proof fn lemma_position_of_id_in_range(sessions: Seq<Session>, id: Seq<char>)
    requires
        sessions.len() <= usize::MAX,
    ensures
        position_of_id(sessions, id) matches Some(k) ==> k < sessions.len() && sessions[k as int].id@ == id,
    decreases sessions.len(),
{
    if sessions.len() > 0 {
        lemma_position_of_id_in_range(sessions.drop_last(), id);
        if let Some(k) = position_of_id(sessions.drop_last(), id) {
            assert(sessions.drop_last()[k as int] == sessions[k as int]);
        }
    }
}

proof fn lemma_insert_len(s: Seq<Session>, x: Session)
    ensures
        insert_by_recency(s, x).len() == s.len() + 1,
    decreases s.len(),
{
    if s.len() > 0 {
        lemma_insert_len(s.drop_first(), x);
    }
}

proof fn lemma_sorted_len(s: Seq<Session>)
    ensures
        sorted_by_recency(s).len() == s.len(),
    decreases s.len(),
{
    if s.len() > 0 {
        lemma_sorted_len(s.drop_last());
        lemma_insert_len(sorted_by_recency(s.drop_last()), s.last());
    }
}

proof fn lemma_append_new_len(acc: Seq<Session>, incoming: Seq<Session>)
    ensures
        append_new(acc, incoming).len() >= acc.len(),
    decreases incoming.len(),
{
    if incoming.len() > 0 {
        let next = if position_of_id(acc, incoming[0].id@) is Some {
            acc
        } else {
            acc.push(incoming[0])
        };
        lemma_append_new_len(next, incoming.drop_first());
    }
}

proof fn lemma_position_of_id_complete(sessions: Seq<Session>, id: Seq<char>, i: int)
    requires
        sessions.len() <= usize::MAX,
        0 <= i < sessions.len(),
        sessions[i].id@ == id,
    ensures
        position_of_id(sessions, id) is Some,
    decreases sessions.len(),
{
    if i < sessions.len() - 1 {
        assert(sessions.drop_last()[i] == sessions[i]);
        lemma_position_of_id_complete(sessions.drop_last(), id, i);
    }
}

proof fn lemma_append_new_keeps(acc: Seq<Session>, incoming: Seq<Session>)
    requires
        distinct_ids(acc),
        append_new(acc, incoming).len() <= usize::MAX,
    ensures
        distinct_ids(append_new(acc, incoming)),
        append_new(acc, incoming).len() >= acc.len(),
        forall|i: int| 0 <= i < acc.len() ==> #[trigger] append_new(acc, incoming)[i] == acc[i],
    decreases incoming.len(),
{
    if incoming.len() > 0 {
        let x = incoming[0];
        if position_of_id(acc, x.id@) is Some {
            lemma_append_new_keeps(acc, incoming.drop_first());
        } else {
            let next = acc.push(x);
            lemma_append_new_len(next, incoming.drop_first());
            assert forall|i: int| 0 <= i < acc.len() implies #[trigger] acc[i].id@ != x.id@ by {
                if acc[i].id@ == x.id@ {
                    lemma_position_of_id_complete(acc, x.id@, i);
                }
            }
            assert(distinct_ids(next)) by {
                assert forall|i: int, j: int| 0 <= i < next.len() && 0 <= j < next.len() && i != j implies #[trigger] next[i].id@ != #[trigger] next[j].id@ by {
                    if i < acc.len() && j < acc.len() {
                        assert(next[i] == acc[i] && next[j] == acc[j]);
                    } else if i < acc.len() {
                        assert(next[i] == acc[i]);
                    } else if j < acc.len() {
                        assert(next[j] == acc[j]);
                    }
                }
            }
            lemma_append_new_keeps(next, incoming.drop_first());
            assert forall|i: int| 0 <= i < acc.len() implies #[trigger] append_new(acc, incoming)[i] == acc[i] by {
                assert(append_new(next, incoming.drop_first())[i] == next[i]);
            }
        }
    }
}

/// The identifier to restore when a search begins.
pub open spec fn restore_id_on_begin(m: AppModel) -> Option<Seq<char>> {
    if m.searching {
        m.search_restore_id
    } else {
        match selected_session_of(m) {
            Some(session) => Some(session.id@),
            None => None,
        }
    }
}

/// The selection after a search is cancelled: the session selected when it
/// began, where it is still loaded.
pub open spec fn selection_after_cancel(m: AppModel) -> Option<usize> {
    match m.search_restore_id {
        Some(id) => match position_of_id(m.sessions, id) {
            Some(index) => Some(index),
            None => m.selected,
        },
        None => m.selected,
    }
}

/// The state after one message from the loader.
pub open spec fn after_message(m: AppModel, message: WorkerMessage) -> AppModel {
    match message {
        WorkerMessage::Page(page) => {
            let merged = merged_sessions(m.sessions, page.sessions@);
            AppModel {
                sessions: merged,
                selected: selection_after_merge(m, merged),
                state: if merged.len() == 0 {
                    LoadStateView::Loading
                } else {
                    LoadStateView::Ready
                },
                loading_more: page.next_cursor is Some,
                warning: None,
                ..m
            }
        },
        WorkerMessage::Failed(text) => if m.sessions.len() == 0 {
            AppModel { loading_more: false, state: LoadStateView::Failed(failure_text(text@)), ..m }
        } else {
            AppModel {
                loading_more: false,
                state: LoadStateView::Ready,
                warning: Some(failure_text(text@)),
                ..m
            }
        },
        WorkerMessage::Complete => AppModel {
            loading_more: false,
            warning: None,
            state: if m.sessions.len() == 0 {
                LoadStateView::Empty
            } else {
                LoadStateView::Ready
            },
            ..m
        },
    }
}

/// The failure text for a loader error message.
fn sanitize_failure_message(message: &str) -> (r: String)
    ensures
        r@ == failure_text(message@),
{
    let sanitized_text = sanitize_terminal_text(message);
    if sanitized_text.as_str().is_empty() {
        let mut notice = String::new();
        let letters = [
            'u', 'n', 'k', 'n', 'o', 'w', 'n', ' ', 'a', 'p', 'p', '-', 's', 'e', 'r', 'v', 'e',
            'r', ' ', 'e', 'r', 'r', 'o', 'r',
        ];
        let mut i: usize = 0;
        while i < 24
            invariant
                i <= 24,
                letters@ == unknown_error_text(),
                notice@ == unknown_error_text().take(i as int),
            decreases 24 - i,
        {
            push_char(&mut notice, letters[i]);
            assert(unknown_error_text().take(i + 1) =~= unknown_error_text().take(i as int).push(letters@[i as int]));
            i = i + 1;
        }
        assert(unknown_error_text().take(24) =~= unknown_error_text());
        notice
    } else {
        sanitized_text
    }
}

impl App {
    /// Starts typing a search, remembering the selected session the first
    /// time so that cancelling can return to it.
    pub fn begin_search(&mut self)
        requires
            old(self).wf(),
        ensures
            final(self).wf(),
            final(self).model() == (AppModel {
                searching: true,
                search_restore_id: restore_id_on_begin(old(self).model()),
                ..old(self).model()
            }),
    {
        if !self.searching {
            self.search_restore_id = match self.selected_session() {
                Some(session) => Some(session.id.clone()),
                None => None,
            };
        }
        self.searching = true;
    }

    /// Keeps the selection where it is visible, else moves it to the first
    /// visible row.
    fn select_first_visible_if_needed(&mut self)
        requires
            old(self).wf(),
        ensures
            final(self).wf(),
            final(self).model() == (AppModel { selected: select_first_visible(old(self).model()), ..old(self).model() }),
    {
        if self.selected_filtered_index().is_none() {
            let visible_rows = self.filtered_indices();
            if visible_rows.len() > 0 {
                proof {
                    lemma_visible_in_range(self.model());
                }
                self.selected = Some(visible_rows[0]);
            }
        }
    }

    /// Adds a character to the search while a search is being typed.
    pub fn push_search(&mut self, character: char)
        requires
            old(self).wf(),
        ensures
            final(self).wf(),
            !old(self).model().searching ==> final(self).model() == old(self).model(),
            old(self).model().searching ==> ({
                let typed = AppModel { search: old(self).model().search.push(character), ..old(self).model() };
                final(self).model() == (AppModel { selected: select_first_visible(typed), ..typed })
            }),
    {
        if self.searching {
            push_char(&mut self.search, character);
            self.select_first_visible_if_needed();
        }
    }

    /// Removes the last character of the search while a search is being
    /// typed.
    pub fn pop_search(&mut self)
        requires
            old(self).wf(),
        ensures
            final(self).wf(),
            !old(self).model().searching ==> final(self).model() == old(self).model(),
            old(self).model().searching ==> ({
                let search = old(self).model().search;
                let typed = AppModel {
                    search: if search.len() > 0 {
                        search.drop_last()
                    } else {
                        search
                    },
                    ..old(self).model()
                };
                final(self).model() == (AppModel { selected: select_first_visible(typed), ..typed })
            }),
    {
        if self.searching {
            pop_char(&mut self.search);
            self.select_first_visible_if_needed();
        }
    }

    /// Clears and leaves the search, returning to the session selected when
    /// it began where that session is still loaded.
    pub fn cancel_search(&mut self)
        requires
            old(self).wf(),
        ensures
            final(self).wf(),
            final(self).model() == (AppModel {
                search: Seq::empty(),
                searching: false,
                search_restore_id: None,
                selected: selection_after_cancel(old(self).model()),
                ..old(self).model()
            }),
    {
        self.search = String::new();
        self.searching = false;
        let restore = self.search_restore_id.take();
        match restore {
            Some(id) => {
                match find_session(&self.sessions, &id) {
                    Some(index) => {
                        self.selected = Some(index);
                    },
                    None => {},
                }
            },
            None => {},
        }
    }

    /// Opens the details of the selected session where it is visible.
    pub fn open_selected(&mut self)
        requires
            old(self).wf(),
        ensures
            final(self).wf(),
            final(self).model() == (AppModel {
                view: if selected_visible_position(old(self).model()) is Some {
                    Screen::Details
                } else {
                    old(self).model().view
                },
                ..old(self).model()
            }),
    {
        if self.selected_filtered_index().is_some() {
            self.view = Screen::Details;
        }
    }

    /// Returns from the details to the session list.
    pub fn close_details(&mut self)
        requires
            old(self).wf(),
        ensures
            final(self).wf(),
            final(self).model() == (AppModel { view: Screen::Sessions, ..old(self).model() }),
    {
        self.view = Screen::Sessions;
    }

    /// Moves the selection through the visible rows, staying inside them.
    pub fn navigate(&mut self, navigation: Navigation)
        requires
            old(self).wf(),
        ensures
            final(self).wf(),
            visible(old(self).model()).len() == 0 ==> final(self).model() == old(self).model(),
            visible(old(self).model()).len() > 0 ==> final(self).model() == (AppModel {
                selected: Some(visible(old(self).model())[navigation_target(old(self).model(), navigation)]),
                ..old(self).model()
            }),
    {
        let visible_rows = self.filtered_indices();
        if visible_rows.len() == 0 {
            return;
        }
        let last = visible_rows.len() - 1;
        let current = match self.selected_filtered_index() {
            Some(position) => position,
            None => match navigation {
                Navigation::End => last,
                _ => 0,
            },
        };
        proof {
            lemma_position_of_in_range(visible_rows@, self.selected->0);
        }
        let next = match navigation {
            Navigation::Home => 0,
            Navigation::End => last,
            Navigation::Up => if current == 0 {
                0
            } else {
                current - 1
            },
            Navigation::Down => if current >= last {
                last
            } else {
                current + 1
            },
        };
        proof {
            lemma_visible_in_range(self.model());
        }
        self.selected = Some(visible_rows[next]);
    }
}

impl App {
    /// Applies one message from the loader: a page is merged in, a failure
    /// becomes the error (nothing loaded) or a warning (rows stay usable),
    /// and completion settles the state.
    pub fn apply(&mut self, message: WorkerMessage)
        requires
            old(self).wf(),
        ensures
            final(self).wf(),
            final(self).model() == after_message(old(self).model(), message),
    {
        match message {
            WorkerMessage::Page(page) => self.append_page(page),
            WorkerMessage::Failed(text) => {
                let text = sanitize_failure_message(text.as_str());
                self.loading_more = false;
                if self.sessions.len() == 0 {
                    self.state = LoadState::Failed(text);
                } else {
                    self.state = LoadState::Ready;
                    self.warning = Some(text);
                }
            },
            WorkerMessage::Complete => {
                self.loading_more = false;
                self.warning = None;
                self.state = if self.sessions.len() == 0 {
                    LoadState::Empty
                } else {
                    LoadState::Ready
                };
            },
        }
    }

    /// Merges a page: adds the sessions not loaded yet, keeps recency order,
    /// and keeps the selected session selected.
    fn append_page(&mut self, page: SessionPage)
        requires
            old(self).wf(),
        ensures
            final(self).wf(),
            final(self).model() == after_message(old(self).model(), WorkerMessage::Page(page)),
    {
        let ghost m = self.model();
        let ghost incoming_all = page.sessions@;
        let selected_id: Option<SessionId> = match self.selected_session() {
            Some(session) => Some(session.id.clone()),
            None => None,
        };
        let SessionPage { sessions: incoming, next_cursor } = page;
        let mut combined: Vec<Session> = Vec::new();
        std::mem::swap(&mut combined, &mut self.sessions);
        let mut incoming = incoming;
        let ghost mut k: int = 0;
        assert(incoming_all.skip(0) =~= incoming_all);
        while incoming.len() > 0
            invariant
                0 <= k <= incoming_all.len(),
                incoming@ == incoming_all.skip(k),
                append_new(m.sessions, incoming_all) == append_new(combined@, incoming@),
            decreases incoming@.len(),
        {
            let session = incoming.remove(0);
            let ghost rest = incoming@;
            if find_session(&combined, &session.id).is_none() {
                combined.push(session);
            }
            proof {
                assert(rest =~= incoming_all.skip(k + 1));
                k = k + 1;
            }
        }
        assert(append_new(combined@, incoming@) == combined@);
        let combined_len = combined.len();
        assert(combined_len == append_new(m.sessions, incoming_all).len());
        let merged = sort_sessions(combined);
        proof {
            lemma_sorted_len(append_new(m.sessions, incoming_all));
            lemma_append_new_len(m.sessions, incoming_all);
            lemma_append_new_keeps(m.sessions, incoming_all);
            lemma_sorted_by_recency_in_order(append_new(m.sessions, incoming_all));
            lemma_sorted_by_recency_distinct(append_new(m.sessions, incoming_all));
        }
        let kept = match selected_id {
            Some(id) => find_session(&merged, &id),
            None => None,
        };
        self.selected = match kept {
            Some(index) => Some(index),
            None => if merged.len() > 0 {
                Some(0)
            } else {
                None
            },
        };
        self.state = if merged.len() == 0 {
            LoadState::Loading
        } else {
            LoadState::Ready
        };
        self.sessions = merged;
        self.loading_more = next_cursor.is_some();
        self.warning = None;
    }
}

impl Default for App {
    /// The state before anything has loaded.
    fn default() -> (r: App)
        ensures
            r.wf(),
            r.model() == (AppModel {
                sessions: Seq::empty(),
                selected: None,
                state: LoadStateView::Loading,
                loading_more: true,
                warning: None,
                search: Seq::empty(),
                searching: false,
                search_restore_id: None,
                view: Screen::Sessions,
                home: None,
            }),
    {
        let app = App::new();
        assert(app.model().sessions =~= Seq::<Session>::empty());
        assert(app.model().search =~= Seq::<char>::empty());
        app
    }
}

proof fn lemma_position_of_in_range(s: Seq<usize>, x: usize)
    requires
        s.len() <= usize::MAX,
    ensures
        position_of(s, x) matches Some(k) ==> k < s.len() && s[k as int] == x,
    decreases s.len(),
{
    if s.len() > 0 {
        lemma_position_of_in_range(s.drop_last(), x);
        if let Some(k) = position_of(s.drop_last(), x) {
            assert(s.drop_last()[k as int] == s[k as int]);
        }
    }
}

/// Whether the lower-cased `field` contains `query`.
fn field_matches_exec(field: &str, query: &[char]) -> (r: bool)
    ensures
        r == field_matches(field@, query@),
{
    let lowered = to_lowercase(field);
    let characters = chars_of(lowered.as_str());
    contains_chars(characters.as_slice(), query)
}

/// Whether `session` matches the lower-cased search `query`.
fn session_matches_exec(session: &Session, query: &[char]) -> (r: bool)
    ensures
        r == session_matches(*session, query@),
{
    if query.len() == 0 {
        return true;
    }
    let empty = String::new();
    let name = match &session.name {
        Some(n) => n.as_str(),
        None => empty.as_str(),
    };
    let branch = match &session.branch {
        Some(b) => b.as_str(),
        None => empty.as_str(),
    };
    field_matches_exec(name, query) || field_matches_exec(session.cwd.as_str(), query)
        || field_matches_exec(session.provider.as_str(), query) || field_matches_exec(
        session.status.as_str(),
        query,
    ) || field_matches_exec(branch, query)
}

/// Where the first session with the identifier `id` stands.
fn find_session(sessions: &Vec<Session>, id: &SessionId) -> (r: Option<usize>)
    ensures
        r == position_of_id(sessions@, id@),
        r matches Some(k) ==> k < sessions@.len() && sessions@[k as int].id@ == id@,
{
    let mut i: usize = 0;
    while i < sessions.len()
        invariant
            i <= sessions@.len(),
            position_of_id(sessions@.take(i as int), id@) is None,
        decreases sessions@.len() - i,
    {
        assert(sessions@.take(i + 1).drop_last() =~= sessions@.take(i as int));
        if sessions[i].id.same_as(id) {
            proof {
                lemma_position_of_id_extends(sessions@, id@, i + 1);
            }
            return Some(i);
        }
        i = i + 1;
    }
    assert(sessions@.take(i as int) =~= sessions@);
    None
}

proof fn lemma_position_of_id_extends(sessions: Seq<Session>, id: Seq<char>, n: int)
    requires
        0 <= n <= sessions.len(),
        position_of_id(sessions.take(n), id) is Some,
    ensures
        position_of_id(sessions, id) == position_of_id(sessions.take(n), id),
    decreases sessions.len() - n,
{
    if n == sessions.len() {
        assert(sessions.take(n) =~= sessions);
    } else {
        assert(sessions.take(n + 1).drop_last() =~= sessions.take(n));
        lemma_position_of_id_extends(sessions, id, n + 1);
    }
}

proof fn lemma_position_of_extends(s: Seq<usize>, x: usize, n: int)
    requires
        0 <= n <= s.len(),
        position_of(s.take(n), x) is Some,
    ensures
        position_of(s, x) == position_of(s.take(n), x),
    decreases s.len() - n,
{
    if n == s.len() {
        assert(s.take(n) =~= s);
    } else {
        assert(s.take(n + 1).drop_last() =~= s.take(n));
        lemma_position_of_extends(s, x, n + 1);
    }
}

/// The failure text shown for a loader error is never empty and always fits
/// one terminal line.
pub proof fn lemma_failure_text_is_one_line(message: Seq<char>)
    ensures
        crate::text::is_one_line(failure_text(message)),
        failure_text(message).len() > 0,
{
    crate::text::lemma_sanitized_is_one_line(message);
    let t = unknown_error_text();
    assert(crate::text::is_one_line(t)) by {
        assert forall|i: int| 0 <= i < t.len() implies (crate::text::is_blank_char(#[trigger] t[i])
            ==> t[i] == ' ') by {}
        assert forall|i: int| 0 <= i < t.len() - 1 implies !(#[trigger] t[i] == ' ' && t[i + 1]
            == ' ') by {}
    }
}

/// A later failure keeps the loaded sessions and the selection: with
/// sessions loaded, the state stays ready and the failure becomes a warning;
/// loading stops either way.
pub proof fn lemma_failure_keeps_loaded_sessions(m: AppModel, text: String)
    ensures
        after_message(m, WorkerMessage::Failed(text)).sessions == m.sessions,
        after_message(m, WorkerMessage::Failed(text)).selected == m.selected,
        !after_message(m, WorkerMessage::Failed(text)).loading_more,
        m.sessions.len() > 0 ==> after_message(m, WorkerMessage::Failed(text)).state
            == LoadStateView::Ready && after_message(m, WorkerMessage::Failed(text)).warning
            == Some(failure_text(text@)),
        m.sessions.len() == 0 ==> after_message(m, WorkerMessage::Failed(text)).state
            == LoadStateView::Failed(failure_text(text@)),
{
}

/// Navigation from the visible row at position `p`: Up moves exactly one row
/// up and stays on the first row, Down moves exactly one row down and stays
/// on the last row, Home goes to the first row and End to the last.
pub proof fn lemma_navigation_moves_one_row(m: AppModel, p: usize)
    requires
        selected_visible_position(m) == Some(p),
    ensures
        p > 0 ==> navigation_target(m, Navigation::Up) == p - 1,
        p == 0 ==> navigation_target(m, Navigation::Up) == 0,
        p + 1 < visible(m).len() ==> navigation_target(m, Navigation::Down) == p + 1,
        p + 1 >= visible(m).len() ==> navigation_target(m, Navigation::Down) == visible(m).len()
            - 1,
        navigation_target(m, Navigation::Home) == 0,
        navigation_target(m, Navigation::End) == visible(m).len() - 1,
{
}

proof fn lemma_matching_indices_exact(sessions: Seq<Session>, query: Seq<char>, n: nat, i: int)
    requires
        0 <= i < n,
        n <= usize::MAX,
    ensures
        matching_indices(sessions, query, n).contains(i as usize) <==> session_matches(
            sessions[i],
            query,
        ),
    decreases n,
{
    let prev = matching_indices(sessions, query, (n - 1) as nat);
    lemma_matching_indices_below(sessions, query, (n - 1) as nat);
    if i < n - 1 {
        lemma_matching_indices_exact(sessions, query, (n - 1) as nat, i);
        if session_matches(sessions[n - 1], query) {
            let all = prev.push((n - 1) as usize);
            if all.contains(i as usize) {
                let k = choose|k: int| 0 <= k < all.len() && all[k] == i as usize;
                assert(k < prev.len());
                assert(prev[k] == i as usize);
            }
            if prev.contains(i as usize) {
                let k = choose|k: int| 0 <= k < prev.len() && prev[k] == i as usize;
                assert(all[k] == i as usize);
            }
        }
    } else {
        if session_matches(sessions[n - 1], query) {
            assert(prev.push((n - 1) as usize)[prev.len() as int] == (n - 1) as usize);
        } else {
            if prev.contains(i as usize) {
                let k = choose|k: int| 0 <= k < prev.len() && prev[k] == i as usize;
                assert(prev[k] < n - 1);
            }
        }
    }
}

/// The visible rows are exactly the loaded sessions that match the
/// lower-cased search text.
pub proof fn lemma_visible_rows_match(m: AppModel, i: int)
    requires
        model_wf(m),
        0 <= i < m.sessions.len(),
    ensures
        visible(m).contains(i as usize) <==> session_matches(m.sessions[i], lowercase(m.search)),
{
    lemma_matching_indices_exact(m.sessions, lowercase(m.search), m.sessions.len(), i);
}

/// Search ignores the case of letters in every searched field: two
/// sessions whose name, working directory, provider, status and branch
/// agree once lower-cased match the same queries, whatever else differs.
pub proof fn lemma_search_ignores_case(a: Session, b: Session, query: Seq<char>)
    requires
        lowercase(text_or_empty(a.name)) == lowercase(text_or_empty(b.name)),
        lowercase(a.cwd@) == lowercase(b.cwd@),
        lowercase(a.provider@) == lowercase(b.provider@),
        lowercase(a.status@) == lowercase(b.status@),
        lowercase(text_or_empty(a.branch)) == lowercase(text_or_empty(b.branch)),
    ensures
        session_matches(a, query) == session_matches(b, query),
{
}

/// A session matches a (lower-cased) query whenever any one of its name,
/// working directory, provider, status or branch contains the query once
/// lower-cased.
pub proof fn lemma_search_finds_every_field(session: Session, query: Seq<char>)
    ensures
        text_contains(lowercase(text_or_empty(session.name)), query) ==> session_matches(
            session,
            query,
        ),
        text_contains(lowercase(session.cwd@), query) ==> session_matches(session, query),
        text_contains(lowercase(session.provider@), query) ==> session_matches(session, query),
        text_contains(lowercase(session.status@), query) ==> session_matches(session, query),
        text_contains(lowercase(text_or_empty(session.branch)), query) ==> session_matches(
            session,
            query,
        ),
{
}

/// An arriving page leaves exactly the loaded sessions and the page's
/// sessions whose identifiers were neither loaded nor earlier in the page,
/// in recency order and with no identifier twice.
pub proof fn lemma_page_merges_in_order(m: AppModel, page: SessionPage)
    requires
        model_wf(m),
        append_new(m.sessions, page.sessions@).len() <= usize::MAX,
    ensures
        after_message(m, WorkerMessage::Page(page)).sessions.to_multiset() == append_new(
            m.sessions,
            page.sessions@,
        ).to_multiset(),
        in_recency_order(after_message(m, WorkerMessage::Page(page)).sessions),
        distinct_ids(after_message(m, WorkerMessage::Page(page)).sessions),
{
    let combined = append_new(m.sessions, page.sessions@);
    lemma_append_new_keeps(m.sessions, page.sessions@);
    lemma_sorted_by_recency_permutes(combined);
    lemma_sorted_by_recency_in_order(combined);
    lemma_sorted_by_recency_distinct(combined);
}

/// An arriving page keeps the selected session selected, by identity,
/// wherever re-sorting moves it.
pub proof fn lemma_page_keeps_selected_session(m: AppModel, page: SessionPage)
    requires
        model_wf(m),
        selected_session_of(m) is Some,
        append_new(m.sessions, page.sessions@).len() <= usize::MAX,
    ensures
        selected_session_of(after_message(m, WorkerMessage::Page(page))) matches Some(kept) && kept.id@
            == selected_session_of(m)->0.id@,
{
    let s = selected_session_of(m)->0;
    let combined = append_new(m.sessions, page.sessions@);
    let merged = merged_sessions(m.sessions, page.sessions@);
    lemma_append_new_keeps(m.sessions, page.sessions@);
    let i = m.selected->0 as int;
    assert(combined[i] == s);
    assert(combined.contains(s));
    lemma_sorted_by_recency_contains(combined, s);
    lemma_sorted_len(combined);
    let k = choose|k: int| 0 <= k < merged.len() && merged[k] == s;
    lemma_position_of_id_complete(merged, s.id@, k);
    lemma_position_of_id_in_range(merged, s.id@);
}

/// Every loaded session is still loaded after a page arrives: pages only
/// add sessions.
pub proof fn lemma_page_keeps_loaded_sessions(m: AppModel, page: SessionPage, s: Session)
    requires
        model_wf(m),
        m.sessions.contains(s),
        append_new(m.sessions, page.sessions@).len() <= usize::MAX,
    ensures
        after_message(m, WorkerMessage::Page(page)).sessions.contains(s),
{
    let combined = append_new(m.sessions, page.sessions@);
    lemma_append_new_keeps(m.sessions, page.sessions@);
    let i = choose|i: int| 0 <= i < m.sessions.len() && m.sessions[i] == s;
    assert(combined[i] == s);
    lemma_sorted_by_recency_contains(combined, s);
}

/// Navigation keeps the selection on a visible row: the target lies among
/// the visible rows whenever there are any.
pub proof fn lemma_navigation_stays_visible(m: AppModel, navigation: Navigation)
    requires
        model_wf(m),
        visible(m).len() > 0,
    ensures
        0 <= navigation_target(m, navigation) < visible(m).len(),
{
    if let Some(index) = m.selected {
        lemma_matching_indices_len(m.sessions, lowercase(m.search), m.sessions.len());
        lemma_position_of_in_range(visible(m), index);
    }
}

proof fn lemma_matching_indices_len(sessions: Seq<Session>, query: Seq<char>, n: nat)
    ensures
        matching_indices(sessions, query, n).len() <= n,
    decreases n,
{
    if n > 0 {
        lemma_matching_indices_len(sessions, query, (n - 1) as nat);
    }
}

/// Search never looks at the preview: sessions that differ only in their
/// preview match the same queries.
pub proof fn lemma_search_ignores_preview(session: Session, preview: String, query: Seq<char>)
    ensures
        session_matches(Session { preview, ..session }, query) == session_matches(session, query),
{
}

/// Cancelling a search returns to the session selected when it began,
/// wherever that session now stands.
pub proof fn lemma_cancel_restores_selection(m: AppModel, i: int)
    requires
        model_wf(m),
        m.search_restore_id is Some,
        0 <= i < m.sessions.len(),
        m.sessions[i].id@ == m.search_restore_id->0,
    ensures
        selection_after_cancel(m) matches Some(index) && index < m.sessions.len()
            && m.sessions[index as int].id@ == m.search_restore_id->0,
{
    lemma_position_of_id_complete(m.sessions, m.search_restore_id->0, i);
    lemma_position_of_id_in_range(m.sessions, m.search_restore_id->0);
}

} // verus!
