//! What the explorer remembers between user actions: the search being typed
//! and whether a search runs, and the directory being shown.  Each action
//! is a step from one state to the next, with the work it asks of the caller.

use vstd::prelude::*;

verus! {

// ---------------------------------------------------------------------------
// Search
// ---------------------------------------------------------------------------

/// The search state as values: the query typed so far and whether a search
/// is running.
pub type SearchModel = (Seq<char>, bool);

/// The work a search step asks for, as values.
pub enum SearchStep {
    /// Show the current directory's listing again.
    ShowListing,
    /// Start a search for the query.
    Search(Seq<char>),
    /// Nothing to do.
    Nothing,
}

/// The work a search step asks of the caller.
#[derive(Debug, PartialEq, Eq)]
pub enum SearchAction {
    /// Show the current directory's listing again.
    ShowListing,
    /// Start a search for this query in the background.
    Search(String),
    /// Nothing to do.
    Nothing,
}

impl View for SearchAction {
    type V = SearchStep;

    open spec fn view(&self) -> SearchStep {
        match self {
            SearchAction::ShowListing => SearchStep::ShowListing,
            SearchAction::Search(q) => SearchStep::Search(q@),
            SearchAction::Nothing => SearchStep::Nothing,
        }
    }
}

/// Starting a search for `query`: an empty query runs no search; any other
/// marks a search as running.  The flag says whether a search is started.
pub open spec fn begin_search_step(s: SearchModel, query: Seq<char>) -> (SearchModel, bool) {
    if query.len() == 0 {
        ((s.0, false), false)
    } else {
        ((s.0, true), true)
    }
}

/// The search text changed to `text`: it becomes the query; an empty text
/// ends any search and shows the listing again, any other starts a search.
pub open spec fn text_changed_step(s: SearchModel, text: Seq<char>) -> (SearchModel, SearchStep) {
    if text.len() == 0 {
        ((text, false), SearchStep::ShowListing)
    } else {
        ((text, true), SearchStep::Search(text))
    }
}

/// The search was submitted: a non-empty query is searched for (again).
pub open spec fn submitted_step(s: SearchModel) -> (SearchModel, SearchStep) {
    if s.0.len() == 0 {
        (s, SearchStep::Nothing)
    } else {
        ((s.0, true), SearchStep::Search(s.0))
    }
}

/// A search finished: no search runs any more.
pub open spec fn finished_step(s: SearchModel) -> SearchModel {
    (s.0, false)
}

/// The query typed so far and whether a search is running.
pub struct SearchState {
    query: String,
    is_searching: bool,
}

impl View for SearchState {
    type V = SearchModel;

    closed spec fn view(&self) -> SearchModel {
        (self.query@, self.is_searching)
    }
}

impl SearchState {
    /// No query, no search running.
    pub fn new() -> (state: SearchState)
        ensures
            state@ == (Seq::<char>::empty(), false),
    {
        SearchState { query: String::new(), is_searching: false }
    }

    /// The query typed so far.
    pub fn query(&self) -> (query: &str)
        ensures
            query@ == self@.0,
    {
        self.query.as_str()
    }

    /// Whether a search is running.
    pub fn is_searching(&self) -> (searching: bool)
        ensures
            searching == self@.1,
    {
        self.is_searching
    }

    /// Decides whether a search for `query` starts, and records it.
    pub fn begin_search(&mut self, query: &str) -> (start: bool)
        ensures
            (final(self)@, start) == begin_search_step(old(self)@, query@),
    {
        if query.is_empty() {
            self.is_searching = false;
            false
        } else {
            self.is_searching = true;
            true
        }
    }

    /// The search text changed to `text`.
    pub fn on_text_changed(&mut self, text: String) -> (action: SearchAction)
        ensures
            (final(self)@, action@) == text_changed_step(old(self)@, text@),
            final(self)@.0 == text@,
            text@.len() > 0 ==> action@ == SearchStep::Search(text@) && final(self)@.1,
            text@.len() == 0 ==> action@ == SearchStep::ShowListing && !final(self)@.1,
    {
        self.query = text;
        if self.query.as_str().is_empty() {
            self.is_searching = false;
            SearchAction::ShowListing
        } else {
            let query = self.query.clone();
            let start = self.begin_search(query.as_str());
            assert(start);
            SearchAction::Search(query)
        }
    }

    /// The search was submitted.
    pub fn on_submitted(&mut self) -> (action: SearchAction)
        ensures
            (final(self)@, action@) == submitted_step(old(self)@),
    {
        if self.query.as_str().is_empty() {
            SearchAction::Nothing
        } else {
            let query = self.query.clone();
            let start = self.begin_search(query.as_str());
            assert(start);
            SearchAction::Search(query)
        }
    }

    /// A search finished.
    pub fn on_search_finished(&mut self)
        ensures
            final(self)@ == finished_step(old(self)@),
    {
        self.is_searching = false;
    }
}

/// A changed, non-empty text starts a search for exactly that text, whatever
/// was typed before; two edits in a row search for the second text.
pub proof fn lemma_typing_searches_typed_text(s: SearchModel, first: Seq<char>, text: Seq<char>)
    requires
        text.len() > 0,
    ensures
        text_changed_step(s, text).1 == SearchStep::Search(text),
        text_changed_step(s, text).0 == (text, true),
        text_changed_step(text_changed_step(s, first).0, text).1 == SearchStep::Search(text),
{
}

/// Submitting repeats the search for the text typed last, if it is not empty.
pub proof fn lemma_submit_searches_last_text(s: SearchModel, text: Seq<char>)
    requires
        text.len() > 0,
    ensures
        submitted_step(text_changed_step(s, text).0).1 == SearchStep::Search(text),
        submitted_step(text_changed_step(s, text).0).0.1,
{
}

/// Clearing the text ends the search and shows the listing; submitting then
/// does nothing.
pub proof fn lemma_cleared_text_ends_search(s: SearchModel, text: Seq<char>)
    requires
        text.len() == 0,
    ensures
        !text_changed_step(s, text).0.1,
        text_changed_step(s, text).1 == SearchStep::ShowListing,
        submitted_step(text_changed_step(s, text).0).1 == SearchStep::Nothing,
{
}

/// A search is running exactly when the query is not empty, in every state
/// reached from the start by typing and submitting (before any search ends).
pub proof fn lemma_searching_iff_query(s: SearchModel, text: Seq<char>)
    requires
        s.1 <==> s.0.len() > 0,
    ensures
        text_changed_step(s, text).0.1 <==> text_changed_step(s, text).0.0.len() > 0,
        submitted_step(s).0.1 <==> submitted_step(s).0.0.len() > 0,
{
}

// ---------------------------------------------------------------------------
// Navigation
// ---------------------------------------------------------------------------

/// The directory being shown and the root the explorer started at.
pub struct Navigator {
    root: String,
    current: String,
}

impl Navigator {
    /// The root directory.
    pub closed spec fn root_path(&self) -> Seq<char> {
        self.root@
    }

    /// The directory being shown.
    pub closed spec fn current_path(&self) -> Seq<char> {
        self.current@
    }

    /// Starts at `root`.
    pub fn new(root: String) -> (nav: Navigator)
        ensures
            nav.root_path() == root@,
            nav.current_path() == root@,
    {
        let current = root.clone();
        Navigator { root, current }
    }

    /// The directory being shown.
    pub fn current(&self) -> (path: &str)
        ensures
            path@ == self.current_path(),
    {
        self.current.as_str()
    }

    /// Goes back to the root.
    pub fn go_to_root(&mut self)
        ensures
            final(self).root_path() == old(self).root_path(),
            final(self).current_path() == old(self).root_path(),
    {
        self.current = self.root.clone();
    }

    /// Opens the directory `path` if `path_exists`; returns whether it moved.
    pub fn navigate(&mut self, path: String, path_exists: bool) -> (moved: bool)
        ensures
            moved == path_exists,
            final(self).root_path() == old(self).root_path(),
            final(self).current_path() == (if path_exists {
                path@
            } else {
                old(self).current_path()
            }),
    {
        if path_exists {
            self.current = path;
        }
        path_exists
    }

    /// Goes up to the parent directory of the current one (`None` at the top,
    /// where it stays); returns whether it moved.
    pub fn go_up(&mut self, parent: Option<String>) -> (moved: bool)
        ensures
            moved == parent is Some,
            final(self).root_path() == old(self).root_path(),
            final(self).current_path() == (match parent {
                Some(p) => p@,
                None => old(self).current_path(),
            }),
    {
        match parent {
            Some(p) => {
                self.current = p;
                true
            },
            None => false,
        }
    }
}

} // verus!
