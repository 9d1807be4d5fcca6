//! Memory entries and what a recall may return.
use vstd::prelude::*;
use crate::text::opt_string;

verus! {

/// What an entry is about.
#[derive(Debug, PartialEq, Eq)]
pub enum Category {
    Core,
    Daily,
    Conversation,
    Global,
    Custom(String),
}

pub enum CategoryView {
    Core,
    Daily,
    Conversation,
    Global,
    Custom(Seq<char>),
}

impl View for Category {
    type V = CategoryView;

    open spec fn view(&self) -> CategoryView {
        match *self {
            Category::Core => CategoryView::Core,
            Category::Daily => CategoryView::Daily,
            Category::Conversation => CategoryView::Conversation,
            Category::Global => CategoryView::Global,
            Category::Custom(s) => CategoryView::Custom(s@),
        }
    }
}

/// How much of memory a recall reaches.
#[derive(Debug, PartialEq, Eq)]
pub enum RecallScope {
    /// Everything, conversations included.
    Full,
    /// Everything but conversations.
    FactsOnly,
    /// Everything but conversations of other topics.
    CurrentTopic { topic_id: String },
    /// Nothing.
    Clean,
}

pub enum ScopeView {
    Full,
    FactsOnly,
    CurrentTopic { topic_id: Seq<char> },
    Clean,
}

impl View for RecallScope {
    type V = ScopeView;

    open spec fn view(&self) -> ScopeView {
        match *self {
            RecallScope::Full => ScopeView::Full,
            RecallScope::FactsOnly => ScopeView::FactsOnly,
            RecallScope::CurrentTopic { topic_id } => ScopeView::CurrentTopic {
                topic_id: topic_id@,
            },
            RecallScope::Clean => ScopeView::Clean,
        }
    }
}

/// One remembered item.
#[derive(Debug)]
pub struct MemoryEntry {
    pub key: String,
    pub content: String,
    pub category: Category,
    pub session: Option<String>,
    pub topic: Option<String>,
}

pub struct EntryView {
    pub key: Seq<char>,
    pub content: Seq<char>,
    pub category: CategoryView,
    pub session: Option<Seq<char>>,
    pub topic: Option<Seq<char>>,
}

impl View for MemoryEntry {
    type V = EntryView;

    open spec fn view(&self) -> EntryView {
        EntryView {
            key: self.key@,
            content: self.content@,
            category: self.category@,
            session: opt_string(self.session),
            topic: opt_string(self.topic),
        }
    }
}

/// The views of a sequence of entries.
pub open spec fn entry_views(s: Seq<MemoryEntry>) -> Seq<EntryView> {
    Seq::new(s.len(), |i: int| s[i]@)
}

impl Clone for Category {
    fn clone(&self) -> (r: Category)
        ensures
            r@ == self@,
    {
        match self {
            Category::Core => Category::Core,
            Category::Daily => Category::Daily,
            Category::Conversation => Category::Conversation,
            Category::Global => Category::Global,
            Category::Custom(s) => Category::Custom(s.clone()),
        }
    }
}

/// A copy of an optional string.
pub fn clone_opt(o: &Option<String>) -> (r: Option<String>)
    ensures
        opt_string(r) == opt_string(*o),
{
    match o {
        Some(s) => Some(s.clone()),
        None => None,
    }
}

impl Clone for MemoryEntry {
    fn clone(&self) -> (r: MemoryEntry)
        ensures
            r@ == self@,
    {
        MemoryEntry {
            key: self.key.clone(),
            content: self.content.clone(),
            category: self.category.clone(),
            session: clone_opt(&self.session),
            topic: clone_opt(&self.topic),
        }
    }
}

impl Clone for RecallScope {
    fn clone(&self) -> (r: RecallScope)
        ensures
            r@ == self@,
    {
        match self {
            RecallScope::Full => RecallScope::Full,
            RecallScope::FactsOnly => RecallScope::FactsOnly,
            RecallScope::CurrentTopic { topic_id } => RecallScope::CurrentTopic {
                topic_id: topic_id.clone(),
            },
            RecallScope::Clean => RecallScope::Clean,
        }
    }
}

/// A store of entries.
pub trait Memory {
    fn name(&self) -> &str;

    fn store(
        &self,
        key: &str,
        content: &str,
        category: Category,
        session: Option<&str>,
        topic: Option<&str>,
    ) -> Result<(), String>;

    /// The entries that match a query, within a scope; a session limits which
    /// conversations are reached.
    fn recall(
        &self,
        query: &str,
        limit: usize,
        session: Option<&str>,
        scope: RecallScope,
    ) -> Result<Vec<MemoryEntry>, String>;

    fn get(&self, key: &str) -> Result<Option<MemoryEntry>, String>;

    fn list(&self, category: Option<&Category>, session: Option<&str>) -> Result<
        Vec<MemoryEntry>,
        String,
    >;

    fn forget(&self, key: &str) -> Result<bool, String>;

    fn count(&self) -> Result<usize, String>;

    fn health_check(&self) -> bool;
}

} // verus!
