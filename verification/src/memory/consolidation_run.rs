//! A run of consolidation: what is to be done after each answer of the model and
//! of the memory.
use vstd::prelude::*;
use crate::memory::consolidation::{
    batch_size_of, batch_views, consolidate, consolidate_batch, groups_in, job_views, jobs_of,
    lemma_other_keys, merge_prompt, merge_question, merged_of, obsolete, planned_batches,
    takes_part, JobView, MergeJob, MIN_ENTRIES_FOR_CONSOLIDATION,
};
use crate::model::memory::{entry_views, Category, CategoryView, EntryView, Memory, MemoryEntry};
use crate::text::{opt_str, opt_string, texts};

verus! {

// ---- answers and what follows ----

/// An answer that a run waits for; a failure by what it says.
#[derive(Debug)]
pub enum RunEvent {
    /// The model's reply about the groups of a batch, which begins the batch.
    Clustered(Result<String, String>),
    /// The model's reply about the merged content of a group.
    Merged(Result<String, String>),
    /// The merged entry of a group was stored, or not.
    Stored(Result<(), String>),
    /// Whether there was an entry to forget.
    Forgotten(Result<bool, String>),
}

pub enum RunEventView {
    Clustered(Result<Seq<char>, Seq<char>>),
    Merged(Result<Seq<char>, Seq<char>>),
    Stored(Result<(), Seq<char>>),
    Forgotten(Result<bool, Seq<char>>),
}

pub open spec fn reply_view(r: Result<String, String>) -> Result<Seq<char>, Seq<char>> {
    match r {
        Ok(s) => Ok(s@),
        Err(e) => Err(e@),
    }
}

pub open spec fn failure_view<T>(r: Result<T, String>) -> Result<T, Seq<char>> {
    match r {
        Ok(x) => Ok(x),
        Err(e) => Err(e@),
    }
}

impl View for RunEvent {
    type V = RunEventView;

    open spec fn view(&self) -> RunEventView {
        match *self {
            RunEvent::Clustered(r) => RunEventView::Clustered(reply_view(r)),
            RunEvent::Merged(r) => RunEventView::Merged(reply_view(r)),
            RunEvent::Stored(r) => RunEventView::Stored(failure_view(r)),
            RunEvent::Forgotten(r) => RunEventView::Forgotten(failure_view(r)),
        }
    }
}

/// What is to be done next.
#[derive(Debug)]
pub enum RunAction {
    /// Ask the model to merge a group.
    AskMerge(String),
    /// Store the merged entry of a group.
    Store(MemoryEntry),
    /// Forget the entry under a key.
    Forget(String),
    /// The batch is done.
    NextBatch,
}

pub enum RunActionView {
    AskMerge(Seq<char>),
    Store(EntryView),
    Forget(Seq<char>),
    NextBatch,
}

impl View for RunAction {
    type V = RunActionView;

    open spec fn view(&self) -> RunActionView {
        match *self {
            RunAction::AskMerge(s) => RunActionView::AskMerge(s@),
            RunAction::Store(e) => RunActionView::Store(e@),
            RunAction::Forget(k) => RunActionView::Forget(k@),
            RunAction::NextBatch => RunActionView::NextBatch,
        }
    }
}

/// What a run waits for.
#[derive(Clone, Copy, Debug, PartialEq, Eq, Structural)]
pub enum RunPhase {
    Clustering,
    Merging,
    Storing,
    Forgetting,
}

/// A run of consolidation.
#[derive(Debug)]
pub struct ConsolidationRun {
    pub phase: RunPhase,
    /// The groups of the batch that are not done, the current one first.
    pub jobs: Vec<MergeJob>,
    /// The keys of the current group that are still to be forgotten.
    pub keys: Vec<String>,
    /// How many entries were forgotten so far.
    pub removed: usize,
}

pub struct RunView {
    pub phase: RunPhase,
    pub jobs: Seq<JobView>,
    pub keys: Seq<Seq<char>>,
    pub removed: int,
}

impl View for ConsolidationRun {
    type V = RunView;

    open spec fn view(&self) -> RunView {
        RunView {
            phase: self.phase,
            jobs: job_views(self.jobs@),
            keys: texts(self.keys@),
            removed: self.removed as int,
        }
    }
}

/// The batch is done.
pub open spec fn rested(removed: int) -> (RunView, RunActionView) {
    (
        RunView { phase: RunPhase::Clustering, jobs: Seq::empty(), keys: Seq::empty(), removed },
        RunActionView::NextBatch,
    )
}

/// The model is asked about the first of the groups that are left.
pub open spec fn asked(jobs: Seq<JobView>, removed: int) -> (RunView, RunActionView) {
    if jobs.len() == 0 {
        rested(removed)
    } else {
        (
            RunView { phase: RunPhase::Merging, jobs, keys: Seq::empty(), removed },
            RunActionView::AskMerge(merge_question(jobs[0].members)),
        )
    }
}

/// The first of the keys that are left is forgotten, or the next group comes.
pub open spec fn cleared(jobs: Seq<JobView>, keys: Seq<Seq<char>>, removed: int) -> (
    RunView,
    RunActionView,
) {
    if keys.len() == 0 {
        asked(jobs.drop_first(), removed)
    } else {
        (
            RunView { phase: RunPhase::Forgetting, jobs, keys: keys.drop_first(), removed },
            RunActionView::Forget(keys[0]),
        )
    }
}

/// How many entries an answer says were removed.
pub open spec fn removals(event: RunEventView) -> int {
    if event == RunEventView::Forgotten(Ok(true)) {
        1
    } else {
        0
    }
}

/// What follows an answer.  A reply about groups begins a batch; any other
/// answer that was not waited for ends it.
pub open spec fn next_action(s: RunView, batch: Seq<EntryView>, event: RunEventView) -> (
    RunView,
    RunActionView,
) {
    let removed = s.removed + removals(event);
    match event {
        RunEventView::Clustered(Ok(reply)) => asked(jobs_of(batch, groups_in(reply)), removed),
        RunEventView::Clustered(Err(_)) => rested(removed),
        RunEventView::Merged(reply) => if s.phase != RunPhase::Merging || s.jobs.len() == 0 {
            rested(removed)
        } else {
            match reply {
                Ok(content) => (
                    RunView {
                        phase: RunPhase::Storing,
                        jobs: s.jobs,
                        keys: Seq::empty(),
                        removed,
                    },
                    RunActionView::Store(merged_of(s.jobs[0], content)),
                ),
                Err(_) => asked(s.jobs.drop_first(), removed),
            }
        },
        RunEventView::Stored(stored) => if s.phase != RunPhase::Storing || s.jobs.len() == 0
            || stored is Err {
            rested(removed)
        } else {
            cleared(s.jobs, obsolete(s.jobs[0]), removed)
        },
        RunEventView::Forgotten(_) => if s.phase != RunPhase::Forgetting || s.jobs.len() == 0 {
            rested(removed)
        } else {
            cleared(s.jobs, s.keys, removed)
        },
    }
}

impl ConsolidationRun {
    /// A run that waits for the groups of its first batch.
    pub fn new() -> (r: ConsolidationRun)
        ensures
            r@ == started(),
    {
        let r = ConsolidationRun {
            phase: RunPhase::Clustering,
            jobs: Vec::new(),
            keys: Vec::new(),
            removed: 0,
        };
        proof {
            assert(r@.jobs =~= Seq::<JobView>::empty());
            assert(r@.keys =~= Seq::<Seq<char>>::empty());
        }
        r
    }

    fn rest(&mut self) -> (r: RunAction)
        ensures
            (final(self)@, r@) == rested(old(self)@.removed),
    {
        self.phase = RunPhase::Clustering;
        self.jobs = Vec::new();
        self.keys = Vec::new();
        proof {
            assert(self@.jobs =~= Seq::<JobView>::empty());
            assert(self@.keys =~= Seq::<Seq<char>>::empty());
        }
        RunAction::NextBatch
    }

    fn ask(&mut self) -> (r: RunAction)
        ensures
            (final(self)@, r@) == asked(old(self)@.jobs, old(self)@.removed),
    {
        proof {
            assert(self@.jobs.len() == self.jobs@.len());
        }
        if self.jobs.len() == 0 {
            return self.rest();
        }
        self.phase = RunPhase::Merging;
        self.keys = Vec::new();
        proof {
            assert(self@.keys =~= Seq::<Seq<char>>::empty());
            assert(self@.jobs[0] == self.jobs@[0]@);
        }
        RunAction::AskMerge(merge_prompt(&self.jobs[0].members))
    }

    fn skip_group(&mut self) -> (r: RunAction)
        requires
            old(self).jobs@.len() > 0,
        ensures
            (final(self)@, r@) == asked(old(self)@.jobs.drop_first(), old(self)@.removed),
    {
        let ghost before = self@.jobs;
        self.jobs.remove(0);
        proof {
            assert(self@.jobs =~= before.drop_first());
        }
        self.ask()
    }

    fn clear(&mut self) -> (r: RunAction)
        requires
            old(self).jobs@.len() > 0,
        ensures
            (final(self)@, r@) == cleared(old(self)@.jobs, old(self)@.keys, old(self)@.removed),
    {
        proof {
            assert(self@.keys.len() == self.keys@.len());
        }
        if self.keys.len() == 0 {
            return self.skip_group();
        }
        let ghost before = self@.keys;
        self.phase = RunPhase::Forgetting;
        let key = self.keys.remove(0);
        proof {
            assert(key@ == before[0]);
            assert(self@.keys =~= before.drop_first());
        }
        RunAction::Forget(key)
    }

    /// Takes an answer and says what is to be done next; `batch` holds the
    /// entries of the current batch.
    pub fn step(&mut self, batch: &Vec<MemoryEntry>, event: RunEvent) -> (r: RunAction)
        requires
            old(self).removed + removals(event@) <= usize::MAX,
        ensures
            (final(self)@, r@) == next_action(old(self)@, entry_views(batch@), event@),
    {
        proof {
            assert(self@.jobs.len() == self.jobs@.len());
        }
        match event {
            RunEvent::Clustered(Ok(reply)) => {
                self.jobs = consolidate_batch(batch, reply.as_str());
                self.ask()
            },
            RunEvent::Clustered(Err(_)) => self.rest(),
            RunEvent::Merged(reply) => {
                if self.phase != RunPhase::Merging || self.jobs.len() == 0 {
                    return self.rest();
                }
                match reply {
                    Ok(content) => {
                        let entry = self.jobs[0].merged_entry(content.as_str());
                        self.phase = RunPhase::Storing;
                        self.keys = Vec::new();
                        proof {
                            assert(self@.keys =~= Seq::<Seq<char>>::empty());
                            assert(self@.jobs[0] == self.jobs@[0]@);
                        }
                        RunAction::Store(entry)
                    },
                    Err(_) => self.skip_group(),
                }
            },
            RunEvent::Stored(stored) => {
                if self.phase != RunPhase::Storing || self.jobs.len() == 0 {
                    return self.rest();
                }
                match stored {
                    Ok(_) => {
                        proof {
                            assert(self@.jobs[0] == self.jobs@[0]@);
                        }
                        self.keys = self.jobs[0].obsolete_keys();
                        self.clear()
                    },
                    Err(_) => self.rest(),
                }
            },
            RunEvent::Forgotten(found) => {
                if let Ok(there) = found {
                    if there {
                        self.removed = self.removed + 1;
                    }
                }
                if self.phase != RunPhase::Forgetting || self.jobs.len() == 0 {
                    return self.rest();
                }
                self.clear()
            },
        }
    }
}

/// A run that waits for the groups of its first batch.
pub open spec fn started() -> RunView {
    RunView { phase: RunPhase::Clustering, jobs: Seq::empty(), keys: Seq::empty(), removed: 0 }
}

// ---- the memory's part ----

/// Whether a memory may have given `answer` when an entry was stored.
pub open spec fn stores<M: Memory>(memory: &M, e: EntryView, answer: Result<(), String>) -> bool {
    exists|k: &str, c: &str, g: Category, s: Option<&str>, t: Option<&str>|
        k@ == e.key && c@ == e.content && g@ == e.category && opt_str(s) == e.session && opt_str(t)
            == e.topic && #[trigger] call_ensures(M::store, (memory, k, c, g, s, t), answer)
}

/// Whether a memory may have given `answer` when a key was forgotten.
pub open spec fn forgets<M: Memory>(
    memory: &M,
    key: Seq<char>,
    answer: Result<bool, String>,
) -> bool {
    exists|k: &str| k@ == key && #[trigger] call_ensures(M::forget, (memory, k), answer)
}

/// Whether a memory may have given `answer` when a category was listed.
pub open spec fn listed<M: Memory>(
    memory: &M,
    category: &Category,
    answer: Result<Vec<MemoryEntry>, String>,
) -> bool {
    call_ensures(M::list, (memory, Some(category), None), answer)
}

fn as_opt_str(o: &Option<String>) -> (r: Option<&str>)
    ensures
        opt_str(r) == opt_string(*o),
{
    match o {
        Some(s) => Some(s.as_str()),
        None => None,
    }
}

/// Does with a memory what is to be done, if that is the memory's part, and
/// hands back its answer.
pub fn perform<M: Memory>(memory: &M, action: &RunAction) -> (r: Option<RunEvent>)
    ensures
        match *action {
            RunAction::Store(e) => r matches Some(RunEvent::Stored(answer)) && stores(
                memory,
                e@,
                answer,
            ),
            RunAction::Forget(key) => r matches Some(RunEvent::Forgotten(answer)) && forgets(
                memory,
                key@,
                answer,
            ),
            RunAction::AskMerge(_) => r is None,
            RunAction::NextBatch => r is None,
        },
{
    match action {
        RunAction::Store(e) => {
            let k = e.key.as_str();
            let c = e.content.as_str();
            let g = e.category.clone();
            let s = as_opt_str(&e.session);
            let t = as_opt_str(&e.topic);
            let ghost sent = g;
            let answer = memory.store(k, c, g, s, t);
            proof {
                assert(call_ensures(M::store, (memory, k, c, sent, s, t), answer));
            }
            Some(RunEvent::Stored(answer))
        },
        RunAction::Forget(key) => {
            let k = key.as_str();
            let answer = memory.forget(k);
            proof {
                assert(call_ensures(M::forget, (memory, k), answer));
            }
            Some(RunEvent::Forgotten(answer))
        },
        RunAction::AskMerge(_) => None,
        RunAction::NextBatch => None,
    }
}

/// The batches of a category: those of what the memory lists, none of what all
/// agents share.
pub fn category_batches<M: Memory>(
    memory: &M,
    category: &Category,
    batch_size: Option<usize>,
) -> (r: Result<Vec<Vec<MemoryEntry>>, String>)
    requires
        batch_size == Some(0usize) && category@ != CategoryView::Global ==> forall|
            v: Vec<MemoryEntry>,
        | #[trigger]
            listed(memory, category, Ok(v)) ==> v@.len() < MIN_ENTRIES_FOR_CONSOLIDATION,
    ensures
        if category@ == CategoryView::Global {
            r is Ok && r->Ok_0@.len() == 0
        } else {
            exists|answer: Result<Vec<MemoryEntry>, String>| #[trigger]
                listed(memory, category, answer) && match answer {
                    Ok(v) => r is Ok && batch_views(r->Ok_0@) == planned_batches(
                        entry_views(v@),
                        batch_size_of(batch_size),
                    ),
                    Err(e) => r is Err && r->Err_0 == e,
                }
        },
{
    if !takes_part(category) {
        return Ok(Vec::new());
    }
    let answer = memory.list(Some(category), None);
    let ghost heard = answer;
    proof {
        assert(listed(memory, category, heard));
    }
    match answer {
        Ok(entries) => Ok(consolidate(entries, batch_size)),
        Err(e) => Err(e),
    }
}

// ---- laws ----

/// A failed call of the model leads to nothing being stored or forgotten: if it
/// was about the groups of a batch, the batch is done; if it was about merging
/// a group, that group is passed over.
pub proof fn law_failed_call_changes_nothing(
    s: RunView,
    batch: Seq<EntryView>,
    event: RunEventView,
)
    requires
        event matches RunEventView::Clustered(Err(_)) || event matches RunEventView::Merged(Err(_)),
    ensures
        ({
            let (after, action) = next_action(s, batch, event);
            &&& !(action is Store) && !(action is Forget)
            &&& after.removed == s.removed
            &&& event is Clustered ==> action is NextBatch
            &&& event is Merged && s.phase == RunPhase::Merging && s.jobs.len() > 0 ==> after.jobs
                == s.jobs.drop_first()
        }),
{
    if event is Merged && s.phase == RunPhase::Merging && s.jobs.len() == 1 {
        assert(s.jobs.drop_first() =~= Seq::<JobView>::empty());
    }
}

/// If the merged entry of a group cannot be stored, the batch is done and no
/// member of the group is forgotten.
pub proof fn law_failed_store_ends_the_batch(
    s: RunView,
    batch: Seq<EntryView>,
    event: RunEventView,
)
    requires
        event matches RunEventView::Stored(Err(_)),
    ensures
        next_action(s, batch, event) == rested(s.removed),
{
}

/// The state of a run after some answers, each with the batch that it is about.
pub open spec fn state_after(answers: Seq<(Seq<EntryView>, RunEventView)>) -> RunView
    decreases answers.len(),
{
    if answers.len() == 0 {
        started()
    } else {
        next_action(state_after(answers.drop_last()), answers.last().0, answers.last().1).0
    }
}

/// What a run does after the answer with number `i`.
pub open spec fn action_at(answers: Seq<(Seq<EntryView>, RunEventView)>, i: int) -> RunActionView {
    next_action(state_after(answers.take(i)), answers[i].0, answers[i].1).1
}

/// A run counts the entries that the memory says it forgot.
pub proof fn law_removed_is_what_was_forgotten(answers: Seq<(Seq<EntryView>, RunEventView)>)
    ensures
        state_after(answers).removed == answers.filter(
            |a: (Seq<EntryView>, RunEventView)| a.1 == RunEventView::Forgotten(Ok(true)),
        ).len(),
    decreases answers.len(),
{
    reveal(Seq::filter);
    if answers.len() > 0 {
        law_removed_is_what_was_forgotten(answers.drop_last());
    }
}

/// Whether a run stored the merged entry of a job after answer number `j`, and
/// the next answer says that this succeeded.
pub open spec fn stored_at(
    answers: Seq<(Seq<EntryView>, RunEventView)>,
    j: int,
    job: JobView,
) -> bool {
    &&& 0 <= j < answers.len() - 1
    &&& action_at(answers, j) matches RunActionView::Store(e) && e == merged_of(job, e.content)
    &&& answers[j + 1].1 matches RunEventView::Stored(Ok(_))
}

/// A run forgets an entry only after it has stored the merged entry of the
/// entry's own group, with success and with nothing but other members of that
/// group forgotten in between; the merged entry itself is not forgotten.
pub proof fn law_forget_follows_store(
    answers: Seq<(Seq<EntryView>, RunEventView)>,
    i: int,
    key: Seq<char>,
)
    requires
        0 <= i < answers.len(),
        action_at(answers, i) == RunActionView::Forget(key),
    ensures
        exists|j: int, job: JobView| #[trigger]
            stored_at(answers, j, job) && j < i && obsolete(job).contains(key) && key
                != job.canonical.key && forall|m: int|
                j < m <= i ==> (#[trigger] action_at(answers, m)) is Forget,
{
    let part = answers.take(i + 1);
    lemma_progress(part);
    assert(part.take(i) =~= answers.take(i));
    assert(part.drop_last() =~= answers.take(i));
    let s = state_after(part);
    assert(s.phase == RunPhase::Forgetting);
    let job = s.jobs[0];
    let j = choose|j: int| #[trigger]
        stored_at(part, j, job) && forall|m: int|
            j < m < part.len() ==> (#[trigger] action_at(part, m)) is Forget;
    assert forall|m: int| 0 <= m <= i implies action_at(part, m) == #[trigger] action_at(
        answers,
        m,
    ) by {
        assert(part.take(m) =~= answers.take(m));
    }
    assert(action_at(part, j) == action_at(answers, j));
    assert(part[j + 1] == answers[j + 1]);
    assert(stored_at(answers, j, job));
    assert forall|m: int| j < m <= i implies (#[trigger] action_at(answers, m)) is Forget by {
        assert(action_at(part, m) is Forget);
    }
    lemma_key_of_group(part, key);
    lemma_other_keys(job.members, job.canonical.key);
}

/// What a run waits for tells what it has done.
proof fn lemma_progress(answers: Seq<(Seq<EntryView>, RunEventView)>)
    ensures
        ({
            let s = state_after(answers);
            let n = answers.len() as int;
            &&& s.phase == RunPhase::Storing ==> n > 0 && s.jobs.len() > 0 && (action_at(
                answers,
                n - 1,
            ) matches RunActionView::Store(e) && e == merged_of(s.jobs[0], e.content))
            &&& s.phase == RunPhase::Forgetting ==> s.jobs.len() > 0 && exists|j: int| #[trigger]
                stored_at(answers, j, s.jobs[0]) && forall|m: int|
                    j < m < n ==> (#[trigger] action_at(answers, m)) is Forget
        }),
    decreases answers.len(),
{
    if answers.len() > 0 {
        let n = answers.len() as int;
        let head = answers.drop_last();
        lemma_progress(head);
        assert(answers.take(n - 1) =~= head);
        let before = state_after(head);
        let s = state_after(answers);
        assert forall|m: int| 0 <= m < n - 1 implies action_at(head, m) == #[trigger] action_at(
            answers,
            m,
        ) by {
            assert(head.take(m) =~= answers.take(m));
        }
        if s.phase == RunPhase::Forgetting {
            assert(action_at(answers, n - 1) is Forget);
            if before.phase == RunPhase::Storing {
                let j = n - 2;
                assert(action_at(head, j) == action_at(answers, j));
                assert(answers[j + 1] == answers.last());
                assert(stored_at(answers, j, s.jobs[0]));
            } else {
                let j = choose|j: int| #[trigger]
                    stored_at(head, j, before.jobs[0]) && forall|m: int|
                        j < m < n - 1 ==> (#[trigger] action_at(head, m)) is Forget;
                assert(action_at(head, j) == action_at(answers, j));
                assert(head[j + 1] == answers[j + 1]);
                assert(stored_at(answers, j, s.jobs[0]));
                assert forall|m: int| j < m < n implies (#[trigger] action_at(
                    answers,
                    m,
                )) is Forget by {
                    if m < n - 1 {
                        assert(action_at(head, m) is Forget);
                    }
                }
            }
        }
    }
}

/// The keys that a run forgets, and has still to forget, are obsolete ones of
/// its current group.
proof fn lemma_keys_of_group(answers: Seq<(Seq<EntryView>, RunEventView)>)
    ensures
        ({
            let s = state_after(answers);
            s.phase == RunPhase::Forgetting ==> s.jobs.len() > 0 && (forall|i: int|
                0 <= i < s.keys.len() ==> obsolete(s.jobs[0]).contains(#[trigger] s.keys[i]))
        }),
    decreases answers.len(),
{
    if answers.len() > 0 {
        lemma_keys_of_group(answers.drop_last());
        let before = state_after(answers.drop_last());
        let s = state_after(answers);
        if s.phase == RunPhase::Forgetting {
            assert forall|i: int| 0 <= i < s.keys.len() implies obsolete(s.jobs[0]).contains(
                #[trigger] s.keys[i],
            ) by {
                if before.phase == RunPhase::Storing {
                    assert(s.keys[i] == obsolete(s.jobs[0])[i + 1]);
                } else {
                    assert(s.keys[i] == before.keys[i + 1]);
                }
            }
        }
    }
}

proof fn lemma_key_of_group(answers: Seq<(Seq<EntryView>, RunEventView)>, key: Seq<char>)
    requires
        answers.len() > 0,
        action_at(answers, answers.len() - 1) == RunActionView::Forget(key),
    ensures
        obsolete(state_after(answers).jobs[0]).contains(key),
{
    let n = answers.len() as int;
    let head = answers.drop_last();
    assert(answers.take(n - 1) =~= head);
    lemma_keys_of_group(head);
    let before = state_after(head);
    let s = state_after(answers);
    if before.phase == RunPhase::Storing {
        assert(key == obsolete(s.jobs[0])[0]);
    } else {
        assert(key == before.keys[0]);
    }
}

/// As long as the model has merged nothing, nothing is stored and nothing is
/// forgotten.
pub proof fn law_entries_stay_until_the_model_answers(
    answers: Seq<(Seq<EntryView>, RunEventView)>,
    i: int,
)
    requires
        0 <= i < answers.len(),
        forall|k: int|
            0 <= k < answers.len() ==> !((#[trigger] answers[k]).1 matches RunEventView::Merged(
                Ok(_),
            )),
    ensures
        !(action_at(answers, i) is Store) && !(action_at(answers, i) is Forget),
{
    assert(answers[i] == answers[i]);
    if action_at(answers, i) is Forget {
        let key = action_at(answers, i)->Forget_0;
        law_forget_follows_store(answers, i, key);
        let (j, job) = choose|j: int, job: JobView| #[trigger]
            stored_at(answers, j, job) && j < i && obsolete(job).contains(key) && key
                != job.canonical.key && forall|m: int|
                j < m <= i ==> (#[trigger] action_at(answers, m)) is Forget;
        assert(action_at(answers, j) is Store);
        assert(answers[j].1 matches RunEventView::Merged(Ok(_)));
    }
}

} // verus!
