//! What PLC tasks have told of themselves.
use vstd::prelude::*;

use crate::keymap::{keys_of, map_of, KeyMap};
use crate::protocol::{RegistrationKey, RegistrationKeyView, TaskMetadata, TaskMetadataView};

verus! {

/// `key` is one that the parts given select.
pub open spec fn selected(key: RegistrationKeyView, ams_net_id: Seq<char>, port: Option<u16>, task: Option<u8>) -> bool {
    &&& key.ams_net_id == ams_net_id
    &&& port matches Some(p) ==> key.ams_source_port == p
    &&& task matches Some(t) ==> key.task_index == t
}

/// The view of a key and its metadata.
pub open spec fn task_view(t: (RegistrationKey, TaskMetadata)) -> (RegistrationKeyView, TaskMetadataView) {
    (t.0@, t.1@)
}

/// Task metadata by Net ID, source port and task index.
#[derive(Debug)]
pub struct TaskRegistry {
    metadata: KeyMap<RegistrationKey, TaskMetadata>,
}

impl View for TaskRegistry {
    type V = Map<RegistrationKeyView, TaskMetadataView>;

    closed spec fn view(&self) -> Map<RegistrationKeyView, TaskMetadataView> {
        self.metadata@
    }
}

impl TaskRegistry {
    pub fn new() -> (r: Self)
        ensures
            r@ == Map::<RegistrationKeyView, TaskMetadataView>::empty(),
    {
        TaskRegistry { metadata: KeyMap::new() }
    }

    /// Registers a task, replacing what was known of it.
    pub fn register(&mut self, key: RegistrationKey, metadata: TaskMetadata)
        ensures
            final(self)@ == old(self)@.insert(key@, metadata@),
    {
        self.metadata.insert(key, metadata);
    }

    /// What is known of the task.
    pub fn lookup(&self, key: &RegistrationKey) -> (r: Option<TaskMetadata>)
        ensures
            match r {
                Some(m) => self@.dom().contains(key@) && m@ == self@[key@],
                None => !self@.dom().contains(key@),
            },
    {
        match self.metadata.get(key) {
            Some(m) => Some(m.clone()),
            None => None,
        }
    }

    /// A task that the parts given select, if there is one.
    pub fn lookup_partial(&self, ams_net_id: &str, ams_source_port: Option<u16>, task_index: Option<u8>) -> (r:
        Option<(RegistrationKey, TaskMetadata)>)
        ensures
            match r {
                Some((k, m)) => {
                    &&& self@.dom().contains(k@)
                    &&& self@[k@] == m@
                    &&& selected(k@, ams_net_id@, ams_source_port, task_index)
                },
                None => forall|k: RegistrationKeyView| #[trigger]
                    self@.dom().contains(k) ==> !selected(k, ams_net_id@, ams_source_port, task_index),
            },
    {
        let ghost pairs = self.metadata.pairs();
        let n: usize = self.metadata.len();
        let wanted = ams_net_id.to_string();
        let mut i: usize = 0;
        while i < n
            invariant
                i <= n,
                pairs == self.metadata.pairs(),
                n == pairs.len(),
                wanted@ == ams_net_id@,
                forall|j: int|
                    0 <= j < i ==> !selected(#[trigger] pairs[j].0, ams_net_id@, ams_source_port, task_index),
            decreases n - i,
        {
            let (k, m) = self.metadata.entry_at(i);
            let port_fits = match ams_source_port {
                Some(p) => k.ams_source_port == p,
                None => true,
            };
            let task_fits = match task_index {
                Some(t) => k.task_index == t,
                None => true,
            };
            if port_fits && task_fits && k.ams_net_id == wanted {
                return Some((k.clone(), m.clone()));
            }
            i = i + 1;
        }
        assert forall|k: RegistrationKeyView| #[trigger] self@.dom().contains(k) implies !selected(
            k,
            ams_net_id@,
            ams_source_port,
            task_index,
        ) by {
            assert(keys_of(pairs).contains(k));
            let j = choose|j: int| 0 <= j < keys_of(pairs).len() && keys_of(pairs)[j] == k;
            assert(pairs[j].0 == k);
        }
        None
    }

    /// A task of the Net ID with that task index, if there is one.
    pub fn lookup_by_task(&self, ams_net_id: &str, task_index: u8) -> (r: Option<(RegistrationKey, TaskMetadata)>)
        ensures
            match r {
                Some((k, m)) => {
                    &&& self@.dom().contains(k@)
                    &&& self@[k@] == m@
                    &&& k@.ams_net_id == ams_net_id@
                    &&& k@.task_index == task_index
                },
                None => forall|k: RegistrationKeyView| #[trigger]
                    self@.dom().contains(k) ==> k.ams_net_id != ams_net_id@ || k.task_index != task_index,
            },
    {
        self.lookup_partial(ams_net_id, None, Some(task_index))
    }

    pub fn len(&self) -> (r: usize)
        ensures
            r == self@.dom().len(),
            self@.dom().finite(),
    {
        self.metadata.len()
    }

    pub fn is_empty(&self) -> (r: bool)
        ensures
            r == (self@ == Map::<RegistrationKeyView, TaskMetadataView>::empty()),
    {
        self.metadata.is_empty()
    }

    /// All tasks, each once.
    pub fn all_tasks(&self) -> (r: Vec<(RegistrationKey, TaskMetadata)>)
        ensures
            keys_of(r@.map_values(|t: (RegistrationKey, TaskMetadata)| task_view(t))).no_duplicates(),
            map_of(r@.map_values(|t: (RegistrationKey, TaskMetadata)| task_view(t))) == self@,
    {
        let ghost pairs = self.metadata.pairs();
        let n: usize = self.metadata.len();
        let mut all: Vec<(RegistrationKey, TaskMetadata)> = Vec::new();
        let mut i: usize = 0;
        while i < n
            invariant
                i <= n,
                pairs == self.metadata.pairs(),
                n == pairs.len(),
                all@.map_values(|t: (RegistrationKey, TaskMetadata)| task_view(t)) =~= pairs.take(i as int),
            decreases n - i,
        {
            let (k, m) = self.metadata.entry_at(i);
            let ghost before = all@;
            all.push((k.clone(), m.clone()));
            assert(task_view(all@.last()) == pairs[i as int]);
            assert(pairs.take(i + 1) =~= pairs.take(i as int).push(pairs[i as int]));
            assert(all@.map_values(|t: (RegistrationKey, TaskMetadata)| task_view(t)) =~= before.map_values(
                |t: (RegistrationKey, TaskMetadata)| task_view(t),
            ).push(pairs[i as int]));
            i = i + 1;
        }
        assert(pairs.take(n as int) =~= pairs);
        all
    }

    pub fn clear(&mut self)
        ensures
            final(self)@ == Map::<RegistrationKeyView, TaskMetadataView>::empty(),
    {
        self.metadata.clear();
    }
}

impl Default for TaskRegistry {
    fn default() -> (r: Self)
        ensures
            r@ == Map::<RegistrationKeyView, TaskMetadataView>::empty(),
    {
        Self::new()
    }
}

/// Registering a task makes it known and replaces what it said before; what other tasks said
/// stays, and no task is counted twice.
pub proof fn law_registering_touches_one_task(
    tasks: Map<RegistrationKeyView, TaskMetadataView>,
    key: RegistrationKeyView,
    metadata: TaskMetadataView,
    other: RegistrationKeyView,
)
    requires
        tasks.dom().finite(),
    ensures
        ({
            let after = tasks.insert(key, metadata);
            &&& after.dom().contains(key)
            &&& after[key] == metadata
            &&& other != key ==> after.dom().contains(other) == tasks.dom().contains(other)
            &&& other != key && tasks.dom().contains(other) ==> after[other] == tasks[other]
            &&& after.dom().len() == tasks.dom().len() + (if tasks.dom().contains(key) { 0int } else { 1int })
        }),
{
    assert(tasks.insert(key, metadata).dom() =~= tasks.dom().insert(key));
}

} // verus!
