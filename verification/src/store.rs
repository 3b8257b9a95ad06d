//! The task store: an ordered sequence of tasks, addressed by the user with
//! 1-based indices. Mutations are index-checked; an out-of-range index leaves
//! the store untouched and is reported as `None`.

use vstd::prelude::*;

use crate::codec;

verus! {

/// The mathematical value of one task: its description and completion flag.
#[verifier::ext_equal]
pub ghost struct TaskView {
    pub description: Seq<char>,
    pub done: bool,
}

/// One task: a free-text description and a completion flag.
pub struct Task {
    pub description: String,
    pub done: bool,
}

impl View for Task {
    type V = TaskView;

    open spec fn view(&self) -> TaskView {
        TaskView { description: self.description@, done: self.done }
    }
}

impl Task {
    /// A fresh task starts out not done. Any description is accepted.
    pub fn new(description: &str) -> (t: Task)
        ensures
            t@ == (TaskView { description: description@, done: false }),
    {
        Task { description: description.to_owned(), done: false }
    }
}

/// The values of a sequence of tasks, in order.
pub open spec fn task_views(tasks: Seq<Task>) -> Seq<TaskView> {
    Seq::new(tasks.len(), |i: int| tasks[i]@)
}

/// The task store. The sequence order is insertion order, and the task at
/// position `i` (0-based) is addressed by the user as index `i + 1`.
pub struct TodoApp {
    pub tasks: Vec<Task>,
}

impl View for TodoApp {
    type V = Seq<TaskView>;

    open spec fn view(&self) -> Seq<TaskView> {
        task_views(self.tasks@)
    }
}

impl TodoApp {
    /// An empty store.
    pub fn new() -> (app: TodoApp)
        ensures
            app@ == Seq::<TaskView>::empty(),
    {
        let app = TodoApp { tasks: Vec::new() };
        proof {
            assert(app@ =~= Seq::<TaskView>::empty());
        }
        app
    }

    /// The number of tasks held.
    pub fn len(&self) -> (n: usize)
        ensures
            n == self@.len(),
    {
        self.tasks.len()
    }

    /// Appends a fresh (not done) task at the end; every other task keeps
    /// its index, and the new task is addressed as index `len`.
    pub fn add_new_task(&mut self, description: &str)
        ensures
            final(self)@ == old(self)@.push(
                TaskView { description: description@, done: false },
            ),
    {
        let task = Task::new(description);
        self.tasks.push(task);
        proof {
            assert(self@ =~~= old(self)@.push(
                TaskView { description: description@, done: false },
            ));
        }
    }

    /// Marks the task addressed by the 1-based `index` as done and returns its
    /// description; exactly the indices `1 ..= len` succeed, and on any other
    /// index the store is unchanged and `None` comes back.
    pub fn mark_task_as_done(&mut self, index: usize) -> (r: Option<String>)
        ensures
            1 <= index <= old(self)@.len() ==> {
                &&& final(self)@ == old(self)@.update(
                    index - 1,
                    TaskView { description: old(self)@[index - 1].description, done: true },
                )
                &&& (r matches Some(d) && d@ == old(self)@[index - 1].description)
            },
            !(1 <= index <= old(self)@.len()) ==> final(self)@ == old(self)@ && r is None,
    {
        if 1 <= index && index <= self.tasks.len() {
            let i = index - 1;
            let desc = self.tasks[i].description.clone();
            self.tasks[i].done = true;
            proof {
                assert(self@ =~~= old(self)@.update(
                    index - 1,
                    TaskView { description: old(self)@[index - 1].description, done: true },
                ));
            }
            Some(desc)
        } else {
            None
        }
    }

    /// Removes the task addressed by the 1-based `index` and returns its
    /// description; exactly the indices `1 ..= len` succeed. The tasks after
    /// the removed one shift down by one position, so the former index `k + 1`
    /// is addressed as `k` afterwards; on an out-of-range index the store is
    /// unchanged and `None` comes back.
    pub fn delete_task(&mut self, index: usize) -> (r: Option<String>)
        ensures
            1 <= index <= old(self)@.len() ==> {
                &&& final(self)@ == old(self)@.remove(index - 1)
                &&& (r matches Some(d) && d@ == old(self)@[index - 1].description)
            },
            !(1 <= index <= old(self)@.len()) ==> final(self)@ == old(self)@ && r is None,
    {
        if 1 <= index && index <= self.tasks.len() {
            let removed = self.tasks.remove(index - 1);
            proof {
                assert(self@ =~~= old(self)@.remove(index - 1));
            }
            Some(removed.description)
        } else {
            None
        }
    }

    /// Serializes the whole store to its canonical JSON document, the full
    /// content of the backing file.
    pub fn save_to_string(&self) -> (s: String)
        ensures
            s@ == codec::ser_store(self@),
    {
        codec::store_to_json(&self.tasks)
    }

    /// Rebuilds a store from the backing file's content; `None` stands for a
    /// missing or unreadable file. Text that is not a stored task list yields
    /// the empty store: corrupt or absent state is silently recovered, never
    /// an error.
    pub fn load_from_data(data: Option<&str>) -> (app: TodoApp)
        ensures
            match data {
                Option::Some(s) => match codec::p_store(s@) {
                    Option::Some(v) => app@ == v,
                    Option::None => app@ == Seq::<TaskView>::empty(),
                },
                Option::None => app@ == Seq::<TaskView>::empty(),
            },
    {
        match data {
            Option::Some(s) => match codec::json_to_store(s) {
                Option::Some(tasks) => TodoApp { tasks },
                Option::None => TodoApp::new(),
            },
            Option::None => TodoApp::new(),
        }
    }

    /// The listing: one row per task, in store order, as
    /// (1-based index, done flag, description).
    pub fn show_tasks(&self) -> (r: Vec<(usize, bool, String)>)
        ensures
            r@.len() == self@.len(),
            forall|i: int|
                #![trigger r@[i]]
                0 <= i < self@.len() ==> {
                    &&& r@[i].0 == i + 1
                    &&& r@[i].1 == self@[i].done
                    &&& r@[i].2@ == self@[i].description
                },
    {
        let mut r: Vec<(usize, bool, String)> = Vec::new();
        let mut i: usize = 0;
        while i < self.tasks.len()
            invariant
                i <= self.tasks.len(),
                r@.len() == i,
                forall|j: int|
                    #![trigger r@[j]]
                    0 <= j < i ==> {
                        &&& r@[j].0 == j + 1
                        &&& r@[j].1 == self@[j].done
                        &&& r@[j].2@ == self@[j].description
                    },
            decreases self.tasks.len() - i,
        {
            let row = (i + 1, self.tasks[i].done, self.tasks[i].description.clone());
            r.push(row);
            i = i + 1;
        }
        r
    }
}

/// Deleting the task at 1-based index `k` renumbers the rest: the store
/// shrinks by one, every task below `k` keeps its index, and the task formerly
/// addressed as `i + 1` is addressed as `i` for every `i >= k`.
pub proof fn lemma_delete_renumbering(tasks: Seq<TaskView>, k: int)
    requires
        1 <= k <= tasks.len(),
    ensures
        tasks.remove(k - 1).len() == tasks.len() - 1,
        forall|i: int| 1 <= i < k ==> #[trigger] tasks.remove(k - 1)[i - 1] == tasks[i - 1],
        forall|i: int| k <= i <= tasks.len() - 1 ==> #[trigger] tasks.remove(k - 1)[i - 1]
            == tasks[i],
{
}

} // verus!
