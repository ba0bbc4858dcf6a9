//! The build terminals: one per project, each with the process it runs.

use vstd::prelude::*;
use crate::paths::views;
use crate::strmap::StrMap;

verus! {

/// The process id that marks a build terminal with nothing running.
pub const NO_PROCESS: i32 = -1;

/// The build terminals by project path, each with the id of the process it
/// runs, or a negative number where it runs none.
pub struct Builders {
    pids: StrMap<i32>,
}

/// `pid` names a running process.
pub open spec fn is_running(pid: i32) -> bool {
    pid >= 0
}

/// The table after the builder of `project` is stopped.
pub open spec fn after_stop(m: Map<Seq<char>, i32>, project: Seq<char>) -> Map<Seq<char>, i32> {
    if m.contains_key(project) && is_running(m[project]) {
        m.insert(project, NO_PROCESS)
    } else {
        m
    }
}

/// The process to kill when the builder of `project` is stopped.
pub open spec fn stop_victim(m: Map<Seq<char>, i32>, project: Seq<char>) -> Option<i32> {
    if m.contains_key(project) && is_running(m[project]) {
        Some(m[project])
    } else {
        None
    }
}

/// The table after every builder is stopped.
pub open spec fn after_stop_all(m: Map<Seq<char>, i32>) -> Map<Seq<char>, i32> {
    Map::new(
        |k: Seq<char>| m.contains_key(k),
        |k: Seq<char>| if is_running(m[k]) { NO_PROCESS } else { m[k] },
    )
}

/// Stopping a builder a second time finds nothing to kill and changes
/// nothing.
pub proof fn lemma_stop_twice(m: Map<Seq<char>, i32>, project: Seq<char>)
    ensures
        stop_victim(after_stop(m, project), project) is None,
        after_stop(after_stop(m, project), project) == after_stop(m, project),
{
}

/// Once every builder is stopped, the same builders remain, none runs a
/// process, and stopping any one of them finds nothing to kill.
pub proof fn lemma_stop_all_quiet(m: Map<Seq<char>, i32>, project: Seq<char>)
    ensures
        after_stop_all(m).dom() == m.dom(),
        forall|k: Seq<char>| #[trigger] after_stop_all(m).contains_key(k) ==> !is_running(after_stop_all(m)[k]),
        stop_victim(after_stop_all(m), project) is None,
{
    assert(after_stop_all(m).dom() =~= m.dom());
}

/// Stops the process `*current_pid` where one runs; returns the id to kill.
pub fn stop_process(current_pid: &mut i32) -> (victim: Option<i32>)
    ensures
        victim == (if is_running(*old(current_pid)) { Some(*old(current_pid)) } else { None::<i32> }),
        *final(current_pid) == (if is_running(*old(current_pid)) { NO_PROCESS } else { *old(current_pid) }),
{
    if *current_pid >= 0 {
        let pid = *current_pid;
        *current_pid = NO_PROCESS;
        Some(pid)
    } else {
        None
    }
}

/// The project path of each stopped builder.
pub open spec fn entry_names(entries: Seq<(String, i32)>) -> Seq<Seq<char>> {
    entries.map_values(|e: (String, i32)| e.0@)
}

/// The table after the builders in `done` are stopped.
spec fn stopped_within(m: Map<Seq<char>, i32>, done: Seq<Seq<char>>) -> Map<Seq<char>, i32> {
    Map::new(
        |k: Seq<char>| m.contains_key(k),
        |k: Seq<char>| if done.contains(k) && is_running(m[k]) { NO_PROCESS } else { m[k] },
    )
}

impl View for Builders {
    type V = Map<Seq<char>, i32>;

    closed spec fn view(&self) -> Map<Seq<char>, i32> {
        self.pids@
    }
}

impl Builders {
    /// No builders.
    pub fn new() -> (b: Builders)
        ensures
            b@ == Map::<Seq<char>, i32>::empty(),
    {
        Builders { pids: StrMap::new() }
    }

    /// The process that the builder of `project` runs, where there is a
    /// builder.
    pub fn pid_of(&self, project: &String) -> (pid: Option<i32>)
        ensures
            pid == (if self@.contains_key(project@) { Some(self@[project@]) } else { None::<i32> }),
    {
        self.pids.get(project)
    }

    /// Whether there is a builder for `project`.
    pub fn contains(&self, project: &String) -> (r: bool)
        ensures
            r == self@.contains_key(project@),
    {
        self.pids.contains_key(project)
    }

    /// Shows the builder of `project`, the root of the selected file's
    /// project, creating it with nothing running where there is none yet.
    /// Returns whether it was created; with no project nothing is shown.
    pub fn show_builder(&mut self, project: Option<&String>) -> (created: bool)
        ensures
            match project {
                Some(p) => {
                    &&& created == !old(self)@.contains_key(p@)
                    &&& final(self)@ == (if created { old(self)@.insert(p@, NO_PROCESS) } else { old(self)@ })
                },
                None => !created && final(self)@ == old(self)@,
            },
    {
        match project {
            None => false,
            Some(p) => {
                if self.pids.contains_key(p) {
                    false
                } else {
                    self.pids.insert(p.clone(), NO_PROCESS);
                    true
                }
            },
        }
    }

    /// Stops the builder of `project`: where it runs a process, that
    /// process is to be killed and the builder runs nothing.
    pub fn stop_builder(&mut self, project: &String) -> (victim: Option<i32>)
        ensures
            victim == stop_victim(old(self)@, project@),
            final(self)@ == after_stop(old(self)@, project@),
    {
        match self.pids.get(project) {
            None => None,
            Some(pid) => {
                let mut current = pid;
                let victim = stop_process(&mut current);
                if victim.is_some() {
                    self.pids.insert(project.clone(), current);
                }
                victim
            },
        }
    }

    /// Records the outcome of starting a command in the builder of
    /// `project`: the id of the process it started, or the error message.
    /// Returns the message to show in that builder's terminal, if any.
    pub fn run_builder(&mut self, project: &String, started: Result<i32, String>) -> (message: Option<String>)
        ensures
            match started {
                Ok(pid) => {
                    &&& message is None
                    &&& final(self)@ == (if old(self)@.contains_key(project@) {
                        old(self)@.insert(project@, pid)
                    } else {
                        old(self)@
                    })
                },
                Err(e) => {
                    &&& final(self)@ == old(self)@
                    &&& message == (if old(self)@.contains_key(project@) { Some(e) } else { None::<String> })
                },
            },
    {
        if !self.pids.contains_key(project) {
            return None;
        }
        match started {
            Ok(pid) => {
                self.pids.insert(project.clone(), pid);
                None
            },
            Err(e) => Some(e),
        }
    }

    /// Stops every builder. Returns each builder that ran a process, with
    /// that process, which is to be killed.
    pub fn stop_builders(&mut self) -> (victims: Vec<(String, i32)>)
        ensures
            final(self)@ == after_stop_all(old(self)@),
            entry_names(victims@).no_duplicates(),
            forall|m: int|
                0 <= m < victims.len() ==> {
                    &&& is_running(#[trigger] victims@[m].1)
                    &&& old(self)@.contains_key(victims@[m].0@)
                    &&& old(self)@[victims@[m].0@] == victims@[m].1
                },
            forall|k: Seq<char>|
                #[trigger] old(self)@.contains_key(k) && is_running(old(self)@[k])
                    ==> entry_names(victims@).contains(k),
    {
        let ghost start = self@;
        let keys = self.pids.keys();
        let ghost names = views(keys@);
        let mut victims: Vec<(String, i32)> = Vec::new();
        let n = keys.len();
        assert(self@ =~= stopped_within(start, names.take(0)));
        for i in 0..n
            invariant
                n == keys.len(),
                start == old(self)@,
                names == views(keys@),
                names.no_duplicates(),
                names.to_set() == start.dom(),
                self@ == stopped_within(start, names.take(i as int)),
                entry_names(victims@).no_duplicates(),
                forall|m: int|
                    #![trigger victims@[m]]
                    0 <= m < victims.len() ==> {
                        &&& is_running(victims@[m].1)
                        &&& names.take(i as int).contains(victims@[m].0@)
                        &&& start.contains_key(victims@[m].0@)
                        &&& start[victims@[m].0@] == victims@[m].1
                    },
                forall|j: int|
                    0 <= j < i && is_running(start[#[trigger] names[j]]) ==> entry_names(victims@).contains(names[j]),
        {
            let key = &keys[i];
            let ghost done = names.take(i as int);
            let ghost next = names.take(i + 1);
            let ghost vs = victims@;
            proof {
                assert(forall|j: int|
                    0 <= j < i && is_running(start[#[trigger] names[j]]) ==> entry_names(vs).contains(names[j]));
                assert(names[i as int] == key@);
                assert(next =~= done.push(key@));
                assert(start.contains_key(key@)) by {
                    assert(names.contains(key@));
                }
                assert(!done.contains(key@)) by {
                    if done.contains(key@) {
                        let j = choose|j: int| 0 <= j < done.len() && done[j] == key@;
                        assert(names[j] == names[i as int]);
                    }
                }
                assert forall|x: Seq<char>| #[trigger] next.contains(x) <==> (done.contains(x) || x == key@) by {
                    if next.contains(x) {
                        let j = choose|j: int| 0 <= j < next.len() && next[j] == x;
                        if j < i {
                            assert(done[j] == x);
                        }
                    }
                    if done.contains(x) {
                        let j = choose|j: int| 0 <= j < done.len() && done[j] == x;
                        assert(next[j] == x);
                    }
                    if x == key@ {
                        assert(next[i as int] == x);
                    }
                }
            }
            let victim = self.stop_builder(key);
            match victim {
                Some(pid) => {
                    victims.push((key.clone(), pid));
                    proof {
                        assert(entry_names(victims@) =~= entry_names(vs).push(key@));
                        assert(!entry_names(vs).contains(key@)) by {
                            if entry_names(vs).contains(key@) {
                                let m = choose|m: int|
                                    0 <= m < entry_names(vs).len() && entry_names(vs)[m] == key@;
                                assert(vs[m].0@ == key@);
                            }
                        }
                        assert forall|a: int, b: int|
                            0 <= a < entry_names(victims@).len() && 0 <= b < entry_names(victims@).len() && a
                                != b implies entry_names(victims@)[a] != entry_names(victims@)[b] by {
                            if a == vs.len() {
                                assert(entry_names(victims@)[b] == entry_names(vs)[b]);
                            } else if b == vs.len() {
                                assert(entry_names(victims@)[a] == entry_names(vs)[a]);
                            }
                        }
                    }
                },
                None => {},
            }
            proof {
                assert(self@ =~= stopped_within(start, next));
                assert forall|m: int| 0 <= m < victims.len() implies next.contains(#[trigger] victims@[m].0@) by {
                    if m < vs.len() {
                        assert(victims@[m] == vs[m]);
                        assert(done.contains(vs[m].0@));
                    }
                }
                assert forall|j: int|
                    0 <= j < i + 1 && is_running(start[#[trigger] names[j]]) implies entry_names(victims@).contains(
                    names[j],
                ) by {
                    if j == i {
                        assert(entry_names(victims@)[victims.len() - 1] == names[j]);
                    } else {
                        assert(entry_names(vs).contains(names[j]));
                        let m = choose|m: int| 0 <= m < entry_names(vs).len() && entry_names(vs)[m] == names[j];
                        assert(entry_names(victims@)[m] == names[j]);
                    }
                }
            }
        }
        proof {
            assert(names.take(n as int) =~= names);
            assert forall|k: Seq<char>| start.contains_key(k) implies #[trigger] names.contains(k) by {
                assert(names.to_set().contains(k));
            }
            assert(self@ =~= after_stop_all(start));
            assert forall|k: Seq<char>|
                #[trigger] start.contains_key(k) && is_running(start[k]) implies entry_names(victims@).contains(k) by {
                assert(names.contains(k));
                let j = choose|j: int| 0 <= j < names.len() && names[j] == k;
            }
        }
        victims
    }
}

} // verus!
