//! The decoded configuration: which processes to run, and how.

use vstd::prelude::*;

pub mod command;
pub mod decode;
pub mod process;
pub mod signal;
pub mod value;

use crate::config::process::{ProcessConfig, ProcessConfigView};

verus! {

/// The characters of each string of a sequence.
pub open spec fn strings_view(v: Seq<String>) -> Seq<Seq<char>> {
    v.map_values(|s: String| s@)
}

/// The whole configuration: the processes in the order of their declaration,
/// which is the order in which they start.
#[derive(Clone, Debug, PartialEq, Eq)]
pub struct Config {
    pub processes: Vec<ProcessConfig>,
}

impl View for Config {
    type V = Seq<ProcessConfigView>;

    open spec fn view(&self) -> Seq<ProcessConfigView> {
        self.processes@.map_values(|process: ProcessConfig| process@)
    }
}

/// The place of the first process that is named like one before it, if
/// there is one.
pub open spec fn spec_first_duplicate(names: Seq<Seq<char>>) -> Option<int>
    decreases names.len(),
{
    if names.len() == 0 {
        None
    } else {
        match spec_first_duplicate(names.drop_last()) {
            Some(k) => Some(k),
            None => if names.drop_last().contains(names.last()) {
                Some(names.len() - 1)
            } else {
                None
            },
        }
    }
}

/// The names of the processes.
pub open spec fn names_of(processes: Seq<ProcessConfigView>) -> Seq<Seq<char>> {
    processes.map_values(|process: ProcessConfigView| process.name)
}

/// The first duplicate is named like a process before it, and no name
/// before it occurs twice.
pub proof fn law_first_duplicate(names: Seq<Seq<char>>)
    ensures
        match spec_first_duplicate(names) {
            Some(k) => 0 < k < names.len() && names.take(k).contains(names[k]) && forall|
                i: int,
                j: int,
            |
                0 <= i < j < k ==> names[i] != names[j],
            None => forall|i: int, j: int| 0 <= i < j < names.len() ==> names[i] != names[j],
        },
    decreases names.len(),
{
    if names.len() > 0 {
        let head = names.drop_last();
        let last = names.len() - 1;
        law_first_duplicate(head);
        assert forall|i: int| 0 <= i < head.len() implies head[i] == names[i] by {}
        match spec_first_duplicate(head) {
            Some(k) => {
                assert(head.take(k) =~= names.take(k));
                assert(head[k] == names[k]);
                assert forall|i: int, j: int| 0 <= i < j < k implies names[i] != names[j] by {
                    assert(head[i] != head[j]);
                }
            },
            None => {
                if head.contains(names.last()) {
                    assert(names.take(last) =~= head);
                    assert forall|i: int, j: int| 0 <= i < j < last implies names[i]
                        != names[j] by {
                        assert(head[i] != head[j]);
                    }
                } else {
                    assert forall|i: int, j: int| 0 <= i < j < names.len() implies names[i]
                        != names[j] by {
                        if j == last {
                            assert(head[i] == names[i]);
                            assert(head.contains(head[i]));
                        } else {
                            assert(head[i] != head[j]);
                        }
                    }
                }
            },
        }
    }
}

/// The place of the first process that is named like one before it, if
/// there is one.
#[verifier::loop_isolation(false)]
pub fn first_duplicate(processes: &Vec<ProcessConfig>) -> (r: Option<usize>)
    ensures
        match r {
            Some(k) => spec_first_duplicate(
                names_of(processes@.map_values(|process: ProcessConfig| process@)),
            ) == Some(k as int),
            None => spec_first_duplicate(
                names_of(processes@.map_values(|process: ProcessConfig| process@)),
            ) is None,
        },
{
    let ghost names = names_of(processes@.map_values(|process: ProcessConfig| process@));
    let mut i: usize = 0;
    while i < processes.len()
        invariant
            i <= processes.len(),
            names == names_of(processes@.map_values(|process: ProcessConfig| process@)),
            spec_first_duplicate(names.take(i as int)) is None,
        decreases processes.len() - i,
    {
        proof {
            assert(names.take(i + 1).drop_last() =~= names.take(i as int));
            assert(names.take(i + 1).last() == processes@[i as int].name@);
        }
        let mut j: usize = 0;
        while j < i
            invariant
                j <= i < processes.len(),
                names == names_of(processes@.map_values(|process: ProcessConfig| process@)),
                forall|m: int| 0 <= m < j ==> names[m] != names[i as int],
            decreases i - j,
        {
            if processes[j].name == processes[i].name {
                proof {
                    assert(names.take(i as int)[j as int] == names[i as int]);
                    assert(names.take(i as int).contains(names[i as int]));
                    lemma_first_duplicate_extends(names, i + 1);
                }
                return Some(i);
            }
            j += 1;
        }
        proof {
            let head = names.take(i as int);
            assert forall|m: int| 0 <= m < head.len() implies head[m] != names[i as int] by {
                assert(head[m] == names[m]);
            }
        }
        i += 1;
    }
    proof {
        assert(names.take(i as int) =~= names);
    }
    None
}

/// A duplicate among the first `k` names is the first duplicate of all.
proof fn lemma_first_duplicate_extends(names: Seq<Seq<char>>, k: int)
    requires
        0 <= k <= names.len(),
        spec_first_duplicate(names.take(k)) is Some,
    ensures
        spec_first_duplicate(names) == spec_first_duplicate(names.take(k)),
    decreases names.len() - k,
{
    if k == names.len() {
        assert(names.take(k) =~= names);
    } else {
        assert(names.take(k + 1).drop_last() =~= names.take(k));
        lemma_first_duplicate_extends(names, k + 1);
    }
}

impl Config {
    /// The configuration is valid: every process has a name, and no two
    /// have the same.
    pub open spec fn valid(&self) -> bool {
        &&& forall|i: int| 0 <= i < self@.len() ==> (#[trigger] self@[i]).name.len() > 0
        &&& spec_first_duplicate(names_of(self@)) is None
    }

    /// Whether the configuration is valid.
    pub fn is_valid(&self) -> (valid: bool)
        ensures
            valid == self.valid(),
    {
        let mut i: usize = 0;
        while i < self.processes.len()
            invariant
                i <= self.processes.len(),
                forall|j: int| 0 <= j < i ==> (#[trigger] self@[j]).name.len() > 0,
            decreases self.processes.len() - i,
        {
            if self.processes[i].name.as_str().unicode_len() == 0 {
                proof {
                    assert(self@[i as int].name.len() == 0);
                }
                return false;
            }
            i += 1;
        }
        first_duplicate(&self.processes).is_none()
    }
}

} // verus!
