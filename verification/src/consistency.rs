//! Checking the state's invariant at run time, for a state restored from
//! storage.
use vstd::prelude::*;

use crate::collections::{has_key, key_index, keys_unique};
use crate::utils::{is_named_after, named_after};
use crate::{owner_of, projects_of, supporters_of, Contract};

verus! {

impl Contract {
    /// Whether every owner's list of projects names each project once.
    fn owner_lists_unique(&self) -> (r: bool)
        ensures
            r == forall|i: int|
                0 <= i < self@.project_per_owner.len() ==> (#[trigger] self@.project_per_owner[i]).1.no_duplicates(),
    {
        let n = self.project_per_owner.len();
        let mut i: usize = 0;
        while i < n
            invariant
                n == self@.project_per_owner.len(),
                i <= n,
                forall|a: int| 0 <= a < i ==> (#[trigger] self@.project_per_owner[a]).1.no_duplicates(),
            decreases n - i,
        {
            if !self.project_per_owner.value_at(i).has_no_duplicates() {
                return false;
            }
            i = i + 1;
        }
        true
    }

    /// Whether every project's list of stop votes names each voter once.
    fn vote_lists_unique(&self) -> (r: bool)
        ensures
            r == forall|i: int|
                0 <= i < self@.force_stop_project.len() ==> (#[trigger] self@.force_stop_project[i]).1.no_duplicates(),
    {
        let n = self.force_stop_project.len();
        let mut i: usize = 0;
        while i < n
            invariant
                n == self@.force_stop_project.len(),
                i <= n,
                forall|a: int| 0 <= a < i ==> (#[trigger] self@.force_stop_project[a]).1.no_duplicates(),
            decreases n - i,
        {
            if !self.force_stop_project.value_at(i).has_no_duplicates() {
                return false;
            }
            i = i + 1;
        }
        true
    }

    /// Whether every project's supporters are listed once each.
    fn supporter_lists_unique(&self) -> (r: bool)
        ensures
            r == forall|i: int|
                0 <= i < self@.supporters_per_project.len() ==> keys_unique(
                    (#[trigger] self@.supporters_per_project[i]).1,
                ),
    {
        let n = self.supporters_per_project.len();
        let mut i: usize = 0;
        while i < n
            invariant
                n == self@.supporters_per_project.len(),
                i <= n,
                forall|a: int|
                    0 <= a < i ==> keys_unique((#[trigger] self@.supporters_per_project[a]).1),
            decreases n - i,
        {
            if !self.supporters_per_project.value_at(i).keys_are_unique() {
                return false;
            }
            i = i + 1;
        }
        true
    }

    /// Whether the projects with an owner are those with metadata.
    fn owners_match_metadata(&self) -> (r: bool)
        requires
            keys_unique(self@.project),
            keys_unique(self@.project_metadata),
        ensures
            r == forall|k: Seq<char>|
                #![trigger has_key(self@.project, k)]
                #![trigger has_key(self@.project_metadata, k)]
                has_key(self@.project, k) <==> has_key(self@.project_metadata, k),
    {
        let n = self.project.len();
        let mut i: usize = 0;
        while i < n
            invariant
                n == self@.project.len(),
                i <= n,
                keys_unique(self@.project),
                keys_unique(self@.project_metadata),
                forall|a: int|
                    0 <= a < i ==> has_key(self@.project_metadata, (#[trigger] self@.project[a]).0),
            decreases n - i,
        {
            if self.project_metadata.find(self.project.key_at(i)).is_none() {
                assert(has_key(self@.project, self@.project[i as int].0));
                return false;
            }
            i = i + 1;
        }
        let n = self.project_metadata.len();
        let mut i: usize = 0;
        while i < n
            invariant
                n == self@.project_metadata.len(),
                i <= n,
                keys_unique(self@.project),
                keys_unique(self@.project_metadata),
                forall|a: int|
                    0 <= a < self@.project.len() ==> has_key(
                        self@.project_metadata,
                        (#[trigger] self@.project[a]).0,
                    ),
                forall|a: int|
                    0 <= a < i ==> has_key(self@.project, (#[trigger] self@.project_metadata[a]).0),
            decreases n - i,
        {
            if self.project.find(self.project_metadata.key_at(i)).is_none() {
                assert(has_key(self@.project_metadata, self@.project_metadata[i as int].0));
                return false;
            }
            i = i + 1;
        }
        assert forall|k: Seq<char>|
            #![trigger has_key(self@.project, k)]
            #![trigger has_key(self@.project_metadata, k)]
            has_key(self@.project, k) <==> has_key(self@.project_metadata, k) by {
            if has_key(self@.project, k) {
                let a = key_index(self@.project, k);
                assert(self@.project[a].0 == k);
            }
            if has_key(self@.project_metadata, k) {
                let a = key_index(self@.project_metadata, k);
                assert(self@.project_metadata[a].0 == k);
            }
        }
        true
    }

    /// Whether every project with stop votes has supporters.
    fn voted_projects_supported(&self) -> (r: bool)
        requires
            keys_unique(self@.supporters_per_project),
        ensures
            r == forall|i: int|
                0 <= i < self@.force_stop_project.len() ==> has_key(
                    self@.supporters_per_project,
                    (#[trigger] self@.force_stop_project[i]).0,
                ),
    {
        let n = self.force_stop_project.len();
        let mut i: usize = 0;
        while i < n
            invariant
                n == self@.force_stop_project.len(),
                i <= n,
                keys_unique(self@.supporters_per_project),
                forall|a: int|
                    0 <= a < i ==> has_key(
                        self@.supporters_per_project,
                        (#[trigger] self@.force_stop_project[a]).0,
                    ),
            decreases n - i,
        {
            if self.supporters_per_project.find(self.force_stop_project.key_at(i)).is_none() {
                return false;
            }
            i = i + 1;
        }
        true
    }

    /// Whether every stop vote was cast by a supporter of its project.
    fn voters_are_supporters(&self) -> (r: bool)
        requires
            keys_unique(self@.supporters_per_project),
            forall|i: int|
                0 <= i < self@.supporters_per_project.len() ==> keys_unique(
                    (#[trigger] self@.supporters_per_project[i]).1,
                ),
        ensures
            r == forall|i: int, j: int|
                0 <= i < self@.force_stop_project.len() && 0 <= j
                    < self@.force_stop_project[i].1.len() ==> has_key(
                    supporters_of(self@, self@.force_stop_project[i].0),
                    #[trigger] self@.force_stop_project[i].1[j],
                ),
    {
        let ghost s = self@;
        let n = self.force_stop_project.len();
        let mut i: usize = 0;
        while i < n
            invariant
                s == self@,
                n == s.force_stop_project.len(),
                i <= n,
                keys_unique(s.supporters_per_project),
                forall|a: int|
                    0 <= a < s.supporters_per_project.len() ==> keys_unique(
                        (#[trigger] s.supporters_per_project[a]).1,
                    ),
                forall|a: int, j: int|
                    0 <= a < i && 0 <= j < s.force_stop_project[a].1.len() ==> has_key(
                        supporters_of(s, s.force_stop_project[a].0),
                        #[trigger] s.force_stop_project[a].1[j],
                    ),
            decreases n - i,
        {
            let pid = self.force_stop_project.key_at(i);
            let votes = self.force_stop_project.value_at(i);
            let ghost sup = supporters_of(s, pid@);
            let supporters = self.supporters_per_project.get(pid);
            proof {
                if has_key(s.supporters_per_project, pid@) {
                    let k = key_index(s.supporters_per_project, pid@);
                    assert(s.supporters_per_project[k].0 == pid@);
                    assert(keys_unique(sup));
                }
            }
            let m = votes.len();
            let mut j: usize = 0;
            while j < m
                invariant
                    s == self@,
                    n == s.force_stop_project.len(),
                    i < n,
                    m == votes@.len(),
                    votes@ == s.force_stop_project[i as int].1,
                    pid@ == s.force_stop_project[i as int].0,
                    sup == supporters_of(s, pid@),
                    keys_unique(sup),
                    match supporters {
                        Some(v) => v@ == sup,
                        None => sup == Seq::<(Seq<char>, u128)>::empty(),
                    },
                    j <= m,
                    forall|b: int| 0 <= b < j ==> has_key(sup, #[trigger] votes@[b]),
                decreases m - j,
            {
                let found = match supporters {
                    Some(v) => v.find(votes.item_at(j)).is_some(),
                    None => false,
                };
                if !found {
                    assert(!has_key(sup, s.force_stop_project[i as int].1[j as int]));
                    return false;
                }
                j = j + 1;
            }
            i = i + 1;
        }
        true
    }

    /// Whether every project listed under an owner has metadata.
    fn listed_projects_exist(&self) -> (r: bool)
        requires
            keys_unique(self@.project_metadata),
        ensures
            r == forall|i: int, j: int|
                0 <= i < self@.project_per_owner.len() && 0 <= j
                    < self@.project_per_owner[i].1.len() ==> has_key(
                    self@.project_metadata,
                    #[trigger] self@.project_per_owner[i].1[j],
                ),
    {
        let ghost s = self@;
        let n = self.project_per_owner.len();
        let mut i: usize = 0;
        while i < n
            invariant
                s == self@,
                n == s.project_per_owner.len(),
                i <= n,
                keys_unique(s.project_metadata),
                forall|a: int, j: int|
                    0 <= a < i && 0 <= j < s.project_per_owner[a].1.len() ==> has_key(
                        s.project_metadata,
                        #[trigger] s.project_per_owner[a].1[j],
                    ),
            decreases n - i,
        {
            let ids = self.project_per_owner.value_at(i);
            let m = ids.len();
            let mut j: usize = 0;
            while j < m
                invariant
                    s == self@,
                    n == s.project_per_owner.len(),
                    i < n,
                    m == ids@.len(),
                    ids@ == s.project_per_owner[i as int].1,
                    keys_unique(s.project_metadata),
                    j <= m,
                    forall|b: int| 0 <= b < j ==> has_key(s.project_metadata, #[trigger] ids@[b]),
                decreases m - j,
            {
                if self.project_metadata.find(ids.item_at(j)).is_none() {
                    assert(!has_key(s.project_metadata, s.project_per_owner[i as int].1[j as int]));
                    return false;
                }
                j = j + 1;
            }
            i = i + 1;
        }
        true
    }

    /// Whether every project with supporters has metadata.
    fn supported_projects_exist(&self) -> (r: bool)
        requires
            keys_unique(self@.project_metadata),
        ensures
            r == forall|i: int|
                0 <= i < self@.supporters_per_project.len() ==> has_key(
                    self@.project_metadata,
                    (#[trigger] self@.supporters_per_project[i]).0,
                ),
    {
        let n = self.supporters_per_project.len();
        let mut i: usize = 0;
        while i < n
            invariant
                n == self@.supporters_per_project.len(),
                i <= n,
                keys_unique(self@.project_metadata),
                forall|a: int|
                    0 <= a < i ==> has_key(
                        self@.project_metadata,
                        (#[trigger] self@.supporters_per_project[a]).0,
                    ),
            decreases n - i,
        {
            if self.project_metadata.find(self.supporters_per_project.key_at(i)).is_none() {
                return false;
            }
            i = i + 1;
        }
        true
    }

    /// Whether every project's identifier is named after its owner.
    fn projects_named_after_owners(&self) -> (r: bool)
        ensures
            r == forall|i: int|
                0 <= i < self@.project.len() ==> named_after(
                    (#[trigger] self@.project[i]).0,
                    self@.project[i].1.owner_id@,
                ),
    {
        let n = self.project.len();
        let mut i: usize = 0;
        while i < n
            invariant
                n == self@.project.len(),
                i <= n,
                forall|a: int|
                    0 <= a < i ==> named_after(
                        (#[trigger] self@.project[a]).0,
                        self@.project[a].1.owner_id@,
                    ),
            decreases n - i,
        {
            if !is_named_after(self.project.key_at(i), &self.project.value_at(i).owner_id) {
                return false;
            }
            i = i + 1;
        }
        true
    }

    /// Whether every project is listed under its owner.
    fn projects_listed_under_owners(&self) -> (r: bool)
        requires
            keys_unique(self@.project_per_owner),
        ensures
            r == forall|i: int|
                0 <= i < self@.project.len() ==> projects_of(
                    self@,
                    (#[trigger] self@.project[i]).1.owner_id@,
                ).contains(self@.project[i].0),
    {
        let n = self.project.len();
        let mut i: usize = 0;
        while i < n
            invariant
                n == self@.project.len(),
                i <= n,
                keys_unique(self@.project_per_owner),
                forall|a: int|
                    0 <= a < i ==> projects_of(
                        self@,
                        (#[trigger] self@.project[a]).1.owner_id@,
                    ).contains(self@.project[a].0),
            decreases n - i,
        {
            let owner = &self.project.value_at(i).owner_id;
            let listed = match self.project_per_owner.get(owner) {
                Some(ids) => ids.contains(self.project.key_at(i)),
                None => false,
            };
            if !listed {
                return false;
            }
            i = i + 1;
        }
        true
    }

    /// Whether every project listed under an account is owned by it.
    fn listed_projects_owned(&self) -> (r: bool)
        requires
            keys_unique(self@.project),
        ensures
            r == forall|i: int, j: int|
                0 <= i < self@.project_per_owner.len() && 0 <= j
                    < self@.project_per_owner[i].1.len() ==> owner_of(
                    self@,
                    #[trigger] self@.project_per_owner[i].1[j],
                ) == Some(self@.project_per_owner[i].0),
    {
        let ghost s = self@;
        let n = self.project_per_owner.len();
        let mut i: usize = 0;
        while i < n
            invariant
                s == self@,
                n == s.project_per_owner.len(),
                i <= n,
                keys_unique(s.project),
                forall|a: int, j: int|
                    0 <= a < i && 0 <= j < s.project_per_owner[a].1.len() ==> owner_of(
                        s,
                        #[trigger] s.project_per_owner[a].1[j],
                    ) == Some(s.project_per_owner[a].0),
            decreases n - i,
        {
            let account = self.project_per_owner.key_at(i);
            let ids = self.project_per_owner.value_at(i);
            let m = ids.len();
            let mut j: usize = 0;
            while j < m
                invariant
                    s == self@,
                    n == s.project_per_owner.len(),
                    i < n,
                    m == ids@.len(),
                    ids@ == s.project_per_owner[i as int].1,
                    account@ == s.project_per_owner[i as int].0,
                    keys_unique(s.project),
                    j <= m,
                    forall|b: int|
                        0 <= b < j ==> owner_of(s, #[trigger] ids@[b]) == Some(account@),
                decreases m - j,
            {
                let owned = match self.project.get(ids.item_at(j)) {
                    Some(p) => p.owner_id == *account,
                    None => false,
                };
                if !owned {
                    assert(owner_of(s, s.project_per_owner[i as int].1[j as int]) != Some(
                        s.project_per_owner[i as int].0,
                    ));
                    return false;
                }
                j = j + 1;
            }
            i = i + 1;
        }
        true
    }

    /// Whether the state's invariant holds: used to vet a state that was
    /// rebuilt from storage before any other call is made on it.
    pub fn check_invariant(&self) -> (r: bool)
        ensures
            r == self.wf(),
    {
        if !self.project_per_owner.keys_are_unique() || !self.project.keys_are_unique()
            || !self.project_metadata.keys_are_unique()
            || !self.supporters_per_project.keys_are_unique()
            || !self.force_stop_project.keys_are_unique() {
            return false;
        }
        if !self.owner_lists_unique() || !self.vote_lists_unique()
            || !self.supporter_lists_unique() {
            return false;
        }
        if !self.owners_match_metadata() || !self.voted_projects_supported()
            || !self.voters_are_supporters() || !self.listed_projects_exist() {
            return false;
        }
        if !self.supported_projects_exist() || !self.projects_named_after_owners()
            || !self.projects_listed_under_owners() || !self.listed_projects_owned() {
            return false;
        }
        true
    }
}

} // verus!
