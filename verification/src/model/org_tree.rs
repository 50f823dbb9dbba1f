//! An AWS Organization: its organizational units, accounts and service control policies.
use vstd::prelude::*;
use crate::json::{JsonValue, JsonField};
use crate::text::str_eq;
use crate::ci_map::strings_view;
use crate::model::edge::Edge;
use crate::model::node::{Tag, copy_strings};

verus! {

/// Represents an AWS Organization structure
pub struct OrganizationTree {
    pub org_id: String,
    pub management_account_id: String,
    pub root_ous: Vec<OrganizationNode>,
    pub all_scps: Vec<ServiceControlPolicy>,
    pub accounts: Vec<String>,
    pub edge_list: Vec<Edge>,
    pub metadata: OrgMetadata,
}

/// The version that wrote an organization file, and any other metadata members.
pub struct OrgMetadata {
    pub iam_recon_version: String,
    pub extra: Vec<JsonField>,
}

/// Represents an Organizational Unit
pub struct OrganizationNode {
    pub ou_id: String,
    pub ou_name: String,
    pub child_nodes: Vec<OrganizationNode>,
    pub accounts: Vec<OrganizationAccount>,
    pub scps: Vec<String>,
    pub tags: Vec<Tag>,
}

/// Represents an AWS Account within an Organization
pub struct OrganizationAccount {
    pub account_id: String,
    pub account_name: String,
    pub scps: Vec<String>,
    pub tags: Vec<Tag>,
}

/// Represents a Service Control Policy
pub struct ServiceControlPolicy {
    pub policy_id: String,
    pub arn: String,
    pub name: String,
    pub policy_doc: JsonValue,
}

/// The index of the first account of the list with id `id`.
pub open spec fn first_account(accts: Seq<OrganizationAccount>, id: Seq<char>) -> Option<int>
    decreases accts.len(),
{
    if accts.len() == 0 {
        None
    } else {
        match first_account(accts.drop_last(), id) {
            Some(i) => Some(i),
            None => if accts.last().account_id@ == id { Some(accts.len() - 1) } else { None },
        }
    }
}

/// The SCP id lists from `ou` down to the account `id`: one list per organizational
/// unit on the way, then the account's own list where it is not empty. `None` where
/// the account is not under `ou`. An account held directly by a unit is found there
/// before any child unit is searched; child units are searched in order.
pub open spec fn path_in(ou: OrganizationNode, id: Seq<char>) -> Option<Seq<Seq<Seq<char>>>>
    decreases ou, ou.child_nodes@.len() + 1,
{
    match first_account(ou.accounts@, id) {
        Some(i) => {
            let own = strings_view(ou.accounts@[i].scps@);
            if own.len() == 0 {
                Some(seq![strings_view(ou.scps@)])
            } else {
                Some(seq![strings_view(ou.scps@), own])
            }
        },
        None => match path_from_child(ou, id, 0) {
            Some(p) => Some(seq![strings_view(ou.scps@)] + p),
            None => None,
        },
    }
}

/// The path found in the first child unit, from the `i`-th on, that holds the account.
pub open spec fn path_from_child(ou: OrganizationNode, id: Seq<char>, i: nat) -> Option<Seq<Seq<Seq<char>>>>
    decreases ou, ou.child_nodes@.len() - i,
{
    if i >= ou.child_nodes@.len() {
        None
    } else {
        proof {
            assert(decreases_to!(ou => ou.child_nodes));
            assert(decreases_to!(ou.child_nodes => ou.child_nodes@));
            assert(decreases_to!(ou.child_nodes@ => ou.child_nodes@[i as int]));
        }
        match path_in(ou.child_nodes@[i as int], id) {
            Some(p) => Some(p),
            None => path_from_child(ou, id, i + 1),
        }
    }
}

/// The path found under the first root unit, from the `i`-th on, that holds the account.
pub open spec fn path_from_roots(roots: Seq<OrganizationNode>, id: Seq<char>, i: nat) -> Seq<Seq<Seq<char>>>
    decreases roots.len() - i,
{
    if i >= roots.len() {
        Seq::empty()
    } else {
        match path_in(roots[i as int], id) {
            Some(p) => p,
            None => path_from_roots(roots, id, i + 1),
        }
    }
}

/// The index of the first SCP with id `id`.
pub open spec fn first_scp(scps: Seq<ServiceControlPolicy>, id: Seq<char>) -> Option<int>
    decreases scps.len(),
{
    if scps.len() == 0 {
        None
    } else {
        match first_scp(scps.drop_last(), id) {
            Some(i) => Some(i),
            None => if scps.last().policy_id@ == id { Some(scps.len() - 1) } else { None },
        }
    }
}

/// The indices of the SCPs that a list of ids names; ids that name none are skipped.
pub open spec fn level_indices(scps: Seq<ServiceControlPolicy>, ids: Seq<Seq<char>>) -> Seq<int>
    decreases ids.len(),
{
    if ids.len() == 0 {
        Seq::empty()
    } else {
        let rest = level_indices(scps, ids.drop_last());
        match first_scp(scps, ids.last()) {
            Some(k) => rest.push(k),
            None => rest,
        }
    }
}

/// The SCP indices of each level of a path, levels that name no SCP left out.
pub open spec fn scp_levels(scps: Seq<ServiceControlPolicy>, path: Seq<Seq<Seq<char>>>) -> Seq<Seq<int>>
    decreases path.len(),
{
    if path.len() == 0 {
        Seq::empty()
    } else {
        let rest = scp_levels(scps, path.drop_last());
        let level = level_indices(scps, path.last());
        if level.len() == 0 { rest } else { rest.push(level) }
    }
}

/// The levels of SCP references, each as the SCPs it holds.
pub open spec fn scp_ref_levels(r: Seq<Vec<&ServiceControlPolicy>>) -> Seq<Seq<ServiceControlPolicy>> {
    Seq::new(r.len(), |g: int| r[g]@.map_values(|p: &ServiceControlPolicy| *p))
}

/// The SCPs at the given indices, level by level.
pub open spec fn scps_at(scps: Seq<ServiceControlPolicy>, levels: Seq<Seq<int>>) -> Seq<Seq<ServiceControlPolicy>> {
    Seq::new(levels.len(), |g: int| Seq::new(levels[g].len(), |k: int| scps[levels[g][k]]))
}

/// A list of lists of strings, as sequences.
pub open spec fn string_lists(v: Seq<Vec<String>>) -> Seq<Seq<Seq<char>>> {
    Seq::new(v.len(), |i: int| strings_view(v[i]@))
}

impl OrganizationTree {
    /// The SCPs that apply to an account, level by level from the root unit down to
    /// the account; levels whose ids name no SCP are left out, and an account
    /// found under no root unit has none.
    pub fn get_scps_for_account(&self, account_id: &str) -> (r: Vec<Vec<&ServiceControlPolicy>>)
        ensures
            scp_ref_levels(r@) == scps_at(self.all_scps@, scp_levels(self.all_scps@, path_from_roots(self.root_ous@, account_id@, 0))),
    {
        let path = self.find_account_path(account_id);
        let ghost pv = string_lists(path@);
        let ghost all = self.all_scps@;
        let mut result: Vec<Vec<&ServiceControlPolicy>> = Vec::new();
        let mut i: usize = 0;
        proof {
            assert(pv.take(0) =~= Seq::<Seq<Seq<char>>>::empty());
            assert(scp_ref_levels(result@) =~= scps_at(all, scp_levels(all, pv.take(0))));
        }
        while i < path.len()
            invariant
                i <= path@.len(),
                pv == string_lists(path@),
                all == self.all_scps@,
                scp_ref_levels(result@) == scps_at(all, scp_levels(all, pv.take(i as int))),
            decreases path@.len() - i,
        {
            let level = self.level_scps(&path[i]);
            let ghost before = scp_ref_levels(result@);
            proof {
                assert(pv.take(i + 1).drop_last() =~= pv.take(i as int));
                assert(pv.take(i + 1).last() == strings_view(path@[i as int]@));
            }
            if level.len() != 0 {
                result.push(level);
                proof {
                    assert(scp_ref_levels(result@) =~= before.push(level@.map_values(|p: &ServiceControlPolicy| *p)));
                    assert(scps_at(all, scp_levels(all, pv.take(i + 1))) =~= scps_at(all, scp_levels(all, pv.take(i as int))).push(level@.map_values(|p: &ServiceControlPolicy| *p)));
                }
            }
            i = i + 1;
        }
        proof {
            assert(pv.take(i as int) =~= pv);
        }
        result
    }

    /// The SCPs that a list of ids names, in the order of the ids.
    fn level_scps(&self, ids: &Vec<String>) -> (r: Vec<&ServiceControlPolicy>)
        ensures
            r@.len() == level_indices(self.all_scps@, strings_view(ids@)).len(),
            r@.map_values(|p: &ServiceControlPolicy| *p) == Seq::new(
                level_indices(self.all_scps@, strings_view(ids@)).len(),
                |k: int| self.all_scps@[level_indices(self.all_scps@, strings_view(ids@))[k]],
            ),
            forall|k: int| 0 <= k < level_indices(self.all_scps@, strings_view(ids@)).len() ==>
                0 <= #[trigger] level_indices(self.all_scps@, strings_view(ids@))[k] < self.all_scps@.len(),
    {
        let ghost all = self.all_scps@;
        let ghost iv = strings_view(ids@);
        let mut out: Vec<&ServiceControlPolicy> = Vec::new();
        let mut i: usize = 0;
        proof {
            assert(iv.take(0) =~= Seq::<Seq<char>>::empty());
        }
        while i < ids.len()
            invariant
                i <= ids@.len(),
                all == self.all_scps@,
                iv == strings_view(ids@),
                out@.len() == level_indices(all, iv.take(i as int)).len(),
                forall|k: int| 0 <= k < out@.len() ==> 0 <= #[trigger] level_indices(all, iv.take(i as int))[k] < all.len(),
                forall|k: int| 0 <= k < out@.len() ==> *#[trigger] out@[k] == all[level_indices(all, iv.take(i as int))[k]],
            decreases ids@.len() - i,
        {
            proof {
                assert(iv.take(i + 1).drop_last() =~= iv.take(i as int));
                assert(iv.take(i + 1).last() == ids@[i as int]@);
            }
            match self.find_scp(ids[i].as_str()) {
                Some(p) => {
                    out.push(p.1);
                },
                None => {},
            }
            i = i + 1;
        }
        proof {
            assert(iv.take(i as int) =~= iv);
            assert(out@.map_values(|p: &ServiceControlPolicy| *p) =~= Seq::new(
                level_indices(all, iv).len(),
                |k: int| all[level_indices(all, iv)[k]],
            ));
        }
        out
    }

    /// The first SCP with id `id`, with its index.
    fn find_scp(&self, id: &str) -> (r: Option<(usize, &ServiceControlPolicy)>)
        ensures
            match r {
                Some(p) => first_scp(self.all_scps@, id@) == Some(p.0 as int) && p.0 < self.all_scps@.len()
                    && *p.1 == self.all_scps@[p.0 as int],
                None => first_scp(self.all_scps@, id@) is None,
            },
    {
        let ghost all = self.all_scps@;
        let mut i: usize = 0;
        while i < self.all_scps.len()
            invariant
                i <= all.len(),
                all == self.all_scps@,
                first_scp(all.take(i as int), id@) is None,
            decreases all.len() - i,
        {
            proof {
                assert(all.take(i + 1).drop_last() =~= all.take(i as int));
                lemma_first_scp_prefix(all, id@, i + 1);
            }
            if str_eq(self.all_scps[i].policy_id.as_str(), id) {
                return Some((i, &self.all_scps[i]));
            }
            i = i + 1;
        }
        proof {
            assert(all.take(i as int) =~= all);
        }
        None
    }

    /// The SCP id lists on the way to the account, from the first root unit that holds it.
    fn find_account_path(&self, account_id: &str) -> (r: Vec<Vec<String>>)
        ensures
            string_lists(r@) == path_from_roots(self.root_ous@, account_id@, 0),
    {
        let mut i: usize = 0;
        while i < self.root_ous.len()
            invariant
                i <= self.root_ous@.len(),
                path_from_roots(self.root_ous@, account_id@, 0) == path_from_roots(self.root_ous@, account_id@, i as nat),
            decreases self.root_ous@.len() - i,
        {
            match Self::find_in_ou(&self.root_ous[i], account_id) {
                Some(path) => {
                    return path;
                },
                None => {},
            }
            i = i + 1;
        }
        let none: Vec<Vec<String>> = Vec::new();
        proof {
            assert(string_lists(none@) =~= Seq::<Seq<Seq<char>>>::empty());
        }
        none
    }

    /// The SCP id lists from `ou` down to the account, where it is under `ou`.
    fn find_in_ou(ou: &OrganizationNode, account_id: &str) -> (r: Option<Vec<Vec<String>>>)
        ensures
            match r {
                Some(p) => path_in(*ou, account_id@) == Some(string_lists(p@)),
                None => path_in(*ou, account_id@) is None,
            },
        decreases *ou, ou.child_nodes@.len() + 1,
    {
        match find_account(&ou.accounts, account_id) {
            Some(k) => {
                let mut path: Vec<Vec<String>> = Vec::new();
                path.push(copy_strings(&ou.scps));
                if ou.accounts[k].scps.len() != 0 {
                    path.push(copy_strings(&ou.accounts[k].scps));
                }
                proof {
                    assert(string_lists(path@) =~= path_in(*ou, account_id@).unwrap());
                }
                Some(path)
            },
            None => {
                match Self::find_in_children(ou, account_id, 0) {
                    Some(rest) => {
                        let mut path = rest;
                        let ghost rv = string_lists(path@);
                        path.insert(0, copy_strings(&ou.scps));
                        proof {
                            assert(string_lists(path@) =~= seq![strings_view(ou.scps@)] + rv);
                        }
                        Some(path)
                    },
                    None => None,
                }
            },
        }
    }

    /// The path found in the first child unit of `ou`, from the `i`-th on, that holds the account.
    fn find_in_children(ou: &OrganizationNode, account_id: &str, i: usize) -> (r: Option<Vec<Vec<String>>>)
        requires
            i <= ou.child_nodes@.len(),
        ensures
            match r {
                Some(p) => path_from_child(*ou, account_id@, i as nat) == Some(string_lists(p@)),
                None => path_from_child(*ou, account_id@, i as nat) is None,
            },
        decreases *ou, ou.child_nodes@.len() - i,
    {
        if i >= ou.child_nodes.len() {
            return None;
        }
        proof {
            assert(decreases_to!(*ou => ou.child_nodes));
            assert(decreases_to!(ou.child_nodes => ou.child_nodes@));
            assert(decreases_to!(ou.child_nodes@ => ou.child_nodes@[i as int]));
        }
        match Self::find_in_ou(&ou.child_nodes[i], account_id) {
            Some(p) => Some(p),
            None => Self::find_in_children(ou, account_id, i + 1),
        }
    }
}

/// The first-match index of a prefix is that of the whole list, where the prefix has one.
proof fn lemma_first_scp_prefix(all: Seq<ServiceControlPolicy>, id: Seq<char>, n: int)
    requires
        0 < n <= all.len(),
        first_scp(all.take(n - 1), id) is None,
        all.take(n).drop_last() == all.take(n - 1),
    ensures
        all[n - 1].policy_id@ == id ==> first_scp(all.take(n), id) == Some(n - 1),
        all[n - 1].policy_id@ != id ==> first_scp(all.take(n), id) is None,
        first_scp(all.take(n), id) is Some ==> first_scp(all, id) == first_scp(all.take(n), id),
    decreases all.len() - n,
{
    if first_scp(all.take(n), id) is Some && n < all.len() {
        assert(all.take(n + 1).drop_last() =~= all.take(n));
        lemma_first_scp_extend(all, id, n + 1);
    }
    if n == all.len() {
        assert(all.take(n) =~= all);
    }
}

/// A first match in a prefix stays the first match of every longer prefix.
proof fn lemma_first_scp_extend(all: Seq<ServiceControlPolicy>, id: Seq<char>, n: int)
    requires
        0 < n <= all.len(),
        first_scp(all.take(n - 1), id) is Some,
    ensures
        first_scp(all, id) == first_scp(all.take(n - 1), id),
    decreases all.len() - n,
{
    assert(all.take(n).drop_last() =~= all.take(n - 1));
    if n < all.len() {
        lemma_first_scp_extend(all, id, n + 1);
    } else {
        assert(all.take(n) =~= all);
    }
}

/// The index of the first account with id `id`.
fn find_account(accts: &Vec<OrganizationAccount>, id: &str) -> (r: Option<usize>)
    ensures
        match r {
            Some(k) => first_account(accts@, id@) == Some(k as int) && k < accts@.len(),
            None => first_account(accts@, id@) is None,
        },
{
    let ghost all = accts@;
    let mut i: usize = 0;
    while i < accts.len()
        invariant
            i <= all.len(),
            all == accts@,
            first_account(all.take(i as int), id@) is None,
        decreases all.len() - i,
    {
        proof {
            assert(all.take(i + 1).drop_last() =~= all.take(i as int));
        }
        if str_eq(accts[i].account_id.as_str(), id) {
            proof {
                lemma_first_account_extend(all, id@, i + 2);
            }
            return Some(i);
        }
        i = i + 1;
    }
    proof {
        assert(all.take(i as int) =~= all);
    }
    None
}

/// A first match in a prefix stays the first match of every longer prefix.
proof fn lemma_first_account_extend(all: Seq<OrganizationAccount>, id: Seq<char>, n: int)
    requires
        0 < n <= all.len() + 1,
        n >= 2 ==> first_account(all.take(n - 1), id) is Some,
    ensures
        n >= 2 ==> first_account(all, id) == first_account(all.take(n - 1), id),
    decreases all.len() + 1 - n,
{
    if n >= 2 {
        if n - 1 < all.len() {
            assert(all.take(n).drop_last() =~= all.take(n - 1));
            lemma_first_account_extend(all, id, n + 1);
        } else {
            assert(all.take(n - 1) =~= all);
        }
    }
}


proof fn lemma_first_scp_found(scps: Seq<ServiceControlPolicy>, id: Seq<char>)
    ensures
        first_scp(scps, id) matches Some(k) ==> 0 <= k < scps.len() && scps[k].policy_id@ == id,
    decreases scps.len(),
{
    if scps.len() > 0 {
        lemma_first_scp_found(scps.drop_last(), id);
        if let Some(k) = first_scp(scps.drop_last(), id) {
            assert(scps.drop_last()[k] == scps[k]);
        }
    }
}

proof fn lemma_level_indices(scps: Seq<ServiceControlPolicy>, ids: Seq<Seq<char>>)
    ensures
        forall|k: int| 0 <= k < level_indices(scps, ids).len() ==> {
            let j = #[trigger] level_indices(scps, ids)[k];
            0 <= j < scps.len() && ids.contains(scps[j].policy_id@)
        },
    decreases ids.len(),
{
    if ids.len() > 0 {
        lemma_level_indices(scps, ids.drop_last());
        lemma_first_scp_found(scps, ids.last());
        let rest = level_indices(scps, ids.drop_last());
        assert forall|k: int| 0 <= k < level_indices(scps, ids).len() implies {
            let j = #[trigger] level_indices(scps, ids)[k];
            0 <= j < scps.len() && ids.contains(scps[j].policy_id@)
        } by {
            if k < rest.len() {
                assert(level_indices(scps, ids)[k] == rest[k]);
                let j = rest[k];
                let q = choose|q: int| 0 <= q < ids.drop_last().len() && ids.drop_last()[q] == scps[j].policy_id@;
                assert(ids[q] == scps[j].policy_id@);
            } else {
                assert(ids[ids.len() - 1] == ids.last());
            }
        }
    }
}

/// Every level of SCPs found for an account holds at least one SCP, and each
/// SCP of a level is one of the organization's, named by that level's ids.
pub proof fn law_scp_levels_named(scps: Seq<ServiceControlPolicy>, path: Seq<Seq<Seq<char>>>)
    ensures
        forall|g: int| 0 <= g < scp_levels(scps, path).len() ==> (#[trigger] scp_levels(scps, path)[g]).len() > 0,
        forall|g: int, k: int| 0 <= g < scp_levels(scps, path).len() && 0 <= k < scp_levels(scps, path)[g].len() ==> {
            let j = #[trigger] scp_levels(scps, path)[g][k];
            0 <= j < scps.len() && exists|l: int| 0 <= l < path.len() && #[trigger] path[l].contains(scps[j].policy_id@)
        },
    decreases path.len(),
{
    if path.len() > 0 {
        law_scp_levels_named(scps, path.drop_last());
        lemma_level_indices(scps, path.last());
        let rest = scp_levels(scps, path.drop_last());
        let levels = scp_levels(scps, path);
        assert forall|g: int, k: int| 0 <= g < levels.len() && 0 <= k < levels[g].len() implies {
            let j = #[trigger] levels[g][k];
            0 <= j < scps.len() && exists|l: int| 0 <= l < path.len() && #[trigger] path[l].contains(scps[j].policy_id@)
        } by {
            if g < rest.len() {
                assert(levels[g] == rest[g]);
                let j = rest[g][k];
                let l = choose|l: int| 0 <= l < path.drop_last().len() && #[trigger] path.drop_last()[l].contains(scps[j].policy_id@);
                assert(path[l] == path.drop_last()[l]);
            } else {
                assert(levels[g] == level_indices(scps, path.last()));
                assert(path[path.len() - 1] == path.last());
            }
        }
    }
}

} // verus!
