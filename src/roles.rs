use vstd::prelude::*;
use crate::errors::RoleWrappedError;
use crate::lookup::first_index;
use crate::permissions::{contains_label, copy_labels, labels_of, PermissionsView, RolePermissions};

verus! {

/// A role as values.
pub struct RoleView {
    pub id: Seq<char>,
    pub owner: Seq<char>,
    pub editors: Seq<Seq<char>>,
    pub name: Seq<char>,
    pub extends: Seq<Seq<char>>,
    pub permissions: PermissionsView,
}

/// A named bundle of permissions that inherits those of the roles in
/// `extends`. `permissions` holds the role's own grants, before inheritance.
pub struct Role {
    pub id: String,
    pub owner: String,
    pub editors: Vec<String>,
    pub name: String,
    pub extends: Vec<String>,
    pub permissions: RolePermissions,
}

impl View for Role {
    type V = RoleView;

    open spec fn view(&self) -> RoleView {
        RoleView {
            id: self.id@,
            owner: self.owner@,
            editors: labels_of(self.editors@),
            name: self.name@,
            extends: labels_of(self.extends@),
            permissions: self.permissions@,
        }
    }
}

impl Role {
    /// A copy of this role.
    pub fn copied(&self) -> (r: Role)
        ensures
            r@ == self@,
    {
        Role {
            id: self.id.clone(),
            owner: self.owner.clone(),
            editors: copy_labels(&self.editors),
            name: self.name.clone(),
            extends: copy_labels(&self.extends),
            permissions: self.permissions.copied(),
        }
    }
}

/// The ids of a list of roles, in order.
pub open spec fn role_ids(roles: Seq<RoleView>) -> Seq<Seq<char>> {
    roles.map_values(|r: RoleView| r.id)
}

/// The first role of `roles` with the id `id`.
pub open spec fn find_role(roles: Seq<RoleView>, id: Seq<char>) -> Option<RoleView> {
    let i = first_index(role_ids(roles), id);
    if i < 0 {
        None
    } else {
        Some(roles[i])
    }
}

/// Role `x` exists and extends role `y`.
pub open spec fn extends_edge(roles: Seq<RoleView>, x: Seq<char>, y: Seq<char>) -> bool {
    find_role(roles, x) is Some && find_role(roles, x)->0.extends.contains(y)
}

/// `path` follows `extends` links from its first id to its last.
pub open spec fn is_path(roles: Seq<RoleView>, path: Seq<Seq<char>>) -> bool {
    &&& path.len() >= 1
    &&& forall|i: int| 0 <= i < path.len() - 1 ==> extends_edge(roles, path[i], #[trigger] path[i + 1])
}

/// `y` is `x` or one of the roles that `x` inherits from, directly or not.
pub open spec fn reachable(roles: Seq<RoleView>, x: Seq<char>, y: Seq<char>) -> bool {
    exists|path: Seq<Seq<char>>| is_path(roles, path) && path[0] == x && path.last() == y
}

/// Some role that `x` inherits from extends `x` again: the graph has a
/// cycle through `x` (of length one where `x` extends itself).
pub open spec fn cycle_through(roles: Seq<RoleView>, x: Seq<char>) -> bool {
    exists|y: Seq<char>| reachable(roles, x, y) && #[trigger] extends_edge(roles, y, x)
}

/// Every role reachable from `x` exists.
pub open spec fn closed_from(roles: Seq<RoleView>, x: Seq<char>) -> bool {
    forall|y: Seq<char>| #[trigger] reachable(roles, x, y) ==> find_role(roles, y) is Some
}

/// Apart from roles that are missing, the roles reachable from `x` form a
/// tree: none of them extends `x` or names a role twice, and no two of them
/// extend the same role. On such a graph the walk meets no id twice.
pub open spec fn tree_shaped(roles: Seq<RoleView>, x: Seq<char>) -> bool {
    &&& forall|y: Seq<char>|
        #[trigger] reachable(roles, x, y) && find_role(roles, y) is Some ==> find_role(
            roles,
            y,
        )->0.extends.no_duplicates() && !find_role(roles, y)->0.extends.contains(x)
    &&& forall|y1: Seq<char>, y2: Seq<char>, c: Seq<char>|
        reachable(roles, x, y1) && reachable(roles, x, y2) && y1 != y2 && find_role(roles, y1) is Some
            && find_role(roles, y2) is Some && #[trigger] find_role(roles, y1)->0.extends.contains(c)
            ==> !#[trigger] find_role(roles, y2)->0.extends.contains(c)
}

/// The roles reachable from `x` all exist and form a tree. Resolution of
/// `x` succeeds exactly on such graphs.
pub open spec fn tree_from(roles: Seq<RoleView>, x: Seq<char>) -> bool {
    closed_from(roles, x) && tree_shaped(roles, x)
}

/// `p` grants all that `x` and every role it inherits from grant on their own.
pub open spec fn covers_ancestors(p: PermissionsView, roles: Seq<RoleView>, x: Seq<char>) -> bool {
    forall|y: Seq<char>|
        #[trigger] reachable(roles, x, y) && find_role(roles, y) is Some ==> p.covers(
            find_role(roles, y)->0.permissions,
        )
}

/// Each grant of `p` is the own grant of `x` or of a role it inherits from.
pub open spec fn drawn_from_ancestors(p: PermissionsView, roles: Seq<RoleView>, x: Seq<char>) -> bool {
    &&& forall|k: int, l: Seq<char>|
        0 <= k < 9 && #[trigger] p.list(k).contains(l) ==> exists|y: Seq<char>|
            reachable(roles, x, y) && find_role(roles, y) is Some && (#[trigger] find_role(
                roles,
                y,
            )->0.permissions.list(k)).contains(l)
    &&& p.set_labels ==> exists|y: Seq<char>|
        reachable(roles, x, y) && #[trigger] find_role(roles, y) is Some && find_role(
            roles,
            y,
        )->0.permissions.set_labels
}

/// The labels of list `k` that `x` grants once inheritance is applied:
/// those of `x` and of every role it inherits from.
pub open spec fn inherited_grants(roles: Seq<RoleView>, x: Seq<char>, k: int) -> Set<Seq<char>> {
    Set::new(
        |l: Seq<char>|
            exists|y: Seq<char>|
                reachable(roles, x, y) && find_role(roles, y) is Some && (#[trigger] find_role(
                    roles,
                    y,
                )->0.permissions.list(k)).contains(l),
    )
}

/// Whether `x`, once inheritance is applied, may set labels.
pub open spec fn inherited_flag(roles: Seq<RoleView>, x: Seq<char>) -> bool {
    exists|y: Seq<char>|
        reachable(roles, x, y) && #[trigger] find_role(roles, y) is Some && find_role(
            roles,
            y,
        )->0.permissions.set_labels
}

/// A resolved permission set grants exactly the inherited labels and flag.
pub proof fn lemma_resolved_grants(p: PermissionsView, roles: Seq<RoleView>, x: Seq<char>)
    requires
        covers_ancestors(p, roles, x),
        drawn_from_ancestors(p, roles, x),
    ensures
        forall|k: int| 0 <= k < 9 ==> #[trigger] p.list(k).to_set() == inherited_grants(roles, x, k),
        p.set_labels == inherited_flag(roles, x),
{
    assert forall|k: int| 0 <= k < 9 implies #[trigger] p.list(k).to_set() == inherited_grants(roles, x, k) by {
        assert forall|l: Seq<char>| p.list(k).to_set().contains(l) implies inherited_grants(roles, x, k).contains(l) by {
            assert(p.list(k).contains(l));
        }
        assert forall|l: Seq<char>| inherited_grants(roles, x, k).contains(l) implies p.list(k).to_set().contains(l) by {
            let y = choose|y: Seq<char>|
                reachable(roles, x, y) && find_role(roles, y) is Some && (#[trigger] find_role(
                    roles,
                    y,
                )->0.permissions.list(k)).contains(l);
            assert(p.covers(find_role(roles, y)->0.permissions));
            assert(find_role(roles, y)->0.permissions.list(k).to_set().subset_of(p.list(k).to_set()));
            assert(find_role(roles, y)->0.permissions.list(k).to_set().contains(l));
        }
        assert(p.list(k).to_set() =~= inherited_grants(roles, x, k));
    }
    if inherited_flag(roles, x) {
        let y = choose|y: Seq<char>|
            reachable(roles, x, y) && #[trigger] find_role(roles, y) is Some && find_role(
                roles,
                y,
            )->0.permissions.set_labels;
        assert(p.covers(find_role(roles, y)->0.permissions));
    }
}

/// The walk may go on from `processed` through `ext`: `ext` repeats no id
/// and names none that the walk has met.
pub open spec fn fresh_ids(processed: Seq<Seq<char>>, ext: Seq<Seq<char>>) -> bool {
    &&& ext.no_duplicates()
    &&& forall|i: int| 0 <= i < ext.len() ==> !processed.contains(#[trigger] ext[i])
}

/// `ext[j]` is the first id of `ext` that was met before, among `processed`
/// and the ids of `ext` ahead of it.
pub open spec fn first_repeat(processed: Seq<Seq<char>>, ext: Seq<Seq<char>>, j: int) -> bool {
    &&& 0 <= j < ext.len()
    &&& (processed + ext.take(j)).contains(ext[j])
    &&& forall|i: int| 0 <= i < j ==> !(#[trigger] (processed + ext.take(i))).contains(ext[i])
}

/// The state of a resolution, as values.
pub struct ResolutionView {
    pub permissions: PermissionsView,
    pub pending: Seq<Seq<char>>,
    pub processed: Seq<Seq<char>>,
}

/// One resolution of a role's inherited permissions, taken a fetched role at
/// a time: the permissions gathered so far, the role ids still to fetch (the
/// last one next), and every id met so far.
pub struct Resolution {
    permissions: RolePermissions,
    pending: Vec<String>,
    processed: Vec<String>,
}

impl View for Resolution {
    type V = ResolutionView;

    closed spec fn view(&self) -> ResolutionView {
        ResolutionView {
            permissions: self.permissions@,
            pending: labels_of(self.pending@),
            processed: labels_of(self.processed@),
        }
    }
}

impl Resolution {
    /// Starts the resolution of role `id`, whose own grants are `permissions`
    /// and which extends `extends`: those roles are queued, and `id` and
    /// they are met. Fails where `extends` names `id` or repeats an id.
    pub fn new(id: &String, permissions: &RolePermissions, extends: &Vec<String>) -> (r: Result<
        Resolution,
        RoleWrappedError,
    >)
        ensures
            r is Ok <==> fresh_ids(seq![id@], labels_of(extends@)),
            r is Ok ==> r->Ok_0@ == (ResolutionView {
                permissions: permissions@,
                pending: labels_of(extends@),
                processed: seq![id@] + labels_of(extends@),
            }),
            r is Err ==> exists|j: int|
                first_repeat(seq![id@], labels_of(extends@), j) && r->Err_0 is Recursion
                    && r->Err_0->Recursion_0@ == labels_of(extends@)[j],
    {
        let mut processed: Vec<String> = Vec::new();
        processed.push(id.clone());
        let start = Resolution { permissions: permissions.copied(), pending: Vec::new(), processed };
        assert(start@.processed =~= seq![id@]);
        assert(start@.pending =~= Seq::<Seq<char>>::empty());
        let r = start.queue(extends);
        assert(Seq::<Seq<char>>::empty() + labels_of(extends@) =~= labels_of(extends@));
        r
    }

    /// The id of the role to fetch next, or `None` once the walk is done.
    pub fn next_role_id(&self) -> (r: Option<String>)
        ensures
            r is None <==> self@.pending.len() == 0,
            r is Some ==> r->0@ == self@.pending.last(),
    {
        if self.pending.len() == 0 {
            None
        } else {
            Some(self.pending[self.pending.len() - 1].clone())
        }
    }

    /// Queues the ids of `extends` in order, each marked as met. Fails with
    /// the first one that was met before.
    fn queue(self, extends: &Vec<String>) -> (r: Result<Resolution, RoleWrappedError>)
        ensures
            r is Ok <==> fresh_ids(self@.processed, labels_of(extends@)),
            r is Ok ==> r->Ok_0@ == (ResolutionView {
                permissions: self@.permissions,
                pending: self@.pending + labels_of(extends@),
                processed: self@.processed + labels_of(extends@),
            }),
            r is Err ==> exists|j: int|
                first_repeat(self@.processed, labels_of(extends@), j) && r->Err_0 is Recursion
                    && r->Err_0->Recursion_0@ == labels_of(extends@)[j],
    {
        let ghost start = self@;
        let ghost ext = labels_of(extends@);
        let mut this = self;
        let mut i: usize = 0;
        while i < extends.len()
            invariant
                0 <= i <= extends.len(),
                start == self@,
                ext == labels_of(extends@),
                this.permissions@ == start.permissions,
                labels_of(this.pending@) == start.pending + ext.take(i as int),
                labels_of(this.processed@) == start.processed + ext.take(i as int),
                forall|i2: int|
                    0 <= i2 < i ==> !(#[trigger] (start.processed + ext.take(i2))).contains(
                        ext[i2],
                    ),
            decreases extends.len() - i,
        {
            assert(ext[i as int] == extends@[i as int]@);
            if contains_label(&this.processed, &extends[i]) {
                proof {
                    lemma_not_fresh(start.processed, ext, i as int);
                    assert(first_repeat(start.processed, ext, i as int));
                }
                let e = extends[i].clone();
                assert(e@ == ext[i as int]);
                let r = Err(RoleWrappedError::Recursion(e));
                assert(r->Err_0->Recursion_0@ == ext[i as int]);
                return r;
            }
            let ghost before_pending = this.pending@;
            let ghost before_processed = this.processed@;
            this.pending.push(extends[i].clone());
            this.processed.push(extends[i].clone());
            assert(labels_of(this.pending@) =~= labels_of(before_pending).push(ext[i as int]));
            assert(labels_of(this.processed@) =~= labels_of(before_processed).push(ext[i as int]));
            assert(ext.take(i as int + 1) =~= ext.take(i as int).push(ext[i as int]));
            assert(labels_of(this.pending@) =~= start.pending + ext.take(i as int + 1));
            assert(labels_of(this.processed@) =~= start.processed + ext.take(i as int + 1));
            i += 1;
        }
        assert(ext.take(ext.len() as int) =~= ext);
        proof {
            lemma_fresh(start.processed, ext);
        }
        Ok(this)
    }

    /// Takes in `role`, fetched for the id that [`Self::next_role_id`] gave:
    /// merges its grants, and queues the roles it extends. Fails with the
    /// first of those that the walk has already met: that is a cycle.
    pub fn absorb(self, role: &Role) -> (r: Result<Resolution, RoleWrappedError>)
        requires
            self@.pending.len() > 0,
        ensures
            r is Ok <==> fresh_ids(self@.processed, role@.extends),
            r is Ok ==> r->Ok_0@ == (ResolutionView {
                permissions: self@.permissions.merge(role@.permissions),
                pending: self@.pending.drop_last() + role@.extends,
                processed: self@.processed + role@.extends,
            }),
            r is Err ==> exists|j: int|
                first_repeat(self@.processed, role@.extends, j) && r->Err_0 is Recursion
                    && r->Err_0->Recursion_0@ == role@.extends[j],
    {
        let ghost start = self@;
        let mut this = self;
        let _ = this.pending.pop();
        assert(labels_of(this.pending@) =~= start.pending.drop_last());
        this.permissions.add(&role.permissions);
        this.queue(&role.extends)
    }

    /// The permissions gathered, once the walk is done.
    pub fn into_permissions(self) -> (r: RolePermissions)
        ensures
            r@ == self@.permissions,
    {
        self.permissions
    }
}

/// An id that was met before makes the extension list not fresh.
proof fn lemma_not_fresh(processed: Seq<Seq<char>>, ext: Seq<Seq<char>>, j: int)
    requires
        0 <= j < ext.len(),
        (processed + ext.take(j)).contains(ext[j]),
    ensures
        !fresh_ids(processed, ext),
{
    let k = choose|k: int| 0 <= k < (processed + ext.take(j)).len() && (processed + ext.take(j))[k]
        == ext[j];
    if k < processed.len() {
        assert(processed.contains(ext[j]));
    } else {
        assert(ext[k - processed.len()] == ext[j]);
    }
}

/// An extension list of which no id was met before its place is fresh.
proof fn lemma_fresh(processed: Seq<Seq<char>>, ext: Seq<Seq<char>>)
    requires
        forall|i: int| 0 <= i < ext.len() ==> !(#[trigger] (processed + ext.take(i))).contains(ext[i]),
    ensures
        fresh_ids(processed, ext),
{
    assert forall|i: int| 0 <= i < ext.len() implies !processed.contains(#[trigger] ext[i]) by {
        if processed.contains(ext[i]) {
            let k = choose|k: int| 0 <= k < processed.len() && processed[k] == ext[i];
            assert((processed + ext.take(i))[k] == ext[i]);
        }
    }
    assert forall|a: int, b: int| 0 <= a < ext.len() && 0 <= b < ext.len() && a != b implies ext[a]
        != ext[b] by {
        if ext[a] == ext[b] {
            let (lo, hi) = if a < b { (a, b) } else { (b, a) };
            assert((processed + ext.take(hi))[processed.len() + lo] == ext[hi]);
        }
    }
}

} // verus!
