use vstd::prelude::*;

verus! {

/// The mathematical form of a list of labels: each label as its characters.
pub open spec fn labels_of(v: Seq<String>) -> Seq<Seq<char>> {
    v.map_values(|s: String| s@)
}

/// Appends to `a`, in order, each label of `b` that is not already present.
/// This is the per-field set union of the merge: nothing in `a` moves or
/// disappears, and no label is added twice.
pub open spec fn append_unique(a: Seq<Seq<char>>, b: Seq<Seq<char>>) -> Seq<Seq<char>>
    decreases b.len(),
{
    if b.len() == 0 {
        a
    } else {
        let prev = append_unique(a, b.drop_last());
        if prev.contains(b.last()) {
            prev
        } else {
            prev.push(b.last())
        }
    }
}

/// A permission set as values: eight label-gated capability lists, the
/// live-view list, and the one flag that no label gates.
pub struct PermissionsView {
    pub change_roles: Seq<Seq<char>>,
    pub view_blocks: Seq<Seq<char>>,
    pub connect_blocks: Seq<Seq<char>>,
    pub disconnect_blocks: Seq<Seq<char>>,
    pub pin_block: Seq<Seq<char>>,
    pub change_default_role: Seq<Seq<char>>,
    pub change_description: Seq<Seq<char>>,
    pub pin_roles: Seq<Seq<char>>,
    pub set_labels: bool,
    pub live: Seq<Seq<char>>,
}

impl PermissionsView {
    /// The permission set that grants nothing.
    pub open spec fn none() -> PermissionsView {
        PermissionsView {
            change_roles: Seq::empty(),
            view_blocks: Seq::empty(),
            connect_blocks: Seq::empty(),
            disconnect_blocks: Seq::empty(),
            pin_block: Seq::empty(),
            change_default_role: Seq::empty(),
            change_description: Seq::empty(),
            pin_roles: Seq::empty(),
            set_labels: false,
            live: Seq::empty(),
        }
    }

    /// The merge of `other` into `self`: a union on each list, an OR on the flag.
    pub open spec fn merge(self, other: PermissionsView) -> PermissionsView {
        PermissionsView {
            change_roles: append_unique(self.change_roles, other.change_roles),
            view_blocks: append_unique(self.view_blocks, other.view_blocks),
            connect_blocks: append_unique(self.connect_blocks, other.connect_blocks),
            disconnect_blocks: append_unique(self.disconnect_blocks, other.disconnect_blocks),
            pin_block: append_unique(self.pin_block, other.pin_block),
            change_default_role: append_unique(self.change_default_role, other.change_default_role),
            change_description: append_unique(self.change_description, other.change_description),
            pin_roles: append_unique(self.pin_roles, other.pin_roles),
            set_labels: self.set_labels || other.set_labels,
            live: append_unique(self.live, other.live),
        }
    }

    /// The label-gated lists, numbered from 0 to 8 in the order of the fields.
    pub open spec fn list(self, k: int) -> Seq<Seq<char>> {
        if k == 0 {
            self.change_roles
        } else if k == 1 {
            self.view_blocks
        } else if k == 2 {
            self.connect_blocks
        } else if k == 3 {
            self.disconnect_blocks
        } else if k == 4 {
            self.pin_block
        } else if k == 5 {
            self.change_default_role
        } else if k == 6 {
            self.change_description
        } else if k == 7 {
            self.pin_roles
        } else {
            self.live
        }
    }

    /// Every grant of `other` is also a grant of `self`.
    pub open spec fn covers(self, other: PermissionsView) -> bool {
        &&& forall|k: int|
            0 <= k < 9 ==> #[trigger] other.list(k).to_set().subset_of(self.list(k).to_set())
        &&& (other.set_labels ==> self.set_labels)
    }

    /// The two grant the same labels in every list and the same flag,
    /// whatever the order of the labels.
    pub open spec fn same_grants(self, other: PermissionsView) -> bool {
        self.covers(other) && other.covers(self)
    }
}

/// The capabilities that a role grants. Each list names the channel labels
/// under which the capability holds; `set_labels` holds on every channel.
pub struct RolePermissions {
    pub change_roles: Vec<String>,
    pub view_blocks: Vec<String>,
    pub connect_blocks: Vec<String>,
    pub disconnect_blocks: Vec<String>,
    pub pin_block: Vec<String>,
    pub change_default_role: Vec<String>,
    pub change_description: Vec<String>,
    pub pin_roles: Vec<String>,
    pub set_labels: bool,
    pub live: Vec<String>,
}

impl View for RolePermissions {
    type V = PermissionsView;

    open spec fn view(&self) -> PermissionsView {
        PermissionsView {
            change_roles: labels_of(self.change_roles@),
            view_blocks: labels_of(self.view_blocks@),
            connect_blocks: labels_of(self.connect_blocks@),
            disconnect_blocks: labels_of(self.disconnect_blocks@),
            pin_block: labels_of(self.pin_block@),
            change_default_role: labels_of(self.change_default_role@),
            change_description: labels_of(self.change_description@),
            pin_roles: labels_of(self.pin_roles@),
            set_labels: self.set_labels,
            live: labels_of(self.live@),
        }
    }
}

/// Whether `label` occurs in `labels`.
pub fn contains_label(labels: &Vec<String>, label: &String) -> (r: bool)
    ensures
        r == labels_of(labels@).contains(label@),
{
    let mut i: usize = 0;
    while i < labels.len()
        invariant
            0 <= i <= labels.len(),
            forall|j: int| 0 <= j < i ==> labels@[j]@ != label@,
        decreases labels.len() - i,
    {
        if labels[i] == *label {
            assert(labels_of(labels@)[i as int] == label@);
            return true;
        }
        i += 1;
    }
    assert forall|j: int| 0 <= j < labels_of(labels@).len() implies labels_of(labels@)[j]
        != label@ by {}
    false
}

/// A copy of a list of labels.
pub fn copy_labels(labels: &Vec<String>) -> (r: Vec<String>)
    ensures
        labels_of(r@) == labels_of(labels@),
{
    let mut r: Vec<String> = Vec::new();
    let mut i: usize = 0;
    while i < labels.len()
        invariant
            0 <= i <= labels.len(),
            labels_of(r@) == labels_of(labels@.take(i as int)),
        decreases labels.len() - i,
    {
        r.push(labels[i].clone());
        assert(labels_of(labels@.take(i as int + 1)) =~= labels_of(labels@.take(i as int)).push(
            labels@[i as int]@,
        ));
        assert(labels_of(r@) =~= labels_of(labels@.take(i as int)).push(labels@[i as int]@));
        i += 1;
    }
    assert(labels@.take(labels.len() as int) =~= labels@);
    r
}

/// Appends to `vec1` each label of `vec2` that it does not hold yet, in the
/// order of `vec2`.
pub fn append_vec_unique(vec1: &mut Vec<String>, vec2: &Vec<String>)
    ensures
        labels_of(final(vec1)@) == append_unique(labels_of(old(vec1)@), labels_of(vec2@)),
{
    let ghost start = labels_of(vec1@);
    let mut i: usize = 0;
    while i < vec2.len()
        invariant
            0 <= i <= vec2.len(),
            labels_of(vec1@) == append_unique(start, labels_of(vec2@).take(i as int)),
        decreases vec2.len() - i,
    {
        let ghost prefix = labels_of(vec2@).take(i as int + 1);
        assert(prefix.drop_last() =~= labels_of(vec2@).take(i as int));
        assert(prefix.last() == vec2@[i as int]@);
        if !contains_label(vec1, &vec2[i]) {
            vec1.push(vec2[i].clone());
            assert(labels_of(vec1@) =~= append_unique(start, labels_of(vec2@).take(i as int)).push(
                vec2@[i as int]@,
            ));
        }
        i += 1;
    }
    assert(labels_of(vec2@).take(vec2.len() as int) =~= labels_of(vec2@));
}

impl RolePermissions {
    /// A permission set that grants nothing.
    pub fn empty() -> (r: RolePermissions)
        ensures
            r@ == PermissionsView::none(),
    {
        let r = RolePermissions {
            change_roles: Vec::new(),
            view_blocks: Vec::new(),
            connect_blocks: Vec::new(),
            disconnect_blocks: Vec::new(),
            pin_block: Vec::new(),
            change_default_role: Vec::new(),
            change_description: Vec::new(),
            pin_roles: Vec::new(),
            set_labels: false,
            live: Vec::new(),
        };
        assert(labels_of(Seq::<String>::empty()) =~= Seq::<Seq<char>>::empty());
        r
    }

    /// A copy of this permission set.
    pub fn copied(&self) -> (r: RolePermissions)
        ensures
            r@ == self@,
    {
        RolePermissions {
            change_roles: copy_labels(&self.change_roles),
            view_blocks: copy_labels(&self.view_blocks),
            connect_blocks: copy_labels(&self.connect_blocks),
            disconnect_blocks: copy_labels(&self.disconnect_blocks),
            pin_block: copy_labels(&self.pin_block),
            change_default_role: copy_labels(&self.change_default_role),
            change_description: copy_labels(&self.change_description),
            pin_roles: copy_labels(&self.pin_roles),
            set_labels: self.set_labels,
            live: copy_labels(&self.live),
        }
    }

    /// Merges `external` into this set: each list gains the labels it lacked,
    /// and the flag becomes the OR of both.
    pub fn add(&mut self, external: &RolePermissions)
        ensures
            final(self)@ == old(self)@.merge(external@),
    {
        append_vec_unique(&mut self.change_roles, &external.change_roles);
        append_vec_unique(&mut self.view_blocks, &external.view_blocks);
        append_vec_unique(&mut self.connect_blocks, &external.connect_blocks);
        append_vec_unique(&mut self.disconnect_blocks, &external.disconnect_blocks);
        append_vec_unique(&mut self.pin_block, &external.pin_block);
        append_vec_unique(&mut self.change_default_role, &external.change_default_role);
        append_vec_unique(&mut self.change_description, &external.change_description);
        append_vec_unique(&mut self.pin_roles, &external.pin_roles);
        append_vec_unique(&mut self.live, &external.live);
        self.set_labels = self.set_labels || external.set_labels;
    }
}

impl Default for RolePermissions {
    fn default() -> (r: RolePermissions)
        ensures
            r@ == PermissionsView::none(),
    {
        RolePermissions::empty()
    }
}

/// The labels after a union are those of both lists.
pub proof fn lemma_append_unique_to_set(a: Seq<Seq<char>>, b: Seq<Seq<char>>)
    ensures
        append_unique(a, b).to_set() == a.to_set() + b.to_set(),
    decreases b.len(),
{
    if b.len() == 0 {
        assert(b.to_set() =~= Set::empty());
        assert(a.to_set() + b.to_set() =~= a.to_set());
    } else {
        let prev = append_unique(a, b.drop_last());
        lemma_append_unique_to_set(a, b.drop_last());
        assert(b =~= b.drop_last().push(b.last()));
        b.drop_last().lemma_push_to_set_commute(b.last());
        if prev.contains(b.last()) {
            assert(prev.to_set().contains(b.last()));
            assert(append_unique(a, b).to_set() =~= a.to_set() + b.to_set());
        } else {
            prev.lemma_push_to_set_commute(b.last());
            assert(append_unique(a, b).to_set() =~= a.to_set() + b.to_set());
        }
    }
}

/// A union with labels that are all present already changes nothing.
pub proof fn lemma_append_unique_absorbed(a: Seq<Seq<char>>, b: Seq<Seq<char>>)
    requires
        forall|i: int| 0 <= i < b.len() ==> a.contains(#[trigger] b[i]),
    ensures
        append_unique(a, b) == a,
    decreases b.len(),
{
    if b.len() > 0 {
        lemma_append_unique_absorbed(a, b.drop_last());
        assert(a.contains(b[b.len() - 1]));
    }
}

/// Each list of a merge is the union of the two lists.
pub proof fn lemma_merge_list(p: PermissionsView, q: PermissionsView, k: int)
    ensures
        p.merge(q).list(k) == append_unique(p.list(k), q.list(k)),
{
}

/// Merging a permission set with itself leaves it as it was.
pub proof fn lemma_merge_idempotent(p: PermissionsView)
    ensures
        p.merge(p) == p,
{
    lemma_append_unique_absorbed(p.change_roles, p.change_roles);
    lemma_append_unique_absorbed(p.view_blocks, p.view_blocks);
    lemma_append_unique_absorbed(p.connect_blocks, p.connect_blocks);
    lemma_append_unique_absorbed(p.disconnect_blocks, p.disconnect_blocks);
    lemma_append_unique_absorbed(p.pin_block, p.pin_block);
    lemma_append_unique_absorbed(p.change_default_role, p.change_default_role);
    lemma_append_unique_absorbed(p.change_description, p.change_description);
    lemma_append_unique_absorbed(p.pin_roles, p.pin_roles);
    lemma_append_unique_absorbed(p.live, p.live);
}

/// A merge grants exactly what either side granted: each list holds the
/// union of the two lists, and the flag is the OR of the two flags.
pub proof fn lemma_merge_union(p: PermissionsView, q: PermissionsView)
    ensures
        forall|k: int|
            #[trigger] p.merge(q).list(k).to_set() == p.list(k).to_set() + q.list(k).to_set(),
        p.merge(q).set_labels == (p.set_labels || q.set_labels),
        p.merge(q).covers(p),
        p.merge(q).covers(q),
{
    assert forall|k: int|
        #[trigger] p.merge(q).list(k).to_set() == p.list(k).to_set() + q.list(k).to_set() by {
        lemma_merge_list(p, q, k);
        lemma_append_unique_to_set(p.list(k), q.list(k));
    }
}

/// The order of a merge does not change what it grants.
pub proof fn lemma_merge_commutes(p: PermissionsView, q: PermissionsView)
    ensures
        p.merge(q).same_grants(q.merge(p)),
{
    lemma_merge_union(p, q);
    lemma_merge_union(q, p);
    assert forall|k: int| 0 <= k < 9 implies #[trigger] p.merge(q).list(k).to_set().subset_of(
        q.merge(p).list(k).to_set(),
    ) by {
        assert(p.merge(q).list(k).to_set() =~= q.merge(p).list(k).to_set());
    }
    assert forall|k: int| 0 <= k < 9 implies #[trigger] q.merge(p).list(k).to_set().subset_of(
        p.merge(q).list(k).to_set(),
    ) by {
        assert(p.merge(q).list(k).to_set() =~= q.merge(p).list(k).to_set());
    }
}

/// A merge into a set that covers `c` still covers it.
pub proof fn lemma_merge_keeps_cover(p: PermissionsView, q: PermissionsView, c: PermissionsView)
    requires
        p.covers(c),
    ensures
        p.merge(q).covers(c),
{
    lemma_merge_union(p, q);
    assert forall|k: int| 0 <= k < 9 implies #[trigger] c.list(k).to_set().subset_of(
        p.merge(q).list(k).to_set(),
    ) by {
        assert(c.list(k).to_set().subset_of(p.list(k).to_set()));
    }
}

} // verus!
