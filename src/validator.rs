use vstd::prelude::*;
use crate::permissions::{contains_label, labels_of, RolePermissions, PermissionsView};

verus! {

/// Some label of `a` is also a label of `b`.
pub open spec fn intersects(a: Seq<Seq<char>>, b: Seq<Seq<char>>) -> bool {
    exists|i: int| 0 <= i < a.len() && b.contains(#[trigger] a[i])
}

/// Whether the two lists share a label.
pub fn catch_vec_intersection(vec1: &Vec<String>, vec2: &Vec<String>) -> (r: bool)
    ensures
        r == intersects(labels_of(vec1@), labels_of(vec2@)),
{
    let mut i: usize = 0;
    while i < vec1.len()
        invariant
            0 <= i <= vec1.len(),
            forall|j: int| 0 <= j < i ==> !labels_of(vec2@).contains(#[trigger] labels_of(vec1@)[j]),
        decreases vec1.len() - i,
    {
        if contains_label(vec2, &vec1[i]) {
            assert(labels_of(vec1@)[i as int] == vec1@[i as int]@);
            return true;
        }
        i += 1;
    }
    false
}

/// Answers capability questions for one role on one channel: a label-gated
/// capability holds when the channel's labels meet the capability's list.
pub struct RolePermissionValidator<'a> {
    labels: &'a Vec<String>,
    permissions: &'a RolePermissions,
}

impl<'a> RolePermissionValidator<'a> {
    /// The permissions that the questions are asked of.
    pub closed spec fn permissions(&self) -> PermissionsView {
        self.permissions@
    }

    /// The channel labels that gate the capabilities.
    pub closed spec fn labels(&self) -> Seq<Seq<char>> {
        labels_of(self.labels@)
    }

    pub fn new(permissions: &'a RolePermissions, labels: &'a Vec<String>) -> (r: Self)
        ensures
            r.permissions() == permissions@,
            r.labels() == labels_of(labels@),
    {
        RolePermissionValidator { labels, permissions }
    }

    pub fn can_connect_blocks(&self) -> (r: bool)
        ensures
            r == intersects(self.labels(), self.permissions().connect_blocks),
    {
        catch_vec_intersection(self.labels, &self.permissions.connect_blocks)
    }

    pub fn can_disconnect_blocks(&self) -> (r: bool)
        ensures
            r == intersects(self.labels(), self.permissions().disconnect_blocks),
    {
        catch_vec_intersection(self.labels, &self.permissions.disconnect_blocks)
    }

    pub fn can_pin_block(&self) -> (r: bool)
        ensures
            r == intersects(self.labels(), self.permissions().pin_block),
    {
        catch_vec_intersection(self.labels, &self.permissions.pin_block)
    }

    pub fn can_change_description(&self) -> (r: bool)
        ensures
            r == intersects(self.labels(), self.permissions().change_description),
    {
        catch_vec_intersection(self.labels, &self.permissions.change_description)
    }

    pub fn can_change_default_role(&self) -> (r: bool)
        ensures
            r == intersects(self.labels(), self.permissions().change_default_role),
    {
        catch_vec_intersection(self.labels, &self.permissions.change_default_role)
    }

    pub fn can_view_blocks(&self) -> (r: bool)
        ensures
            r == intersects(self.labels(), self.permissions().view_blocks),
    {
        catch_vec_intersection(self.labels, &self.permissions.view_blocks)
    }

    pub fn can_pin_roles(&self) -> (r: bool)
        ensures
            r == intersects(self.labels(), self.permissions().pin_roles),
    {
        catch_vec_intersection(self.labels, &self.permissions.pin_roles)
    }

    pub fn can_live(&self) -> (r: bool)
        ensures
            r == intersects(self.labels(), self.permissions().live),
    {
        catch_vec_intersection(self.labels, &self.permissions.live)
    }

    /// Not gated by the channel's labels: the flag alone decides.
    pub fn can_set_labels(&self) -> (r: bool)
        ensures
            r == self.permissions().set_labels,
    {
        self.permissions.set_labels
    }
}

} // verus!
