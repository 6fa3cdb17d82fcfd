use vstd::prelude::*;
use crate::errors::{DbError, Error, RoleWrappedError};
use crate::permissions::{lemma_merge_union, PermissionsView};
use crate::roles::{
    tree_from, tree_shaped, first_repeat, closed_from, covers_ancestors, cycle_through, drawn_from_ancestors, extends_edge, find_role,
    fresh_ids, is_path, reachable, role_ids, Resolution, Role, RoleView,
};
use crate::lookup::{first_index, lemma_first_index, lemma_first_index_at};
use crate::store::{Channel, ChannelView, Store};

verus! {

/// Every id that some role of `roles` extends.
pub open spec fn all_extends(roles: Seq<RoleView>) -> Set<Seq<char>>
    decreases roles.len(),
{
    if roles.len() == 0 {
        Set::empty()
    } else {
        all_extends(roles.drop_last()) + roles.last().extends.to_set()
    }
}

proof fn lemma_all_extends(roles: Seq<RoleView>)
    ensures
        all_extends(roles).finite(),
        forall|i: int| 0 <= i < roles.len() ==> (#[trigger] roles[i]).extends.to_set().subset_of(
            all_extends(roles),
        ),
    decreases roles.len(),
{
    if roles.len() > 0 {
        lemma_all_extends(roles.drop_last());
        vstd::seq_lib::seq_to_set_is_finite(roles.last().extends);
        assert forall|i: int| 0 <= i < roles.len() implies (#[trigger] roles[i]).extends.to_set().subset_of(
            all_extends(roles),
        ) by {
            if i < roles.len() - 1 {
                assert(roles[i] == roles.drop_last()[i]);
            }
        }
    }
}

/// Taking fresh ids of `u` into `processed` shrinks what is left of `u` by
/// their number.
proof fn lemma_left_shrinks(u: Set<Seq<char>>, processed: Seq<Seq<char>>, ext: Seq<Seq<char>>)
    requires
        u.finite(),
        fresh_ids(processed, ext),
        ext.to_set().subset_of(u),
    ensures
        (u - (processed + ext).to_set()).len() + ext.len() == (u - processed.to_set()).len(),
    decreases ext.len(),
{
    if ext.len() > 0 {
        let init = ext.drop_last();
        let x = ext.last();
        assert(init.to_set().subset_of(u)) by {
            assert forall|y| init.to_set().contains(y) implies u.contains(y) by {
                let k = choose|k: int| 0 <= k < init.len() && init[k] == y;
                assert(ext[k] == y);
            }
        }
        assert(fresh_ids(processed, init)) by {
            assert forall|i: int| 0 <= i < init.len() implies !processed.contains(#[trigger] init[i]) by {
                assert(init[i] == ext[i]);
            }
        }
        lemma_left_shrinks(u, processed, init);
        assert(processed + ext =~= (processed + init).push(x));
        (processed + init).lemma_push_to_set_commute(x);
        assert(!(processed + init).contains(x)) by {
            if (processed + init).contains(x) {
                let k = choose|k: int| 0 <= k < (processed + init).len() && (processed + init)[k] == x;
                if k < processed.len() {
                    assert(processed.contains(ext[ext.len() - 1]));
                } else {
                    assert(ext[k - processed.len()] == ext[ext.len() - 1]);
                }
            }
        }
        assert(u.contains(x));
        assert(u - (processed + ext).to_set() =~= (u - (processed + init).to_set()).remove(x));
    }
}

proof fn lemma_reach_self(roles: Seq<RoleView>, a: Seq<char>)
    ensures
        reachable(roles, a, a),
{
    let path = seq![a];
    assert(is_path(roles, path) && path[0] == a && path.last() == a);
}

proof fn lemma_reach_step(roles: Seq<RoleView>, a: Seq<char>, x: Seq<char>, y: Seq<char>)
    requires
        reachable(roles, a, x),
        extends_edge(roles, x, y),
    ensures
        reachable(roles, a, y),
{
    let path = choose|path: Seq<Seq<char>>| is_path(roles, path) && path[0] == a && path.last() == x;
    let p2 = path.push(y);
    assert forall|i: int| 0 <= i < p2.len() - 1 implies extends_edge(roles, p2[i], #[trigger] p2[i + 1]) by {
        if i < path.len() - 1 {
            assert(p2[i] == path[i] && p2[i + 1] == path[i + 1]);
        }
    }
    assert(is_path(roles, p2) && p2[0] == a && p2.last() == y);
}

/// Once no id is pending, every role on a path from `a` is `a` or fetched.
proof fn lemma_path_fetched(
    roles: Seq<RoleView>,
    a: Seq<char>,
    fetched: Seq<Seq<char>>,
    path: Seq<Seq<char>>,
    i: int,
)
    requires
        find_role(roles, a) is Some,
        forall|c: Seq<char>| #[trigger] find_role(roles, a)->0.extends.contains(c) ==> fetched.contains(c),
        forall|f: Seq<char>, c: Seq<char>|
            fetched.contains(f) && #[trigger] find_role(roles, f)->0.extends.contains(c)
                ==> fetched.contains(c),
        is_path(roles, path),
        path[0] == a,
        0 <= i < path.len(),
    ensures
        path[i] == a || fetched.contains(path[i]),
    decreases i,
{
    if i > 0 {
        lemma_path_fetched(roles, a, fetched, path, i - 1);
        let j = i - 1;
        assert(extends_edge(roles, path[j], path[j + 1]));
    }
}

/// Once no id is pending, every role reachable from `a` is `a` or fetched.
proof fn lemma_walk_closed(roles: Seq<RoleView>, a: Seq<char>, fetched: Seq<Seq<char>>, y: Seq<char>)
    requires
        find_role(roles, a) is Some,
        forall|c: Seq<char>| #[trigger] find_role(roles, a)->0.extends.contains(c) ==> fetched.contains(c),
        forall|f: Seq<char>, c: Seq<char>|
            fetched.contains(f) && #[trigger] find_role(roles, f)->0.extends.contains(c)
                ==> fetched.contains(c),
        reachable(roles, a, y),
    ensures
        y == a || fetched.contains(y),
{
    let path = choose|path: Seq<Seq<char>>| is_path(roles, path) && path[0] == a && path.last() == y;
    lemma_path_fetched(roles, a, fetched, path, path.len() - 1);
}

/// On a tree, the roles that the next role extends are all new to the walk.
proof fn lemma_tree_fresh(
    sv: Seq<RoleView>,
    a: Seq<char>,
    fetched: Seq<Seq<char>>,
    processed: Seq<Seq<char>>,
    pending: Seq<Seq<char>>,
    y: Seq<char>,
)
    requires
        tree_shaped(sv, a),
        find_role(sv, a) is Some,
        find_role(sv, y) is Some,
        pending.len() > 0,
        y == pending.last(),
        reachable(sv, a, y),
        forall|f: Seq<char>|
            #[trigger] fetched.contains(f) ==> reachable(sv, a, f) && find_role(sv, f) is Some,
        forall|c: Seq<char>|
            #[trigger] processed.contains(c) ==> c == a || find_role(sv, a)->0.extends.contains(c)
                || exists|f: Seq<char>|
                fetched.contains(f) && #[trigger] find_role(sv, f)->0.extends.contains(c),
        forall|c: Seq<char>| #[trigger] pending.contains(c) ==> !fetched.contains(c) && c != a,
    ensures
        fresh_ids(processed, find_role(sv, y)->0.extends),
{
    let ext = find_role(sv, y)->0.extends;
    assert(pending.contains(y)) by {
        assert(pending[pending.len() - 1] == y);
    }
    lemma_reach_self(sv, a);
    assert forall|i: int| 0 <= i < ext.len() implies !processed.contains(#[trigger] ext[i]) by {
        let c = ext[i];
        assert(ext.contains(c));
        if processed.contains(c) {
            if c == a {
            } else if find_role(sv, a)->0.extends.contains(c) {
                assert(!find_role(sv, y)->0.extends.contains(c));
            } else {
                let f = choose|f: Seq<char>|
                    fetched.contains(f) && #[trigger] find_role(sv, f)->0.extends.contains(c);
                assert(f != y);
                assert(reachable(sv, a, f));
                assert(!find_role(sv, y)->0.extends.contains(c));
            }
        }
    }
}

/// The bookkeeping facts of the walk carry over one step.
proof fn lemma_step_bookkeeping(
    sv: Seq<RoleView>,
    a: Seq<char>,
    ra: RoleView,
    fetched: Seq<Seq<char>>,
    pending: Seq<Seq<char>>,
    processed: Seq<Seq<char>>,
    y: Seq<char>,
    ext: Seq<Seq<char>>,
)
    requires
        pending.len() > 0,
        y == pending.last(),
        find_role(sv, y) is Some,
        ext == find_role(sv, y)->0.extends,
        fresh_ids(processed, ext),
        forall|c: Seq<char>| #[trigger] pending.contains(c) ==> processed.contains(c),
        forall|f: Seq<char>| #[trigger] fetched.contains(f) ==> processed.contains(f),
        forall|c: Seq<char>|
            #[trigger] processed.contains(c) ==> c == a || ra.extends.contains(c) || exists|
                f: Seq<char>,
            | fetched.contains(f) && #[trigger] find_role(sv, f)->0.extends.contains(c),
        tree_shaped(sv, a) ==> pending.no_duplicates(),
        tree_shaped(sv, a) ==> forall|c: Seq<char>|
            #[trigger] pending.contains(c) ==> !fetched.contains(c) && c != a,
        tree_shaped(sv, a) ==> reachable(sv, a, y),
    ensures
        ({
            let pending2 = pending.drop_last() + ext;
            let processed2 = processed + ext;
            let fetched2 = fetched.push(y);
            &&& forall|c: Seq<char>| #[trigger] pending2.contains(c) ==> processed2.contains(c)
            &&& forall|f: Seq<char>| #[trigger] fetched2.contains(f) ==> processed2.contains(f)
            &&& forall|c: Seq<char>|
                #[trigger] processed2.contains(c) ==> c == a || ra.extends.contains(c) || exists|
                    f: Seq<char>,
                | fetched2.contains(f) && #[trigger] find_role(sv, f)->0.extends.contains(c)
            &&& tree_shaped(sv, a) ==> pending2.no_duplicates()
            &&& tree_shaped(sv, a) ==> forall|c: Seq<char>|
                #[trigger] pending2.contains(c) ==> !fetched2.contains(c) && c != a
        }),
{
    let pending2 = pending.drop_last() + ext;
    let processed2 = processed + ext;
    let fetched2 = fetched.push(y);
    assert(pending.contains(y)) by {
        assert(pending[pending.len() - 1] == y);
    }
    assert forall|c: Seq<char>| processed.contains(c) implies #[trigger] processed2.contains(c) by {
        let k = choose|k: int| 0 <= k < processed.len() && processed[k] == c;
        assert(processed2[k] == c);
    }
    assert forall|c: Seq<char>| ext.contains(c) implies #[trigger] processed2.contains(c) by {
        let k = choose|k: int| 0 <= k < ext.len() && ext[k] == c;
        assert(processed2[processed.len() + k] == c);
    }
    assert forall|c: Seq<char>| #[trigger] pending2.contains(c) implies (pending.drop_last().contains(c)
        && pending.contains(c)) || ext.contains(c) by {
        let k = choose|k: int| 0 <= k < pending2.len() && pending2[k] == c;
        if k < pending.len() - 1 {
            assert(pending.drop_last()[k] == c);
            assert(pending[k] == c);
        } else {
            assert(ext[k - (pending.len() - 1)] == c);
        }
    }
    assert forall|c: Seq<char>| #[trigger] fetched2.contains(c) implies fetched.contains(c) || c == y by {
        let k = choose|k: int| 0 <= k < fetched2.len() && fetched2[k] == c;
        if k < fetched.len() {
            assert(fetched[k] == c);
        }
    }
    assert forall|c: Seq<char>| #[trigger] processed2.contains(c) implies processed.contains(c) || ext.contains(c) by {
        let k = choose|k: int| 0 <= k < processed2.len() && processed2[k] == c;
        if k < processed.len() {
            assert(processed[k] == c);
        } else {
            assert(ext[k - processed.len()] == c);
        }
    }
    assert forall|c: Seq<char>|
        #[trigger] processed2.contains(c) implies c == a || ra.extends.contains(c) || exists|
            f: Seq<char>,
        | fetched2.contains(f) && #[trigger] find_role(sv, f)->0.extends.contains(c) by {
        if processed.contains(c) {
            if c != a && !ra.extends.contains(c) {
                let f = choose|f: Seq<char>|
                    fetched.contains(f) && #[trigger] find_role(sv, f)->0.extends.contains(c);
                assert(fetched2[fetched.len() as int] == y);
                let k = choose|k: int| 0 <= k < fetched.len() && fetched[k] == f;
                assert(fetched2[k] == f);
            }
        } else {
            assert(ext.contains(c));
            assert(fetched2[fetched.len() as int] == y);
            assert(fetched2.contains(y));
        }
    }
    if tree_shaped(sv, a) {
        assert forall|i: int, j: int| 0 <= i < pending2.len() && 0 <= j < pending2.len() && i != j implies pending2[i]
            != pending2[j] by {
            let n = pending.len() - 1;
            if i < n && j < n {
                assert(pending[i] == pending2[i] && pending[j] == pending2[j]);
            } else if i >= n && j >= n {
                assert(ext[i - n] == pending2[i] && ext[j - n] == pending2[j]);
            } else {
                let (p, q) = if i < n { (i, j) } else { (j, i) };
                assert(pending[p] == pending2[p]);
                assert(pending.contains(pending2[p]));
                assert(processed.contains(pending2[p]));
                assert(ext[q - n] == pending2[q]);
                assert(!processed.contains(ext[q - n]));
            }
        }
        assert forall|c: Seq<char>| #[trigger] pending2.contains(c) implies !fetched2.contains(c) && c != a by {
            if pending.drop_last().contains(c) && pending.contains(c) {
                let k = choose|k: int| 0 <= k < pending.len() - 1 && pending.drop_last()[k] == c;
                assert(pending[k] == c);
                assert(pending[pending.len() - 1] == y);
                assert(c != y);
            } else {
                let k = choose|k: int| 0 <= k < ext.len() && ext[k] == c;
                assert(!processed.contains(ext[k]));
                assert(processed.contains(y));
                assert(!ext.contains(a));
            }
        }
    }
}

/// The view of the role that resolution returns: the stored role, with the
/// inherited permissions in place of its own.
pub open spec fn with_permissions(r: RoleView, p: PermissionsView) -> RoleView {
    RoleView { permissions: p, ..r }
}

/// Resolves role `id` in `store`: its record, with the union of its own
/// permissions and those of every role it inherits from. Fails where a role
/// on the way is missing, or where the walk meets a role id a second time.
pub fn resolve_role(store: &Store, id: &String) -> (r: Result<Role, RoleWrappedError>)
    ensures
        find_role(store@.roles, id@) is None ==> r == Err::<Role, RoleWrappedError>(
            RoleWrappedError::General(Error::Db(DbError::NotFound)),
        ),
        r is Ok ==> find_role(store@.roles, id@) is Some && r->Ok_0@ == with_permissions(
            find_role(store@.roles, id@)->0,
            r->Ok_0@.permissions,
        ),
        r is Ok ==> covers_ancestors(r->Ok_0@.permissions, store@.roles, id@),
        r is Ok ==> drawn_from_ancestors(r->Ok_0@.permissions, store@.roles, id@),
        cycle_through(store@.roles, id@) ==> r is Err,
        cycle_through(store@.roles, id@) && closed_from(store@.roles, id@) ==> r is Err
            && r->Err_0 is Recursion,
        r is Err && r->Err_0 is General ==> r->Err_0 == RoleWrappedError::General(
            Error::Db(DbError::NotFound),
        ) && !closed_from(store@.roles, id@),
        tree_from(store@.roles, id@) ==> r is Ok,
        r is Ok ==> tree_from(store@.roles, id@),
        tree_shaped(store@.roles, id@) ==> !(r is Err && r->Err_0 is Recursion),
        tree_shaped(store@.roles, id@) && !closed_from(store@.roles, id@) ==> r == Err::<
            Role,
            RoleWrappedError,
        >(RoleWrappedError::General(Error::Db(DbError::NotFound))),
        r is Err && r->Err_0 is Recursion ==> exists|y: Seq<char>|
            reachable(store@.roles, id@, y) && #[trigger] extends_edge(
                store@.roles,
                y,
                r->Err_0->Recursion_0@,
            ),
{
    let ghost sv = store@.roles;
    let ghost a = id@;
    proof {
        lemma_reach_self(sv, a);
    }
    let role = match store.get_role(id) {
        Ok(role) => role,
        Err(e) => {
            return Err(RoleWrappedError::General(Error::Db(e)));
        },
    };
    let ghost ra = role@;
    let mut res = match Resolution::new(id, &role.permissions, &role.extends) {
        Ok(res) => res,
        Err(e) => {
            proof {
                let j = choose|j: int|
                    first_repeat(seq![a], ra.extends, j) && e is Recursion && e->Recursion_0@
                        == ra.extends[j];
                assert(ra.extends.contains(ra.extends[j]));
                assert(extends_edge(sv, a, e->Recursion_0@));
                if tree_shaped(sv, a) {
                    assert(seq![a].contains(a)) by {
                        assert(seq![a][0] == a);
                    }
                    assert(!fresh_ids(seq![a], ra.extends));
                    assert forall|i: int| 0 <= i < ra.extends.len() implies !seq![a].contains(
                        #[trigger] ra.extends[i],
                    ) by {
                        assert(ra.extends.contains(ra.extends[i]));
                        if seq![a].contains(ra.extends[i]) {
                            let k = choose|k: int| 0 <= k < 1 && seq![a][k] == ra.extends[i];
                            assert(ra.extends[i] == a);
                        }
                    }
                }
            }
            return Err(e);
        },
    };
    let ghost mut fetched: Seq<Seq<char>> = Seq::empty();
    let ghost u: Set<Seq<char>> = all_extends(sv) + ra.extends.to_set();
    proof {
        lemma_all_extends(sv);
        vstd::seq_lib::seq_to_set_is_finite(ra.extends);
        assert forall|c: Seq<char>| #[trigger] res@.pending.contains(c) implies reachable(sv, a, c) by {
            lemma_reach_step(sv, a, a, c);
        }
        assert(res@.processed.contains(a)) by {
            assert(res@.processed[0] == a);
        }
        assert(ra.extends.no_duplicates() && !ra.extends.contains(a)) by {
            if ra.extends.contains(a) {
                let k = choose|k: int| 0 <= k < ra.extends.len() && ra.extends[k] == a;
                assert(seq![a][0] == a);
                assert(seq![a].contains(ra.extends[k]));
            }
        }
        assert forall|k: int, l: Seq<char>|
            0 <= k < 9 && #[trigger] res@.permissions.list(k).contains(l) implies exists|y: Seq<char>|
            reachable(sv, a, y) && find_role(sv, y) is Some && (#[trigger] find_role(
                sv,
                y,
            )->0.permissions.list(k)).contains(l) by {
            assert(find_role(sv, a)->0.permissions.list(k).contains(l));
        }
        assert(res@.permissions.set_labels ==> find_role(sv, a)->0.permissions.set_labels);
        assert forall|c: Seq<char>| #[trigger] res@.pending.contains(c) implies res@.processed.contains(c) by {
            let k = choose|k: int| 0 <= k < res@.pending.len() && res@.pending[k] == c;
            assert(res@.processed[k + 1] == c);
        }
        assert forall|c: Seq<char>| #[trigger] res@.processed.contains(c) implies c == a || ra.extends.contains(c) by {
            let k = choose|k: int| 0 <= k < res@.processed.len() && res@.processed[k] == c;
            if k > 0 {
                assert(ra.extends[k - 1] == c);
            }
        }
        if tree_shaped(sv, a) {
            assert(res@.pending.no_duplicates());
            assert forall|c: Seq<char>| #[trigger] res@.pending.contains(c) implies !fetched.contains(c) && c != a by {
                assert(reachable(sv, a, a));
            }
        }
    }
    loop
        invariant
            find_role(sv, a) == Some(ra),
            sv == store@.roles,
            a == id@,
            role@ == ra,
            u == all_extends(sv) + ra.extends.to_set(),
            u.finite(),
            forall|i: int| 0 <= i < sv.len() ==> (#[trigger] sv[i]).extends.to_set().subset_of(
                all_extends(sv),
            ),
            reachable(sv, a, a),
            res@.processed.contains(a),
            forall|c: Seq<char>| #[trigger] res@.pending.contains(c) ==> reachable(sv, a, c),
            forall|f: Seq<char>|
                #[trigger] fetched.contains(f) ==> reachable(sv, a, f) && find_role(sv, f) is Some
                    && !find_role(sv, f)->0.extends.contains(a),
            forall|c: Seq<char>|
                #[trigger] ra.extends.contains(c) ==> res@.pending.contains(c) || fetched.contains(
                    c,
                ),
            forall|f: Seq<char>, c: Seq<char>|
                fetched.contains(f) && #[trigger] find_role(sv, f)->0.extends.contains(c)
                    ==> res@.pending.contains(c) || fetched.contains(c),
            res@.permissions.covers(ra.permissions),
            forall|f: Seq<char>|
                #[trigger] fetched.contains(f) ==> res@.permissions.covers(
                    find_role(sv, f)->0.permissions,
                ),
            drawn_from_ancestors(res@.permissions, sv, a),
            forall|c: Seq<char>| #[trigger] res@.pending.contains(c) ==> res@.processed.contains(c),
            forall|f: Seq<char>| #[trigger] fetched.contains(f) ==> res@.processed.contains(f),
            forall|c: Seq<char>|
                #[trigger] res@.processed.contains(c) ==> c == a || ra.extends.contains(c) || exists|
                    f: Seq<char>,
                | fetched.contains(f) && #[trigger] find_role(sv, f)->0.extends.contains(c),
            tree_shaped(sv, a) ==> res@.pending.no_duplicates(),
            tree_shaped(sv, a) ==> forall|c: Seq<char>|
                #[trigger] res@.pending.contains(c) ==> !fetched.contains(c) && c != a,
            ra.extends.no_duplicates() && !ra.extends.contains(a),
            forall|f: Seq<char>|
                #[trigger] fetched.contains(f) ==> find_role(sv, f)->0.extends.no_duplicates(),
            forall|x1: Seq<char>, x2: Seq<char>, c: Seq<char>|
                (x1 == a || fetched.contains(x1)) && (x2 == a || fetched.contains(x2)) && x1 != x2
                    && #[trigger] find_role(sv, x1)->0.extends.contains(c) ==> !#[trigger] find_role(
                    sv,
                    x2,
                )->0.extends.contains(c),
        ensures
            res@.pending.len() == 0,
            find_role(sv, a) == Some(ra),
            res@.permissions.covers(ra.permissions),
            forall|f: Seq<char>|
                #[trigger] fetched.contains(f) ==> reachable(sv, a, f) && find_role(sv, f) is Some
                    && !find_role(sv, f)->0.extends.contains(a),
            forall|c: Seq<char>|
                #[trigger] ra.extends.contains(c) ==> res@.pending.contains(c) || fetched.contains(
                    c,
                ),
            forall|f: Seq<char>, c: Seq<char>|
                fetched.contains(f) && #[trigger] find_role(sv, f)->0.extends.contains(c)
                    ==> res@.pending.contains(c) || fetched.contains(c),
            forall|f: Seq<char>|
                #[trigger] fetched.contains(f) ==> res@.permissions.covers(
                    find_role(sv, f)->0.permissions,
                ),
            drawn_from_ancestors(res@.permissions, sv, a),
            ra.extends.no_duplicates() && !ra.extends.contains(a),
            forall|f: Seq<char>|
                #[trigger] fetched.contains(f) ==> find_role(sv, f)->0.extends.no_duplicates(),
            forall|x1: Seq<char>, x2: Seq<char>, c: Seq<char>|
                (x1 == a || fetched.contains(x1)) && (x2 == a || fetched.contains(x2)) && x1 != x2
                    && #[trigger] find_role(sv, x1)->0.extends.contains(c) ==> !#[trigger] find_role(
                    sv,
                    x2,
                )->0.extends.contains(c),
        decreases res@.pending.len() + 2 * (u - res@.processed.to_set()).len(),
    {
        let next = match res.next_role_id() {
            None => break,
            Some(next) => next,
        };
        let ghost y = next@;
        proof {
            assert(res@.pending[res@.pending.len() - 1] == y);
            assert(res@.pending.contains(y));
        }
        let fetched_role = match store.get_role(&next) {
            Ok(r) => r,
            Err(e) => {
                proof {
                    assert(reachable(sv, a, y));
                    assert(!closed_from(sv, a));
                }
                return Err(RoleWrappedError::General(Error::Db(e)));
            },
        };
        let ghost yr = fetched_role@;
        let ghost before = res@;
        proof {
            let i = crate::lookup::first_index(role_ids(sv), y);
            crate::lookup::lemma_first_index(role_ids(sv), y);
            assert(sv[i] == yr);
            assert(yr.extends.to_set().subset_of(u));
        }
        res = match res.absorb(&fetched_role) {
            Ok(next_res) => next_res,
            Err(e) => {
                proof {
                    let j = choose|j: int|
                        first_repeat(before.processed, yr.extends, j) && e is Recursion
                            && e->Recursion_0@ == yr.extends[j];
                    assert(yr.extends.contains(yr.extends[j]));
                    assert(extends_edge(sv, y, e->Recursion_0@));
                    assert(reachable(sv, a, y));
                    if tree_shaped(sv, a) {
                        lemma_tree_fresh(sv, a, fetched, before.processed, before.pending, y);
                    }
                }
                return Err(e);
            },
        };
        proof {
            lemma_left_shrinks(u, before.processed, yr.extends);
            assert(res@.processed.contains(a)) by {
                let k = choose|k: int| 0 <= k < before.processed.len() && before.processed[k] == a;
                assert(res@.processed[k] == a);
            }
            lemma_merge_union(before.permissions, yr.permissions);
            let ghost old_fetched = fetched;
            fetched = fetched.push(y);
            assert forall|x: Seq<char>| old_fetched.contains(x) implies #[trigger] fetched.contains(x) by {
                let k = choose|k: int| 0 <= k < old_fetched.len() && old_fetched[k] == x;
                assert(fetched[k] == x);
            }
            assert(fetched.contains(y)) by {
                assert(fetched[fetched.len() - 1] == y);
            }
            assert forall|x: Seq<char>| #[trigger] fetched.contains(x) implies old_fetched.contains(x)
                || x == y by {
                let k = choose|k: int| 0 <= k < fetched.len() && fetched[k] == x;
                if k < old_fetched.len() {
                    assert(old_fetched[k] == x);
                }
            }
            assert forall|c: Seq<char>| #[trigger] res@.pending.contains(c) implies reachable(sv, a, c) by {
                let k = choose|k: int| 0 <= k < res@.pending.len() && res@.pending[k] == c;
                if k < before.pending.len() - 1 {
                    assert(res@.pending[k] == before.pending[k]);
                    assert(before.pending.contains(c));
                } else {
                    assert(res@.pending[k] == yr.extends[k - (before.pending.len() - 1)]);
                    assert(yr.extends.contains(c));
                    assert(reachable(sv, a, y));
                    lemma_reach_step(sv, a, y, c);
                }
            }
            assert(!yr.extends.contains(a)) by {
                if yr.extends.contains(a) {
                    let k = choose|k: int| 0 <= k < yr.extends.len() && yr.extends[k] == a;
                    assert(before.processed.contains(yr.extends[k]));
                }
            }
            assert forall|f: Seq<char>|
                #[trigger] fetched.contains(f) implies reachable(sv, a, f) && find_role(sv, f) is Some
                && !find_role(sv, f)->0.extends.contains(a) by {
                if f != y {
                    assert(old_fetched.contains(f));
                }
            }
            assert forall|c: Seq<char>|
                #[trigger] before.pending.contains(c) implies res@.pending.contains(c)
                || fetched.contains(c) by {
                let k = choose|k: int| 0 <= k < before.pending.len() && before.pending[k] == c;
                if k < before.pending.len() - 1 {
                    assert(res@.pending[k] == c);
                } else {
                    assert(fetched.last() == c);
                }
            }
            assert forall|c: Seq<char>| #[trigger] yr.extends.contains(c) implies res@.pending.contains(c) by {
                let k = choose|k: int| 0 <= k < yr.extends.len() && yr.extends[k] == c;
                assert(res@.pending[before.pending.len() - 1 + k] == c);
            }
            assert forall|c: Seq<char>|
                #[trigger] ra.extends.contains(c) implies res@.pending.contains(c) || fetched.contains(
                    c,
                ) by {
                if old_fetched.contains(c) {
                    assert(fetched.contains(c));
                }
            }
            assert forall|f: Seq<char>, c: Seq<char>|
                fetched.contains(f) && #[trigger] find_role(sv, f)->0.extends.contains(c) implies res@.pending.contains(
                c,
            ) || fetched.contains(c) by {
                if f != y {
                    assert(old_fetched.contains(f));
                    if old_fetched.contains(c) {
                        assert(fetched.contains(c));
                    }
                }
            }
            assert forall|f: Seq<char>| #[trigger] fetched.contains(f) implies res@.permissions.covers(
                find_role(sv, f)->0.permissions,
            ) by {
                if f != y {
                    assert(old_fetched.contains(f));
                    crate::permissions::lemma_merge_keeps_cover(
                        before.permissions,
                        yr.permissions,
                        find_role(sv, f)->0.permissions,
                    );
                }
            }
            crate::permissions::lemma_merge_keeps_cover(before.permissions, yr.permissions, ra.permissions);
            lemma_step_bookkeeping(sv, a, ra, old_fetched, before.pending, before.processed, y, yr.extends);
            assert(res@.pending == before.pending.drop_last() + yr.extends);
            assert(res@.processed == before.processed + yr.extends);
            assert(find_role(sv, y)->0 == yr);
            assert forall|x: Seq<char>, c: Seq<char>|
                (x == a || old_fetched.contains(x)) && #[trigger] find_role(sv, x)->0.extends.contains(c)
                    implies before.processed.contains(c) by {
                if x == a {
                    assert(ra.extends.contains(c));
                }
            }
            assert forall|c: Seq<char>| #[trigger] yr.extends.contains(c) implies !before.processed.contains(c) by {
                let k = choose|k: int| 0 <= k < yr.extends.len() && yr.extends[k] == c;
                assert(!before.processed.contains(yr.extends[k]));
            }
            assert forall|f: Seq<char>|
                #[trigger] fetched.contains(f) implies find_role(sv, f)->0.extends.no_duplicates() by {
                if f != y {
                    assert(old_fetched.contains(f));
                }
            }
            assert forall|x1: Seq<char>, x2: Seq<char>, c: Seq<char>|
                (x1 == a || fetched.contains(x1)) && (x2 == a || fetched.contains(x2)) && x1 != x2
                    && #[trigger] find_role(sv, x1)->0.extends.contains(c) implies !#[trigger] find_role(
                sv,
                x2,
            )->0.extends.contains(c) by {
                let old1 = x1 == a || old_fetched.contains(x1);
                let old2 = x2 == a || old_fetched.contains(x2);
                if old1 && old2 {
                } else if !old1 {
                    assert(x1 == y);
                    assert(!before.processed.contains(c));
                } else {
                    assert(x2 == y);
                    assert(before.processed.contains(c));
                }
            }
            assert forall|k: int, l: Seq<char>|
                0 <= k < 9 && #[trigger] res@.permissions.list(k).contains(l) implies exists|
                z: Seq<char>,
            |
                reachable(sv, a, z) && find_role(sv, z) is Some && (#[trigger] find_role(
                    sv,
                    z,
                )->0.permissions.list(k)).contains(l) by {
                assert(res@.permissions.list(k).to_set().contains(l));
                if before.permissions.list(k).contains(l) {
                } else {
                    assert(yr.permissions.list(k).to_set().contains(l));
                    assert(find_role(sv, y)->0.permissions.list(k).contains(l));
                }
            }
        }
    }
    proof {
        assert forall|c: Seq<char>| #[trigger] ra.extends.contains(c) implies fetched.contains(c) by {}
        assert forall|f: Seq<char>, c: Seq<char>|
            fetched.contains(f) && #[trigger] find_role(sv, f)->0.extends.contains(c) implies fetched.contains(
            c,
        ) by {}
        assert forall|y: Seq<char>|
            #[trigger] reachable(sv, a, y) && find_role(sv, y) is Some implies res@.permissions.covers(
            find_role(sv, y)->0.permissions,
        ) by {
            lemma_walk_closed(sv, a, fetched, y);
        }
        assert(tree_from(sv, a)) by {
            assert forall|y: Seq<char>| #[trigger] reachable(sv, a, y) implies find_role(sv, y) is Some by {
                lemma_walk_closed(sv, a, fetched, y);
            }
            assert forall|y: Seq<char>|
                #[trigger] reachable(sv, a, y) && find_role(sv, y) is Some implies find_role(
                sv,
                y,
            )->0.extends.no_duplicates() && !find_role(sv, y)->0.extends.contains(a) by {
                lemma_walk_closed(sv, a, fetched, y);
            }
            assert forall|y1: Seq<char>, y2: Seq<char>, c: Seq<char>|
                reachable(sv, a, y1) && reachable(sv, a, y2) && y1 != y2 && find_role(sv, y1) is Some
                    && find_role(sv, y2) is Some && #[trigger] find_role(sv, y1)->0.extends.contains(
                    c,
                ) implies !#[trigger] find_role(sv, y2)->0.extends.contains(c) by {
                lemma_walk_closed(sv, a, fetched, y1);
                lemma_walk_closed(sv, a, fetched, y2);
            }
        }
        assert(!cycle_through(sv, a)) by {
            if cycle_through(sv, a) {
                let y = choose|y: Seq<char>| reachable(sv, a, y) && #[trigger] extends_edge(sv, y, a);
                lemma_walk_closed(sv, a, fetched, y);
                if y == a {
                    assert(ra.extends.contains(a));
                    assert(fetched.contains(a));
                }
            }
        }
    }
    let permissions = res.into_permissions();
    Ok(Role { permissions, ..role })
}

/// The user names of a channel's role overrides, in order.
pub open spec fn override_names(roles: Seq<(Seq<char>, Seq<char>)>) -> Seq<Seq<char>> {
    roles.map_values(|p: (Seq<char>, Seq<char>)| p.0)
}

/// The role that `user` has on channel `c`: the first override for that
/// user, or else the channel's default role.
pub open spec fn user_role_id(c: ChannelView, user: Seq<char>) -> Seq<char> {
    let i = first_index(override_names(c.roles), user);
    if i < 0 {
        c.default_role
    } else {
        c.roles[i].1
    }
}

/// The id of the role that `user_name` has on `channel`.
pub fn role_id_for_user(channel: &Channel, user_name: &String) -> (r: String)
    ensures
        r@ == user_role_id(channel@, user_name@),
{
    let ghost names = override_names(channel@.roles);
    let mut i: usize = 0;
    while i < channel.roles.len()
        invariant
            0 <= i <= channel.roles.len(),
            names == override_names(channel@.roles),
            names.len() == channel.roles.len(),
            forall|j: int| 0 <= j < i ==> names[j] != user_name@,
        decreases channel.roles.len() - i,
    {
        assert(names[i as int] == channel.roles@[i as int].0@);
        if channel.roles[i].0 == *user_name {
            proof {
                lemma_first_index_at(names, user_name@, i as int);
            }
            return channel.roles[i].1.clone();
        }
        i += 1;
    }
    proof {
        lemma_first_index(names, user_name@);
        if names.contains(user_name@) {
            let k = choose|k: int| 0 <= k < names.len() && names[k] == user_name@;
            assert(names[k] != user_name@);
        }
    }
    channel.default_role.clone()
}

/// Fetches channel `channel_id` and resolves the role that `user_name` has
/// on it. Returns the resolved role together with the channel, whose labels
/// gate what the role may do.
pub fn resolve_user_role(store: &Store, channel_id: &String, user_name: &String) -> (r: Result<
    (Role, Channel),
    RoleWrappedError,
>)
    ensures
        store@.channel(channel_id@) is None ==> r == Err::<(Role, Channel), RoleWrappedError>(
            RoleWrappedError::General(Error::Db(DbError::NotFound)),
        ),
        store@.channel(channel_id@) is Some ==> ({
            let c = store@.channel(channel_id@)->0;
            let rid = user_role_id(c, user_name@);
            &&& find_role(store@.roles, rid) is None ==> r == Err::<(Role, Channel), RoleWrappedError>(
                RoleWrappedError::General(Error::Db(DbError::NotFound)),
            )
            &&& r is Ok ==> r->Ok_0.1@ == c && find_role(store@.roles, rid) is Some && r->Ok_0.0@
                == with_permissions(find_role(store@.roles, rid)->0, r->Ok_0.0@.permissions)
                && covers_ancestors(r->Ok_0.0@.permissions, store@.roles, rid)
                && drawn_from_ancestors(r->Ok_0.0@.permissions, store@.roles, rid)
            &&& cycle_through(store@.roles, rid) ==> r is Err
            &&& tree_from(store@.roles, rid) ==> r is Ok
            &&& r is Ok ==> tree_from(store@.roles, rid)
            &&& tree_shaped(store@.roles, rid) && !closed_from(store@.roles, rid) ==> r == Err::<
                (Role, Channel),
                RoleWrappedError,
            >(RoleWrappedError::General(Error::Db(DbError::NotFound)))
            &&& cycle_through(store@.roles, rid) && closed_from(store@.roles, rid) ==> r is Err
                && r->Err_0 is Recursion
            &&& r is Err && r->Err_0 is General ==> r->Err_0 == RoleWrappedError::General(
                Error::Db(DbError::NotFound),
            ) && !closed_from(store@.roles, rid)
        }),
{
    let channel = match store.get_channel(channel_id) {
        Ok(c) => c,
        Err(e) => {
            return Err(RoleWrappedError::General(Error::Db(e)));
        },
    };
    let role_id = role_id_for_user(&channel, user_name);
    let role = match resolve_role(store, &role_id) {
        Ok(role) => role,
        Err(e) => {
            return Err(e);
        },
    };
    Ok((role, channel))
}

/// Two role lists that differ only in the order in which each role lists
/// the roles it extends.
pub open spec fn same_but_order(s1: Seq<RoleView>, s2: Seq<RoleView>) -> bool {
    &&& s1.len() == s2.len()
    &&& forall|i: int|
        0 <= i < s1.len() ==> (#[trigger] s1[i]).id == s2[i].id && s1[i].permissions
            == s2[i].permissions && s1[i].extends.to_set() == s2[i].extends.to_set()
            && s1[i].extends.len() == s2[i].extends.len()
}

proof fn lemma_same_find(s1: Seq<RoleView>, s2: Seq<RoleView>, x: Seq<char>)
    requires
        same_but_order(s1, s2),
    ensures
        find_role(s1, x) is Some <==> find_role(s2, x) is Some,
        find_role(s1, x) is Some ==> find_role(s1, x)->0.permissions == find_role(s2, x)->0.permissions
            && find_role(s1, x)->0.extends.to_set() == find_role(s2, x)->0.extends.to_set()
            && find_role(s1, x)->0.extends.len() == find_role(s2, x)->0.extends.len(),
{
    assert(role_ids(s1) =~= role_ids(s2)) by {
        assert forall|i: int| 0 <= i < s1.len() implies role_ids(s1)[i] == role_ids(s2)[i] by {
            assert(s1[i].id == s2[i].id);
        }
    }
    crate::lookup::lemma_first_index(role_ids(s1), x);
}

proof fn lemma_same_edge(s1: Seq<RoleView>, s2: Seq<RoleView>, x: Seq<char>, y: Seq<char>)
    requires
        same_but_order(s1, s2),
    ensures
        extends_edge(s1, x, y) <==> extends_edge(s2, x, y),
{
    lemma_same_find(s1, s2, x);
    if find_role(s1, x) is Some {
        assert(find_role(s1, x)->0.extends.contains(y) <==> find_role(s1, x)->0.extends.to_set().contains(y));
        assert(find_role(s2, x)->0.extends.contains(y) <==> find_role(s2, x)->0.extends.to_set().contains(y));
    }
}

proof fn lemma_same_reach(s1: Seq<RoleView>, s2: Seq<RoleView>, a: Seq<char>, y: Seq<char>)
    requires
        same_but_order(s1, s2),
        reachable(s1, a, y),
    ensures
        reachable(s2, a, y),
{
    let path = choose|path: Seq<Seq<char>>| is_path(s1, path) && path[0] == a && path.last() == y;
    assert forall|i: int| 0 <= i < path.len() - 1 implies extends_edge(s2, path[i], #[trigger] path[i + 1]) by {
        lemma_same_edge(s1, s2, path[i], path[i + 1]);
    }
    assert(is_path(s2, path) && path[0] == a && path.last() == y);
}

proof fn lemma_sym(s1: Seq<RoleView>, s2: Seq<RoleView>)
    requires
        same_but_order(s1, s2),
    ensures
        same_but_order(s2, s1),
{
}

proof fn lemma_cover_other(
    s1: Seq<RoleView>,
    s2: Seq<RoleView>,
    a: Seq<char>,
    p1: PermissionsView,
    p2: PermissionsView,
)
    requires
        same_but_order(s1, s2),
        covers_ancestors(p1, s1, a),
        drawn_from_ancestors(p2, s2, a),
    ensures
        p1.covers(p2),
{
    lemma_sym(s1, s2);
    assert forall|k: int| 0 <= k < 9 implies #[trigger] p2.list(k).to_set().subset_of(p1.list(k).to_set()) by {
        assert forall|l: Seq<char>| p2.list(k).to_set().contains(l) implies p1.list(k).to_set().contains(l) by {
            assert(p2.list(k).contains(l));
            let y = choose|y: Seq<char>|
                reachable(s2, a, y) && find_role(s2, y) is Some && (#[trigger] find_role(
                    s2,
                    y,
                )->0.permissions.list(k)).contains(l);
            lemma_same_reach(s2, s1, a, y);
            lemma_same_find(s1, s2, y);
            assert(p1.covers(find_role(s1, y)->0.permissions));
            assert(find_role(s1, y)->0.permissions.list(k).to_set().subset_of(p1.list(k).to_set()));
            assert(find_role(s1, y)->0.permissions.list(k).contains(l));
            assert(find_role(s1, y)->0.permissions.list(k).to_set().contains(l));
        }
    }
    if p2.set_labels {
        let y = choose|y: Seq<char>|
            reachable(s2, a, y) && #[trigger] find_role(s2, y) is Some && find_role(
                s2,
                y,
            )->0.permissions.set_labels;
        lemma_same_reach(s2, s1, a, y);
        lemma_same_find(s1, s2, y);
        assert(p1.covers(find_role(s1, y)->0.permissions));
    }
}

/// Resolution does not depend on the order in which roles list the roles
/// they extend: where the store's roles differ only in that order, the
/// permissions that two successful resolutions of one role give grant the
/// same labels in every list and the same flag.
pub proof fn lemma_order_independent(
    s1: Seq<RoleView>,
    s2: Seq<RoleView>,
    a: Seq<char>,
    p1: PermissionsView,
    p2: PermissionsView,
)
    requires
        same_but_order(s1, s2),
        covers_ancestors(p1, s1, a),
        drawn_from_ancestors(p1, s1, a),
        covers_ancestors(p2, s2, a),
        drawn_from_ancestors(p2, s2, a),
    ensures
        p1.same_grants(p2),
{
    lemma_sym(s1, s2);
    lemma_cover_other(s1, s2, a, p1, p2);
    lemma_cover_other(s2, s1, a, p2, p1);
}

/// Reordering the lists of extended roles keeps a tree a tree: where one
/// order resolves on a tree (and so succeeds), the other succeeds too.
pub proof fn lemma_order_keeps_tree(s1: Seq<RoleView>, s2: Seq<RoleView>, a: Seq<char>)
    requires
        same_but_order(s1, s2),
        tree_from(s1, a),
    ensures
        tree_from(s2, a),
{
    lemma_sym(s1, s2);
    assert forall|y: Seq<char>| #[trigger] reachable(s2, a, y) implies find_role(s2, y) is Some by {
        lemma_same_reach(s2, s1, a, y);
        lemma_same_find(s1, s2, y);
    }
    assert forall|y: Seq<char>| #[trigger] reachable(s2, a, y) implies find_role(s2, y)->0.extends.no_duplicates()
        && !find_role(s2, y)->0.extends.contains(a) by {
        lemma_same_reach(s2, s1, a, y);
        lemma_same_find(s1, s2, y);
        let e1 = find_role(s1, y)->0.extends;
        let e2 = find_role(s2, y)->0.extends;
        e1.unique_seq_to_set();
        e2.lemma_no_dup_set_cardinality();
        assert(e1.to_set().contains(a) == e1.contains(a));
        assert(e2.to_set().contains(a) == e2.contains(a));
    }
    assert forall|y1: Seq<char>, y2: Seq<char>, c: Seq<char>|
        reachable(s2, a, y1) && reachable(s2, a, y2) && y1 != y2 && #[trigger] find_role(
            s2,
            y1,
        )->0.extends.contains(c) implies !#[trigger] find_role(s2, y2)->0.extends.contains(c) by {
        lemma_same_reach(s2, s1, a, y1);
        lemma_same_reach(s2, s1, a, y2);
        lemma_same_find(s1, s2, y1);
        lemma_same_find(s1, s2, y2);
        assert(find_role(s2, y1)->0.extends.to_set().contains(c));
        assert(find_role(s1, y1)->0.extends.to_set().contains(c));
        assert(find_role(s1, y1)->0.extends.contains(c));
        if find_role(s2, y2)->0.extends.contains(c) {
            assert(find_role(s2, y2)->0.extends.to_set().contains(c));
            assert(find_role(s1, y2)->0.extends.to_set().contains(c));
            assert(find_role(s1, y2)->0.extends.contains(c));
        }
    }
}

} // verus!
