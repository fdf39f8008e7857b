//! Chains of jump hosts. The saved connections form a graph in which a
//! connection points at the connections that it jumps through.

#![verifier::loop_isolation(false)]

use crate::error::{self, AppError, ErrorView};
use crate::models::{ConnectionProfile, ConnectionProfileView};
use crate::text::{list_has, same};
use vstd::prelude::*;

verus! {

/// The longest chain of jump hosts that a connection may have.
pub const MAX_JUMP_HOSTS: usize = 8;

/// Whether the first connection with this id stands at `i`.
pub open spec fn first_at(connections: Seq<ConnectionProfileView>, id: Seq<char>, i: int) -> bool {
    &&& 0 <= i < connections.len()
    &&& connections[i].id == id
    &&& forall|j: int| 0 <= j < i ==> (#[trigger] connections[j]).id != id
}

/// The place of the first connection with this id.
pub open spec fn find_connection(connections: Seq<ConnectionProfileView>, id: Seq<char>) -> Option<
    int,
> {
    if exists|i: int| first_at(connections, id, i) {
        Some(choose|i: int| first_at(connections, id, i))
    } else {
        None
    }
}

/// Whether a connection has this id.
pub open spec fn has_connection(connections: Seq<ConnectionProfileView>, id: Seq<char>) -> bool {
    exists|i: int| 0 <= i < connections.len() && (#[trigger] connections[i]).id == id
}

/// A connection with this id is found if and only if there is one.
pub proof fn lemma_find(connections: Seq<ConnectionProfileView>, id: Seq<char>)
    ensures
        has_connection(connections, id) <==> find_connection(connections, id) is Some,
        find_connection(connections, id) matches Some(i) ==> first_at(connections, id, i),
        forall|i: int| #[trigger]
            first_at(connections, id, i) ==> find_connection(connections, id) == Some(i),
    decreases connections.len(),
{
    if has_connection(connections, id) {
        let k = choose|k: int| 0 <= k < connections.len() && (#[trigger] connections[k]).id == id;
        lemma_first_exists(connections, id, k);
    }
    assert forall|i: int| #[trigger] first_at(connections, id, i) implies find_connection(
        connections,
        id,
    ) == Some(i) by {
        let j = choose|j: int| first_at(connections, id, j);
        assert(first_at(connections, id, j));
        assert(i == j) by {
            if i < j {
                assert(connections[i].id != id);
            } else if j < i {
                assert(connections[j].id != id);
            }
        }
    }
}

/// Below a place with this id there is a first one.
proof fn lemma_first_exists(connections: Seq<ConnectionProfileView>, id: Seq<char>, k: int)
    requires
        0 <= k < connections.len(),
        connections[k].id == id,
    ensures
        exists|i: int| first_at(connections, id, i),
    decreases k,
{
    if exists|j: int| 0 <= j < k && (#[trigger] connections[j]).id == id {
        let j = choose|j: int| 0 <= j < k && (#[trigger] connections[j]).id == id;
        lemma_first_exists(connections, id, j);
    } else {
        assert(first_at(connections, id, k));
    }
}

/// The place of the first connection with this id.
pub fn connection_index(connections: &Vec<ConnectionProfile>, id: &str) -> (r: Option<usize>)
    ensures
        match r {
            Some(i) => find_connection(connections.deep_view(), id@) == Some(i as int) && first_at(
                connections.deep_view(),
                id@,
                i as int,
            ),
            None => find_connection(connections.deep_view(), id@) is None && !has_connection(
                connections.deep_view(),
                id@,
            ),
        },
{
    let ghost view = connections.deep_view();
    proof {
        lemma_find(view, id@);
    }
    let mut i: usize = 0;
    while i < connections.len()
        invariant
            i <= connections@.len(),
            forall|j: int| 0 <= j < i ==> (#[trigger] view[j]).id != id@,
        decreases connections@.len() - i,
    {
        assert(view[i as int] == connections@[i as int]@);
        if same(connections[i].id.as_str(), id) {
            assert(first_at(view, id@, i as int));
            return Some(i);
        }
        i = i + 1;
    }
    None
}

/// The ids that the connection with this id jumps through.
pub open spec fn jumps_of(connections: Seq<ConnectionProfileView>, id: Seq<char>) -> Seq<Seq<char>> {
    match find_connection(connections, id) {
        Some(i) => connections[i].jump_host_ids,
        None => Seq::empty(),
    }
}

/// Whether the connection `a` jumps through `b`.
pub open spec fn jumps_through(
    connections: Seq<ConnectionProfileView>,
    a: Seq<char>,
    b: Seq<char>,
) -> bool {
    jumps_of(connections, a).contains(b)
}

/// Whether the step from the `k`th id of `path` to the next is a jump.
pub open spec fn hop(connections: Seq<ConnectionProfileView>, path: Seq<Seq<char>>, k: int) -> bool {
    jumps_through(connections, path[k], path[k + 1])
}

/// Whether each id of `path` jumps through the next.
pub open spec fn is_path(connections: Seq<ConnectionProfileView>, path: Seq<Seq<char>>) -> bool {
    &&& path.len() > 0
    &&& forall|k: int| 0 <= k < path.len() - 1 ==> #[trigger] hop(connections, path, k)
}

/// Whether jumps lead from `a` to `b`, in any number of steps.
pub open spec fn reaches(
    connections: Seq<ConnectionProfileView>,
    a: Seq<char>,
    b: Seq<char>,
) -> bool {
    exists|path: Seq<Seq<char>>| #[trigger]
        is_path(connections, path) && path.first() == a && path.last() == b
}

/// Whether no connection comes back to itself by jumps.
pub open spec fn acyclic(connections: Seq<ConnectionProfileView>) -> bool {
    forall|path: Seq<Seq<char>>| #[trigger]
        is_path(connections, path) && path.len() > 1 ==> path.first() != path.last()
}

/// The number of connections whose id is not among `seen`.
pub open spec fn unseen(connections: Seq<ConnectionProfileView>, seen: Seq<Seq<char>>) -> nat
    decreases connections.len(),
{
    if connections.len() == 0 {
        0
    } else {
        unseen(connections.drop_last(), seen) + (if seen.contains(connections.last().id) {
            0nat
        } else {
            1nat
        })
    }
}

/// Seeing more ids leaves no more unseen; seeing a new one leaves fewer.
pub proof fn lemma_unseen(
    connections: Seq<ConnectionProfileView>,
    seen: Seq<Seq<char>>,
    more: Seq<Seq<char>>,
)
    requires
        forall|id: Seq<char>| #[trigger] seen.contains(id) ==> more.contains(id),
    ensures
        unseen(connections, more) <= unseen(connections, seen),
        (exists|i: int|
            0 <= i < connections.len() && more.contains((#[trigger] connections[i]).id)
                && !seen.contains(connections[i].id)) ==> unseen(connections, more) < unseen(
            connections,
            seen,
        ),
    decreases connections.len(),
{
    if connections.len() > 0 {
        let rest = connections.drop_last();
        lemma_unseen(rest, seen, more);
        if exists|i: int|
            0 <= i < connections.len() && more.contains((#[trigger] connections[i]).id)
                && !seen.contains(connections[i].id) {
            let i = choose|i: int|
                0 <= i < connections.len() && more.contains((#[trigger] connections[i]).id)
                    && !seen.contains(connections[i].id);
            if i < rest.len() {
                assert(rest[i] == connections[i]);
            }
        }
    }
}

/// Pushing an id keeps those that were there.
pub proof fn lemma_push_contains(seen: Seq<Seq<char>>, id: Seq<char>)
    ensures
        seen.push(id).contains(id),
        forall|x: Seq<char>| #[trigger] seen.contains(x) ==> seen.push(id).contains(x),
        forall|x: Seq<char>|
            #[trigger] seen.push(id).contains(x) ==> seen.contains(x) || x == id,
{
    assert(seen.push(id)[seen.len() as int] == id);
    assert forall|x: Seq<char>| #[trigger] seen.contains(x) implies seen.push(id).contains(x) by {
        let i = choose|i: int| 0 <= i < seen.len() && seen[i] == x;
        assert(seen.push(id)[i] == x);
    }
    assert forall|x: Seq<char>| #[trigger] seen.push(id).contains(x) implies seen.contains(x) || x
        == id by {
        let i = choose|i: int| 0 <= i < seen.push(id).len() && seen.push(id)[i] == x;
        if i < seen.len() {
            assert(seen[i] == x);
        }
    }
}

/// Whether a search that found nothing has seen all that it had to: no id that
/// is new in `after` is the target, and all that such an id jumps through is in
/// `after`.
pub open spec fn searched(
    connections: Seq<ConnectionProfileView>,
    target: Seq<char>,
    before: Seq<Seq<char>>,
    after: Seq<Seq<char>>,
) -> bool {
    &&& before.is_prefix_of(after)
    &&& forall|a: Seq<char>|
        #[trigger] after.contains(a) && !before.contains(a) ==> a != target && (forall|b: Seq<char>|
            #[trigger] jumps_through(connections, a, b) ==> after.contains(b))
}

/// Where the ids seen are closed under jumps, a path that starts there stays
/// there.
proof fn lemma_closed(
    connections: Seq<ConnectionProfileView>,
    target: Seq<char>,
    seen: Seq<Seq<char>>,
    path: Seq<Seq<char>>,
    k: int,
)
    requires
        searched(connections, target, Seq::empty(), seen),
        is_path(connections, path),
        seen.contains(path.first()),
        0 <= k < path.len(),
    ensures
        seen.contains(path[k]),
        path[k] != target,
    decreases k,
{
    let none = Seq::<Seq<char>>::empty();
    if k > 0 {
        lemma_closed(connections, target, seen, path, k - 1);
        assert(hop(connections, path, k - 1));
        assert(!none.contains(path[k - 1]));
        assert(jumps_through(connections, path[k - 1], path[k]));
    }
    assert(!none.contains(path[k]));
}

/// A path with one more step in front.
proof fn lemma_longer(
    connections: Seq<ConnectionProfileView>,
    a: Seq<char>,
    b: Seq<char>,
    c: Seq<char>,
)
    requires
        jumps_through(connections, a, b),
        reaches(connections, b, c),
    ensures
        reaches(connections, a, c),
{
    let path = choose|path: Seq<Seq<char>>| #[trigger]
        is_path(connections, path) && path.first() == b && path.last() == c;
    let longer = seq![a] + path;
    assert(is_path(connections, longer)) by {
        assert forall|k: int| 0 <= k < longer.len() - 1 implies #[trigger] hop(connections, longer, k) by {
            if k > 0 {
                assert(hop(connections, path, k - 1));
                assert(longer[k] == path[k - 1]);
                assert(longer[k + 1] == path[k]);
            } else {
                assert(longer[1] == path[0]);
            }
        }
    }
    assert(longer.first() == a);
    assert(longer.last() == c);
}

/// Whether jumps lead from `current` to `target` without passing through an id
/// that was seen before. Adds what it passed through to `visited`.
pub fn jump_reaches(
    connections: &Vec<ConnectionProfile>,
    current: &str,
    target: &str,
    visited: &mut Vec<String>,
) -> (r: bool)
    ensures
        r ==> reaches(connections.deep_view(), current@, target@),
        !r ==> searched(
            connections.deep_view(),
            target@,
            old(visited).deep_view(),
            final(visited).deep_view(),
        ) && final(visited).deep_view().contains(current@) && current@ != target@,
        old(visited).deep_view().len() == 0 ==> r == reaches(
            connections.deep_view(),
            current@,
            target@,
        ),
    decreases unseen(connections.deep_view(), old(visited).deep_view()),
{
    let ghost view = connections.deep_view();
    let ghost before = visited.deep_view();
    if same(current, target) {
        proof {
            let path = seq![current@];
            assert(is_path(view, path));
            assert(path.first() == current@ && path.last() == target@);
        }
        return true;
    }
    if list_has(visited, current) {
        proof {
            assert(before.len() > 0);
        }
        return false;
    }
    visited.push(current.to_owned());
    proof {
        assert(visited.deep_view() =~= before.push(current@));
        lemma_push_contains(before, current@);
        lemma_find(view, current@);
    }
    match connection_index(connections, current) {
        None => {
            proof {
                assert forall|a: Seq<char>|
                    #[trigger] visited.deep_view().contains(a) && !before.contains(a) implies a
                    != target@ && (forall|b: Seq<char>|
                    #[trigger] jumps_through(view, a, b) ==> visited.deep_view().contains(b)) by {
                    assert(a == current@);
                    assert(jumps_of(view, a) =~= Seq::empty());
                }
                lemma_unreached(view, target@, before, visited.deep_view(), current@);
            }
            false
        },
        Some(at) => {
            let ghost start = visited.deep_view();
            let ghost jumps = view[at as int].jump_host_ids;
            proof {
                assert(view[at as int] == connections@[at as int]@);
                lemma_unseen(view, before, start);
                assert(start.contains(view[at as int].id) && !before.contains(view[at as int].id));
                assert(jumps_of(view, current@) == jumps);
            }
            let mut i: usize = 0;
            while i < connections[at].jump_host_ids.len()
                invariant
                    i <= jumps.len(),
                    start.is_prefix_of(visited.deep_view()),
                    forall|a: Seq<char>|
                        #[trigger] visited.deep_view().contains(a) && !start.contains(a) ==> a
                            != target@ && (forall|b: Seq<char>|
                            #[trigger]
                            jumps_through(view, a, b) ==> visited.deep_view().contains(b)),
                    forall|j: int|
                        0 <= j < i ==> visited.deep_view().contains(#[trigger] jumps[j]),
                decreases jumps.len() - i,
            {
                let ghost middle = visited.deep_view();
                let jump = connections[at].jump_host_ids[i].as_str();
                proof {
                    assert(jump@ == jumps[i as int]);
                    lemma_prefix_contains(start, middle);
                    lemma_unseen(view, start, middle);
                }
                if jump_reaches(connections, jump, target, visited) {
                    proof {
                        assert(jumps.contains(jump@));
                        assert(jumps_through(view, current@, jump@));
                        lemma_longer(view, current@, jump@, target@);
                    }
                    return true;
                }
                proof {
                    let after = visited.deep_view();
                    lemma_prefix_contains(middle, after);
                    assert(start.is_prefix_of(after));
                    assert forall|a: Seq<char>|
                        #[trigger] after.contains(a) && !start.contains(a) implies a != target@ && (
                    forall|b: Seq<char>|
                        #[trigger] jumps_through(view, a, b) ==> after.contains(b)) by {
                        if middle.contains(a) {
                            assert forall|b: Seq<char>| #[trigger]
                                jumps_through(view, a, b) implies after.contains(b) by {
                                assert(middle.contains(b));
                            }
                        }
                    }
                    assert forall|j: int| 0 <= j < i + 1 implies after.contains(#[trigger] jumps[j]) by {
                        if j < i {
                            assert(middle.contains(jumps[j]));
                        }
                    }
                }
                i = i + 1;
            }
            proof {
                let after = visited.deep_view();
                lemma_prefix_contains(start, after);
                assert(before.is_prefix_of(after)) by {
                    assert(before.is_prefix_of(start));
                }
                assert forall|a: Seq<char>|
                    #[trigger] after.contains(a) && !before.contains(a) implies a != target@ && (
                forall|b: Seq<char>|
                    #[trigger] jumps_through(view, a, b) ==> after.contains(b)) by {
                    if start.contains(a) {
                        assert(a == current@);
                        assert forall|b: Seq<char>| #[trigger]
                            jumps_through(view, a, b) implies after.contains(b) by {
                            let j = choose|j: int| 0 <= j < jumps.len() && jumps[j] == b;
                            assert(after.contains(jumps[j]));
                        }
                    }
                }
                lemma_unreached(view, target@, before, after, current@);
            }
            false
        },
    }
}

/// What is in a prefix is in the whole.
proof fn lemma_prefix_contains(prefix: Seq<Seq<char>>, whole: Seq<Seq<char>>)
    requires
        prefix.is_prefix_of(whole),
    ensures
        forall|x: Seq<char>| #[trigger] prefix.contains(x) ==> whole.contains(x),
{
    assert forall|x: Seq<char>| #[trigger] prefix.contains(x) implies whole.contains(x) by {
        let i = choose|i: int| 0 <= i < prefix.len() && prefix[i] == x;
        assert(whole[i] == x);
    }
}

/// A search from scratch that found nothing shows that there is no path.
proof fn lemma_unreached(
    connections: Seq<ConnectionProfileView>,
    target: Seq<char>,
    before: Seq<Seq<char>>,
    after: Seq<Seq<char>>,
    current: Seq<char>,
)
    requires
        searched(connections, target, before, after),
        after.contains(current),
    ensures
        before.len() == 0 ==> !reaches(connections, current, target),
{
    if before.len() == 0 && reaches(connections, current, target) {
        assert(before =~= Seq::empty());
        let path = choose|path: Seq<Seq<char>>| #[trigger]
            is_path(connections, path) && path.first() == current && path.last() == target;
        lemma_closed(connections, target, after, path, path.len() - 1);
    }
}

/// The error for a chain that names its own connection or one host twice.
pub open spec fn repeated_jump_error() -> ErrorView {
    error::ssh_error(
        "JUMP-HOST-CYCLE"@,
        "跳板链不能包含自身或重复节点"@,
        "jump host chain contains a self-reference or duplicate"@,
        false,
    )
}

/// The error for a chain that would come back to its own connection.
pub open spec fn jump_cycle_error() -> ErrorView {
    error::ssh_error(
        "JUMP-HOST-CYCLE"@,
        "跳板链存在循环引用"@,
        "jump host graph contains a cycle"@,
        false,
    )
}

/// What is wrong with the jump hosts of a connection from place `i` on: the first
/// that is the connection itself, stands there twice, does not exist or leads
/// back to the connection.
pub open spec fn jump_fault_from(
    connections: Seq<ConnectionProfileView>,
    id: Seq<char>,
    jumps: Seq<Seq<char>>,
    i: int,
) -> Option<ErrorView>
    decreases jumps.len() - i,
{
    if i < 0 || i >= jumps.len() {
        None
    } else if jumps[i] == id || jumps.take(i).contains(jumps[i]) {
        Some(repeated_jump_error())
    } else if !has_connection(connections, jumps[i]) {
        Some(error::asset_not_found_error("jump-host"@, jumps[i]))
    } else if reaches(connections, jumps[i], id) {
        Some(jump_cycle_error())
    } else {
        jump_fault_from(connections, id, jumps, i + 1)
    }
}

/// What is wrong with the jump hosts of a connection.
pub open spec fn jump_fault(
    connections: Seq<ConnectionProfileView>,
    id: Seq<char>,
    jumps: Seq<Seq<char>>,
) -> Option<ErrorView> {
    if jumps.len() > MAX_JUMP_HOSTS {
        Some(error::validation_error("跳板链最多包含 8 个连接"@))
    } else {
        jump_fault_from(connections, id, jumps, 0)
    }
}

/// Checks the jump hosts that the connection `connection_id` is to have.
pub fn validate_jump_hosts(
    connections: &Vec<ConnectionProfile>,
    connection_id: &str,
    jump_host_ids: &Vec<String>,
) -> (r: Result<(), AppError>)
    ensures
        error::error_of(r) == jump_fault(
            connections.deep_view(),
            connection_id@,
            jump_host_ids.deep_view(),
        ),
{
    if jump_host_ids.len() > MAX_JUMP_HOSTS {
        return Err(AppError::validation("跳板链最多包含 8 个连接"));
    }
    let ghost view = connections.deep_view();
    let ghost jumps = jump_host_ids.deep_view();
    let mut unique: Vec<String> = Vec::new();
    let mut i: usize = 0;
    proof {
        assert(unique.deep_view() =~= jumps.take(0));
    }
    while i < jump_host_ids.len()
        invariant
            i <= jumps.len(),
            unique.deep_view() == jumps.take(i as int),
            jump_fault(view, connection_id@, jumps) == jump_fault_from(
                view,
                connection_id@,
                jumps,
                i as int,
            ),
        decreases jumps.len() - i,
    {
        let jump_id = jump_host_ids[i].as_str();
        assert(jump_id@ == jumps[i as int]);
        if same(jump_id, connection_id) || list_has(&unique, jump_id) {
            return Err(
                AppError::ssh(
                    "JUMP-HOST-CYCLE",
                    "跳板链不能包含自身或重复节点",
                    "jump host chain contains a self-reference or duplicate",
                    false,
                ),
            );
        }
        unique.push(jump_id.to_owned());
        assert(unique.deep_view() =~= jumps.take(i + 1));
        if connection_index(connections, jump_id).is_none() {
            return Err(AppError::asset_not_found("jump-host", jump_id));
        }
        proof {
            lemma_find(view, jump_id@);
        }
        let mut visited: Vec<String> = Vec::new();
        if jump_reaches(connections, jump_id, connection_id, &mut visited) {
            return Err(
                AppError::ssh(
                    "JUMP-HOST-CYCLE",
                    "跳板链存在循环引用",
                    "jump host graph contains a cycle",
                    false,
                ),
            );
        }
        i = i + 1;
    }
    Ok(())
}

/// The error for a saved chain that comes back to a connection on it.
pub open spec fn saved_cycle_error() -> ErrorView {
    error::ssh_error(
        "JUMP-HOST-CYCLE"@,
        "跳板链存在循环引用"@,
        "persisted jump host graph contains a cycle"@,
        false,
    )
}

/// The way to the connection at place `at`, added to `route`: each host that it
/// jumps through, after the way to that host, where it is not on the route yet.
/// `visiting` holds the connections whose way is being looked for.
pub open spec fn walk(
    connections: Seq<ConnectionProfileView>,
    at: int,
    visiting: Seq<Seq<char>>,
    route: Seq<Seq<char>>,
) -> Result<Seq<Seq<char>>, ErrorView>
    decreases unseen(connections, visiting), 0int,
{
    if at < 0 || at >= connections.len() || visiting.contains(connections[at].id) {
        Err(saved_cycle_error())
    } else {
        let id = connections[at].id;
        proof {
            lemma_push_contains(visiting, id);
            lemma_unseen(connections, visiting, visiting.push(id));
        }
        walk_jumps(connections, connections[at].jump_host_ids, visiting.push(id), route)
    }
}

/// The way to each of `ids` and then the id itself, added to `route`.
pub open spec fn walk_jumps(
    connections: Seq<ConnectionProfileView>,
    ids: Seq<Seq<char>>,
    visiting: Seq<Seq<char>>,
    route: Seq<Seq<char>>,
) -> Result<Seq<Seq<char>>, ErrorView>
    decreases unseen(connections, visiting), ids.len() + 1,
{
    if ids.len() == 0 {
        Ok(route)
    } else {
        match find_connection(connections, ids[0]) {
            None => Err(error::asset_not_found_error("jump-host"@, ids[0])),
            Some(at) => match walk(connections, at, visiting, route) {
                Err(error) => Err(error),
                Ok(longer) => walk_jumps(
                    connections,
                    ids.drop_first(),
                    visiting,
                    with_stop(longer, ids[0]),
                ),
            },
        }
    }
}

/// A route with one more stop, where it is not on it yet.
pub open spec fn with_stop(route: Seq<Seq<char>>, id: Seq<char>) -> Seq<Seq<char>> {
    if route.contains(id) {
        route
    } else {
        route.push(id)
    }
}

/// Adds the way to the connection at place `at` to `route`.
pub fn collect_route_profiles(
    connections: &Vec<ConnectionProfile>,
    at: usize,
    visiting: &mut Vec<String>,
    route: &mut Vec<String>,
) -> (r: Result<(), AppError>)
    requires
        at < connections@.len(),
    ensures
        match r {
            Ok(()) => walk(
                connections.deep_view(),
                at as int,
                old(visiting).deep_view(),
                old(route).deep_view(),
            ) == Ok::<_, ErrorView>(final(route).deep_view()) && final(visiting).deep_view() == old(
                visiting,
            ).deep_view(),
            Err(e) => walk(
                connections.deep_view(),
                at as int,
                old(visiting).deep_view(),
                old(route).deep_view(),
            ) == Err::<Seq<Seq<char>>, _>(e@),
        },
    decreases unseen(connections.deep_view(), old(visiting).deep_view()),
{
    let ghost view = connections.deep_view();
    let ghost before = visiting.deep_view();
    let ghost start = route.deep_view();
    assert(view[at as int] == connections@[at as int]@);
    if list_has(visiting, connections[at].id.as_str()) {
        return Err(
            AppError::ssh(
                "JUMP-HOST-CYCLE",
                "跳板链存在循环引用",
                "persisted jump host graph contains a cycle",
                false,
            ),
        );
    }
    visiting.push(connections[at].id.clone());
    let ghost id = view[at as int].id;
    let ghost jumps = view[at as int].jump_host_ids;
    let ghost stack = before.push(id);
    proof {
        assert(visiting.deep_view() =~= stack);
        lemma_push_contains(before, id);
        lemma_unseen(view, before, stack);
        assert(jumps.skip(0) =~= jumps);
    }
    let mut i: usize = 0;
    while i < connections[at].jump_host_ids.len()
        invariant
            i <= jumps.len(),
            visiting.deep_view() == stack,
            walk_jumps(view, jumps, stack, start) == walk_jumps(
                view,
                jumps.skip(i as int),
                stack,
                route.deep_view(),
            ),
        decreases jumps.len() - i,
    {
        let jump_id = connections[at].jump_host_ids[i].as_str();
        proof {
            assert(jump_id@ == jumps[i as int]);
            assert(jumps.skip(i as int)[0] == jump_id@);
            assert(jumps.skip(i as int).drop_first() =~= jumps.skip(i + 1));
        }
        match connection_index(connections, jump_id) {
            None => {
                return Err(AppError::asset_not_found("jump-host", jump_id));
            },
            Some(next) => {
                collect_route_profiles(connections, next, visiting, route)?;
                let ghost longer = route.deep_view();
                if !list_has(route, jump_id) {
                    route.push(jump_id.to_owned());
                    assert(route.deep_view() =~= longer.push(jump_id@));
                }
            },
        }
        i = i + 1;
    }
    proof {
        assert(jumps.skip(i as int) =~= Seq::empty());
    }
    let ghost full = visiting@;
    let _ = visiting.pop();
    proof {
        assert forall|j: int| 0 <= j < before.len() implies visiting.deep_view()[j] == before[j] by {
            assert(full[j].deep_view() == stack[j]);
        }
        assert(visiting.deep_view() =~= before);
    }
    Ok(())
}

/// Whether every host on the route stands behind all that it jumps through.
pub open spec fn in_order(connections: Seq<ConnectionProfileView>, route: Seq<Seq<char>>) -> bool {
    forall|k: int, b: Seq<char>|
        0 <= k < route.len() && #[trigger] jumps_through(connections, #[trigger] route[k], b)
            ==> route.take(k).contains(b)
}

/// What every route keeps: it grows at its end, no host stands on it twice, each
/// stands behind those that it jumps through, none of the connections whose way
/// is being looked for comes on it, and what comes on it is reached by jumps.
pub open spec fn route_grows(
    connections: Seq<ConnectionProfileView>,
    roots: Seq<Seq<char>>,
    visiting: Seq<Seq<char>>,
    route: Seq<Seq<char>>,
    longer: Seq<Seq<char>>,
) -> bool {
    &&& route.is_prefix_of(longer)
    &&& longer.no_duplicates()
    &&& in_order(connections, longer)
    &&& forall|v: Seq<char>|
        visiting.contains(v) && !route.contains(v) ==> !#[trigger] longer.contains(v)
    &&& forall|x: Seq<char>|
        #[trigger] longer.contains(x) && !route.contains(x) ==> exists|a: Seq<char>| #[trigger]
            roots.contains(a) && reaches(connections, a, x)
}

/// A route with one more stop keeps its order.
proof fn lemma_with_stop(
    connections: Seq<ConnectionProfileView>,
    route: Seq<Seq<char>>,
    id: Seq<char>,
)
    requires
        route.no_duplicates(),
        in_order(connections, route),
        forall|b: Seq<char>| #[trigger] jumps_through(connections, id, b) ==> route.contains(b),
    ensures
        with_stop(route, id).no_duplicates(),
        in_order(connections, with_stop(route, id)),
        route.is_prefix_of(with_stop(route, id)),
        with_stop(route, id).contains(id),
        forall|x: Seq<char>|
            #[trigger] with_stop(route, id).contains(x) ==> route.contains(x) || x == id,
{
    if !route.contains(id) {
        let longer = route.push(id);
        lemma_push_contains(route, id);
        assert forall|k: int, b: Seq<char>|
            0 <= k < longer.len() && #[trigger] jumps_through(
                connections,
                #[trigger] longer[k],
                b,
            ) implies longer.take(k).contains(b) by {
            if k < route.len() {
                assert(longer[k] == route[k]);
                assert(longer.take(k) =~= route.take(k));
            } else {
                assert(longer.take(k) =~= route);
            }
        }
        assert(longer.no_duplicates()) by {
            assert forall|i: int, j: int|
                0 <= i < longer.len() && 0 <= j < longer.len() && i != j implies longer[i]
                != longer[j] by {
                if i == route.len() {
                    assert(route[j] == longer[j]);
                } else if j == route.len() {
                    assert(route[i] == longer[i]);
                } else {
                    assert(route[i] == longer[i] && route[j] == longer[j]);
                }
            }
        }
    }
}

/// The way to a connection keeps what every route keeps, and holds all that the
/// connection jumps through.
pub proof fn lemma_walk(
    connections: Seq<ConnectionProfileView>,
    at: int,
    visiting: Seq<Seq<char>>,
    route: Seq<Seq<char>>,
)
    requires
        0 <= at < connections.len(),
        find_connection(connections, connections[at].id) == Some(at),
        route.no_duplicates(),
        in_order(connections, route),
    ensures
        walk(connections, at, visiting, route) matches Ok(longer) ==> {
            &&& route_grows(connections, seq![connections[at].id], visiting, route, longer)
            &&& !visiting.contains(connections[at].id)
            &&& forall|b: Seq<char>| #[trigger]
                jumps_through(connections, connections[at].id, b) ==> longer.contains(b)
        },
    decreases unseen(connections, visiting), 0int,
{
    let id = connections[at].id;
    if !visiting.contains(id) {
        let stack = visiting.push(id);
        let jumps = connections[at].jump_host_ids;
        lemma_push_contains(visiting, id);
        lemma_unseen(connections, visiting, stack);
        lemma_walk_jumps(connections, jumps, stack, route);
        if let Ok(longer) = walk(connections, at, visiting, route) {
            assert(jumps_of(connections, id) == jumps);
            assert forall|x: Seq<char>|
                #[trigger] longer.contains(x) && !route.contains(x) implies exists|
                a: Seq<char>,
            | #[trigger]
                seq![id].contains(a) && reaches(connections, a, x) by {
                let a = choose|a: Seq<char>| #[trigger]
                    jumps.contains(a) && reaches(connections, a, x);
                assert(jumps_through(connections, id, a));
                lemma_longer(connections, id, a, x);
                assert(seq![id][0] == id);
                assert(seq![id].contains(id));
            }
        }
    }
}

/// The way to each of several hosts keeps what every route keeps, and holds them.
pub proof fn lemma_walk_jumps(
    connections: Seq<ConnectionProfileView>,
    ids: Seq<Seq<char>>,
    visiting: Seq<Seq<char>>,
    route: Seq<Seq<char>>,
)
    requires
        route.no_duplicates(),
        in_order(connections, route),
    ensures
        walk_jumps(connections, ids, visiting, route) matches Ok(longer) ==> {
            &&& route_grows(connections, ids, visiting, route, longer)
            &&& forall|b: Seq<char>| #[trigger] ids.contains(b) ==> longer.contains(b)
        },
    decreases unseen(connections, visiting), ids.len() + 1,
{
    if ids.len() > 0 {
        let id = ids[0];
        let rest = ids.drop_first();
        lemma_find(connections, id);
        assert(ids.contains(id));
        if let Some(at) = find_connection(connections, id) {
            lemma_walk(connections, at, visiting, route);
            if let Ok(middle) = walk(connections, at, visiting, route) {
                let stop = with_stop(middle, id);
                lemma_with_stop(connections, middle, id);
                lemma_walk_jumps(connections, rest, visiting, stop);
                if let Ok(longer) = walk_jumps(connections, ids, visiting, route) {
                    lemma_prefix_contains(route, middle);
                    lemma_prefix_contains(middle, stop);
                    lemma_prefix_contains(stop, longer);
                    assert(route.is_prefix_of(longer)) by {
                        assert(route.is_prefix_of(stop));
                    }
                    assert forall|v: Seq<char>|
                        visiting.contains(v) && !route.contains(v) implies !#[trigger] longer.contains(
                        v,
                    ) by {
                        assert(!middle.contains(v));
                        assert(!stop.contains(v));
                    }
                    assert forall|x: Seq<char>|
                        #[trigger] longer.contains(x) && !route.contains(x) implies exists|
                        a: Seq<char>,
                    | #[trigger]
                        ids.contains(a) && reaches(connections, a, x) by {
                        if middle.contains(x) {
                            let a = choose|a: Seq<char>| #[trigger]
                                seq![id].contains(a) && reaches(connections, a, x);
                            assert(a == id);
                            assert(ids.contains(id) && reaches(connections, id, x));
                        } else if x == id {
                            let path = seq![id];
                            assert(is_path(connections, path));
                            assert(path.first() == id && path.last() == id);
                            assert(ids.contains(id) && reaches(connections, id, id));
                        } else {
                            assert(!stop.contains(x));
                            let a = choose|a: Seq<char>| #[trigger]
                                rest.contains(a) && reaches(connections, a, x);
                            let k = choose|k: int| 0 <= k < rest.len() && rest[k] == a;
                            assert(ids[k + 1] == a);
                            assert(ids.contains(a) && reaches(connections, a, x));
                        }
                    }
                    assert forall|b: Seq<char>| #[trigger] ids.contains(b) implies longer.contains(
                        b,
                    ) by {
                        let k = choose|k: int| 0 <= k < ids.len() && ids[k] == b;
                        if k > 0 {
                            assert(rest[k - 1] == b);
                            assert(rest.contains(b));
                        } else {
                            assert(stop.contains(b));
                        }
                    }
                }
            }
        }
    } else {
        assert(route.is_prefix_of(route));
    }
}

/// The route to a saved connection: no host stands on it twice, each host stands
/// behind all that it jumps through, everything on it is reached from the
/// connection by jumps, all that the connection jumps through is on it, and the
/// connection itself is not.
pub proof fn route_is_sound(connections: Seq<ConnectionProfileView>, at: int)
    requires
        0 <= at < connections.len(),
        find_connection(connections, connections[at].id) == Some(at),
    ensures
        walk(connections, at, Seq::empty(), Seq::empty()) matches Ok(route) ==> {
            &&& route.no_duplicates()
            &&& in_order(connections, route)
            &&& !route.contains(connections[at].id)
            &&& forall|x: Seq<char>| #[trigger]
                route.contains(x) ==> reaches(connections, connections[at].id, x)
            &&& forall|x: Seq<char>| #[trigger]
                jumps_through(connections, connections[at].id, x) ==> route.contains(x)
        },
{
    let none = Seq::<Seq<char>>::empty();
    let id = connections[at].id;
    let jumps = connections[at].jump_host_ids;
    lemma_walk(connections, at, none, none);
    assert(none.push(id)[0] == id);
    lemma_push_contains(none, id);
    lemma_unseen(connections, none, none.push(id));
    lemma_walk_jumps(connections, jumps, none.push(id), none);
    if let Ok(route) = walk(connections, at, none, none) {
        assert(!none.contains(id));
        assert(none.push(id).contains(id));
        assert(!route.contains(id));
        assert forall|x: Seq<char>| #[trigger] route.contains(x) implies reaches(
            connections,
            id,
            x,
        ) by {
            assert(!none.contains(x));
            let a = choose|a: Seq<char>| #[trigger]
                seq![id].contains(a) && reaches(connections, a, x);
            assert(a == id);
        }
    }
}

/// Everything that jumps lead to from a connection is on its route.
pub proof fn route_is_complete(connections: Seq<ConnectionProfileView>, at: int, x: Seq<char>)
    requires
        0 <= at < connections.len(),
        find_connection(connections, connections[at].id) == Some(at),
        reaches(connections, connections[at].id, x),
        x != connections[at].id,
    ensures
        walk(connections, at, Seq::empty(), Seq::empty()) matches Ok(route) ==> route.contains(x),
{
    route_is_sound(connections, at);
    if let Ok(route) = walk(connections, at, Seq::empty(), Seq::empty()) {
        let id = connections[at].id;
        let path = choose|path: Seq<Seq<char>>| #[trigger]
            is_path(connections, path) && path.first() == id && path.last() == x;
        lemma_on_route(connections, id, route, path, path.len() - 1);
    }
}

/// A path from a connection stays on the route behind its first step.
proof fn lemma_on_route(
    connections: Seq<ConnectionProfileView>,
    id: Seq<char>,
    route: Seq<Seq<char>>,
    path: Seq<Seq<char>>,
    k: int,
)
    requires
        in_order(connections, route),
        is_path(connections, path),
        path.first() == id,
        forall|b: Seq<char>| #[trigger] jumps_through(connections, id, b) ==> route.contains(b),
        0 <= k < path.len(),
    ensures
        k > 0 ==> route.contains(path[k]),
    decreases k,
{
    if k > 0 {
        lemma_on_route(connections, id, route, path, k - 1);
        assert(hop(connections, path, k - 1));
        assert(jumps_through(connections, path[k - 1], path[k]));
        if k > 1 {
            let i = choose|i: int| 0 <= i < route.len() && route[i] == path[k - 1];
            assert(jumps_through(connections, route[i], path[k]));
            let j = choose|j: int| 0 <= j < i && route.take(i)[j] == path[k];
            assert(route[j] == path[k]);
        }
    }
}

/// Whether every host that is jumped through exists.
pub open spec fn all_jumps_exist(connections: Seq<ConnectionProfileView>) -> bool {
    forall|a: Seq<char>, b: Seq<char>| #[trigger]
        jumps_through(connections, a, b) ==> has_connection(connections, b)
}

/// Whether nothing that jumps lead to from a connection comes back to itself.
pub open spec fn acyclic_from(connections: Seq<ConnectionProfileView>, id: Seq<char>) -> bool {
    forall|path: Seq<Seq<char>>| #[trigger]
        is_path(connections, path) && path.len() > 1 && reaches(connections, id, path.first())
            ==> path.first() != path.last()
}

/// Whether every host exists that is jumped through by what jumps lead to from a
/// connection.
pub open spec fn jumps_exist_from(connections: Seq<ConnectionProfileView>, id: Seq<char>) -> bool {
    forall|a: Seq<char>, b: Seq<char>| #[trigger]
        jumps_through(connections, a, b) && reaches(connections, id, a) ==> has_connection(
            connections,
            b,
        )
}

/// A connection has a route where nothing that jumps lead to from it comes back to
/// itself and every host on the way exists, whatever the other connections are.
pub proof fn route_exists(connections: Seq<ConnectionProfileView>, at: int)
    requires
        0 <= at < connections.len(),
        find_connection(connections, connections[at].id) == Some(at),
        acyclic_from(connections, connections[at].id),
        jumps_exist_from(connections, connections[at].id),
    ensures
        walk(connections, at, Seq::empty(), Seq::empty()) is Ok,
{
    lemma_walk_succeeds(connections, connections[at].id, at, Seq::empty(), Seq::empty());
}

/// The connections whose way is being looked for form a path from the start to the
/// next.
spec fn leads_to(
    connections: Seq<ConnectionProfileView>,
    start: Seq<char>,
    visiting: Seq<Seq<char>>,
    id: Seq<char>,
) -> bool {
    if visiting.len() == 0 {
        id == start
    } else {
        is_path(connections, visiting) && visiting.first() == start && jumps_through(
            connections,
            visiting.last(),
            id,
        )
    }
}

/// Jumps lead from the start of a path to everything on it.
proof fn lemma_path_reaches(
    connections: Seq<ConnectionProfileView>,
    path: Seq<Seq<char>>,
    k: int,
)
    requires
        is_path(connections, path),
        0 <= k < path.len(),
    ensures
        reaches(connections, path.first(), path[k]),
{
    let part = path.take(k + 1);
    assert(is_path(connections, part)) by {
        assert forall|j: int| 0 <= j < part.len() - 1 implies #[trigger] hop(connections, part, j) by {
            assert(hop(connections, path, j));
        }
    }
    assert(part.first() == path.first() && part.last() == path[k]);
}

proof fn lemma_walk_succeeds(
    connections: Seq<ConnectionProfileView>,
    start: Seq<char>,
    at: int,
    visiting: Seq<Seq<char>>,
    route: Seq<Seq<char>>,
)
    requires
        0 <= at < connections.len(),
        find_connection(connections, connections[at].id) == Some(at),
        acyclic_from(connections, start),
        jumps_exist_from(connections, start),
        leads_to(connections, start, visiting, connections[at].id),
    ensures
        walk(connections, at, visiting, route) is Ok,
    decreases unseen(connections, visiting), 0int,
{
    let id = connections[at].id;
    let stack = visiting.push(id);
    assert(is_path(connections, stack)) by {
        assert forall|k: int| 0 <= k < stack.len() - 1 implies #[trigger] hop(connections, stack, k) by {
            if k < visiting.len() - 1 {
                assert(hop(connections, visiting, k));
                assert(stack[k] == visiting[k] && stack[k + 1] == visiting[k + 1]);
            } else {
                assert(stack[k] == visiting.last());
            }
        }
    }
    assert(stack.first() == start);
    if visiting.contains(id) {
        let k = choose|k: int| 0 <= k < visiting.len() && visiting[k] == id;
        let cycle = stack.skip(k);
        assert(is_path(connections, cycle)) by {
            assert forall|j: int| 0 <= j < cycle.len() - 1 implies #[trigger] hop(
                connections,
                cycle,
                j,
            ) by {
                assert(hop(connections, stack, k + j));
                assert(cycle[j] == stack[k + j] && cycle[j + 1] == stack[k + j + 1]);
            }
        }
        lemma_path_reaches(connections, stack, k);
        assert(cycle.first() == cycle.last());
        assert(false);
    }
    lemma_push_contains(visiting, id);
    lemma_unseen(connections, visiting, stack);
    lemma_walk_jumps_succeeds(connections, start, connections[at].jump_host_ids, stack, route);
}

proof fn lemma_walk_jumps_succeeds(
    connections: Seq<ConnectionProfileView>,
    start: Seq<char>,
    ids: Seq<Seq<char>>,
    visiting: Seq<Seq<char>>,
    route: Seq<Seq<char>>,
)
    requires
        acyclic_from(connections, start),
        jumps_exist_from(connections, start),
        is_path(connections, visiting),
        visiting.first() == start,
        forall|b: Seq<char>| #[trigger]
            ids.contains(b) ==> jumps_through(connections, visiting.last(), b),
    ensures
        walk_jumps(connections, ids, visiting, route) is Ok,
    decreases unseen(connections, visiting), ids.len() + 1,
{
    if ids.len() > 0 {
        let id = ids[0];
        assert(ids.contains(id));
        assert(jumps_through(connections, visiting.last(), id));
        lemma_path_reaches(connections, visiting, visiting.len() - 1);
        lemma_find(connections, id);
        let at = find_connection(connections, id)->0;
        lemma_walk_succeeds(connections, start, at, visiting, route);
        let longer = walk(connections, at, visiting, route)->Ok_0;
        let rest = ids.drop_first();
        assert forall|b: Seq<char>| #[trigger] rest.contains(b) implies jumps_through(
            connections,
            visiting.last(),
            b,
        ) by {
            let k = choose|k: int| 0 <= k < rest.len() && rest[k] == b;
            assert(ids[k + 1] == b);
            assert(ids.contains(b));
        }
        lemma_walk_jumps_succeeds(connections, start, rest, visiting, with_stop(longer, id));
    }
}

/// Jump hosts are in order if and only if there are at most eight, none is the connection
/// itself or comes twice, each is a connection that is there, and none leads back to it.
pub proof fn sound_jump_hosts_are_accepted(
    connections: Seq<ConnectionProfileView>,
    id: Seq<char>,
    jumps: Seq<Seq<char>>,
)
    ensures
        jump_fault(connections, id, jumps) is None <==> {
            &&& jumps.len() <= 8
            &&& forall|i: int| 0 <= i < jumps.len() ==> sound_jump(connections, id, jumps, i)
        },
        jump_fault(connections, id, jumps) matches Some(error) ==> !error.retryable,
{
    lemma_sound_jumps(connections, id, jumps, 0);
}

/// Whether a jump host is in order: it is another connection that is there, did not come
/// before and does not lead back.
pub open spec fn sound_jump(
    connections: Seq<ConnectionProfileView>,
    id: Seq<char>,
    jumps: Seq<Seq<char>>,
    i: int,
) -> bool {
    &&& jumps[i] != id
    &&& forall|j: int| 0 <= j < i ==> #[trigger] jumps[j] != jumps[i]
    &&& has_connection(connections, jumps[i])
    &&& !reaches(connections, jumps[i], id)
}

/// Jump hosts from a place on are in order if and only if each is.
proof fn lemma_sound_jumps(
    connections: Seq<ConnectionProfileView>,
    id: Seq<char>,
    jumps: Seq<Seq<char>>,
    from: int,
)
    requires
        0 <= from <= jumps.len(),
    ensures
        jump_fault_from(connections, id, jumps, from) is None <==> forall|i: int|
            from <= i < jumps.len() ==> sound_jump(connections, id, jumps, i),
        jump_fault_from(connections, id, jumps, from) matches Some(error) ==> !error.retryable,
    decreases jumps.len() - from,
{
    if from < jumps.len() {
        lemma_sound_jumps(connections, id, jumps, from + 1);
        let front = jumps.take(from);
        if front.contains(jumps[from]) {
            let j = choose|j: int| 0 <= j < front.len() && front[j] == jumps[from];
            assert(jumps[j] == jumps[from]);
        } else {
            assert forall|j: int| 0 <= j < from implies #[trigger] jumps[j] != jumps[from] by {
                assert(front[j] == jumps[j]);
                assert(front.contains(front[j]));
            }
        }
        let rest = jump_fault_from(connections, id, jumps, from + 1);
        assert(jump_fault_from(connections, id, jumps, from) is None <==> sound_jump(
            connections,
            id,
            jumps,
            from,
        ) && rest is None);
    }
}

} // verus!
