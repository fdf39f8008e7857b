//! What holds of the saved data whatever is done with them.

use crate::asset_files::{self, FoundFileView, ImportIdsView, LoadStateView};
use crate::assets::{self, DEFAULT_GROUP_ID, MAX_RECENT_TARGETS};
use crate::connections::{self, CredentialReadsView, KeyFileView};
use crate::error::ErrorView;
use crate::jump;
use crate::lists::{self, HasId};
use crate::models::{
    AssetDocumentView, AuthType, ConnectionGroup, ConnectionGroupView, ConnectionProfile,
    ConnectionProfileView, GroupNameRequestView, ProxyProfileView, RecentTargetView,
    SaveConnectionRequestView, SaveTunnelRequestView, TunnelKind, TunnelProfile,
    TunnelProfileView, TunnelStartPolicy,
};
use crate::outside;
use crate::sort;
use crate::text;
use crate::vault::VaultEndingView;
use vstd::prelude::*;

verus! {

/// Whether no two items have the same id.
pub open spec fn ids_distinct<T: HasId>(list: Seq<T::V>) -> bool {
    forall|i: int, j: int|
        0 <= i < j < list.len() ==> T::id_of(#[trigger] list[i]) != T::id_of(#[trigger] list[j])
}

/// Whether no two groups have the same name, whatever the case of its letters.
pub open spec fn group_names_distinct(groups: Seq<ConnectionGroupView>) -> bool {
    forall|i: int, j: int|
        0 <= i < j < groups.len() ==> text::lower((#[trigger] groups[i]).name) != text::lower(
            (#[trigger] groups[j]).name,
        )
}

/// A group that is there stays there when one is added at the end.
proof fn lemma_pushed<T: HasId>(list: Seq<T::V>, item: T::V, id: Seq<char>)
    ensures
        lists::has_id::<T>(list.push(item), id) == (lists::has_id::<T>(list, id) || T::id_of(item) == id),
{
    let longer = list.push(item);
    if lists::has_id::<T>(list, id) {
        let i = choose|i: int| 0 <= i < list.len() && T::id_of(#[trigger] list[i]) == id;
        assert(longer[i] == list[i]);
    }
    if T::id_of(item) == id {
        assert(longer[list.len() as int] == item);
    }
    if lists::has_id::<T>(longer, id) {
        let i = choose|i: int| 0 <= i < longer.len() && T::id_of(#[trigger] longer[i]) == id;
        if i < list.len() {
            assert(list[i] == longer[i]);
        }
    }
}

/// Replacing an item by one with its id leaves the ids as they are.
proof fn lemma_replaced<T: HasId>(list: Seq<T::V>, at: int, item: T::V, id: Seq<char>)
    requires
        0 <= at < list.len(),
        T::id_of(item) == T::id_of(list[at]),
    ensures
        lists::has_id::<T>(list.update(at, item), id) == lists::has_id::<T>(list, id),
{
    let after = list.update(at, item);
    if lists::has_id::<T>(list, id) {
        let i = choose|i: int| 0 <= i < list.len() && T::id_of(#[trigger] list[i]) == id;
        assert(T::id_of(after[i]) == id);
    }
    if lists::has_id::<T>(after, id) {
        let i = choose|i: int| 0 <= i < after.len() && T::id_of(#[trigger] after[i]) == id;
        assert(T::id_of(list[i]) == id);
    }
}

/// Creating or renaming a group keeps the default group, and every connection in
/// a group that exists.
pub proof fn saving_group_keeps_settled(
    document: AssetDocumentView,
    request: GroupNameRequestView,
    new_id: Seq<char>,
    now: Seq<char>,
)
    requires
        asset_files::settled(document),
    ensures
        assets::group_saved(document, request, new_id, now) matches Ok((after, _)) ==> asset_files::settled(after),
{
    if let Ok((after, group)) = assets::group_saved(document, request, new_id, now) {
        let groups = document.groups;
        assert forall|id: Seq<char>| lists::has_id::<ConnectionGroup>(groups, id) implies #[trigger] lists::has_id::<
            ConnectionGroup,
        >(after.groups, id) by {
            match request.id {
                Some(own) => {
                    lists::lemma_place::<ConnectionGroup>(groups, own);
                    let at = lists::place_of::<ConnectionGroup>(groups, own);
                    lemma_replaced::<ConnectionGroup>(groups, at, group, id);
                },
                None => {
                    lemma_pushed::<ConnectionGroup>(groups, group, id);
                },
            }
        }
        assert(lists::has_id::<ConnectionGroup>(after.groups, DEFAULT_GROUP_ID@));
    }
}

/// No two groups get the same name, whatever the case of its letters.
pub proof fn saving_group_keeps_names_distinct(
    document: AssetDocumentView,
    request: GroupNameRequestView,
    new_id: Seq<char>,
    now: Seq<char>,
)
    requires
        group_names_distinct(document.groups),
        ids_distinct::<ConnectionGroup>(document.groups),
    ensures
        assets::group_saved(document, request, new_id, now) matches Ok((after, _)) ==> group_names_distinct(
            after.groups,
        ),
{
    if let Ok((after, group)) = assets::group_saved(document, request, new_id, now) {
        let groups = document.groups;
        match request.id {
            Some(own) => {
                lists::lemma_place::<ConnectionGroup>(groups, own);
                let at = lists::place_of::<ConnectionGroup>(groups, own);
                assert forall|i: int, j: int| 0 <= i < j < after.groups.len() implies text::lower(
                    (#[trigger] after.groups[i]).name,
                ) != text::lower((#[trigger] after.groups[j]).name) by {
                    if i == at {
                        assert(groups[j].id != groups[at].id);
                    } else if j == at {
                        assert(groups[i].id != groups[at].id);
                    } else {
                        assert(groups[i] == after.groups[i] && groups[j] == after.groups[j]);
                    }
                }
            },
            None => {
                assert forall|i: int, j: int| 0 <= i < j < after.groups.len() implies text::lower(
                    (#[trigger] after.groups[i]).name,
                ) != text::lower((#[trigger] after.groups[j]).name) by {
                    assert(groups[i] == after.groups[i]);
                    if j < groups.len() {
                        assert(groups[j] == after.groups[j]);
                    }
                }
            },
        }
    }
}

/// Deleting a group moves its connections to the default group, which stays:
/// every connection is in a group that exists, none is in the one that was
/// deleted, and those of other groups are as they were.
pub proof fn deleting_group_moves_connections(
    document: AssetDocumentView,
    id: Seq<char>,
    now: Seq<char>,
)
    requires
        asset_files::settled(document),
    ensures
        assets::group_deleted(document, id, now) matches Ok((after, _)) ==> {
            &&& asset_files::settled(after)
            &&& !lists::has_id::<ConnectionGroup>(after.groups, id)
            &&& after.connections.len() == document.connections.len()
            &&& forall|i: int|
                0 <= i < after.connections.len() ==> {
                    &&& (#[trigger] after.connections[i]).group_id != id
                    &&& document.connections[i].group_id == id ==> after.connections[i].group_id
                        == DEFAULT_GROUP_ID@
                    &&& document.connections[i].group_id != id ==> after.connections[i]
                        == document.connections[i]
                }
        },
{
    if let Ok((after, _)) = assets::group_deleted(document, id, now) {
        lists::lemma_others::<ConnectionGroup>(document.groups, id);
        assert forall|i: int| 0 <= i < after.connections.len() implies lists::has_id::<ConnectionGroup>(
            after.groups,
            (#[trigger] after.connections[i]).group_id,
        ) by {
            assert(lists::has_id::<ConnectionGroup>(document.groups, document.connections[i].group_id));
        }
    }
}

/// The default group can be neither renamed nor deleted.
pub proof fn default_group_is_fixed(
    document: AssetDocumentView,
    name: Seq<char>,
    new_id: Seq<char>,
    now: Seq<char>,
)
    ensures
        assets::group_saved(
            document,
            GroupNameRequestView { id: Some(DEFAULT_GROUP_ID@), name },
            new_id,
            now,
        ) is Err,
        assets::group_deleted(document, DEFAULT_GROUP_ID@, now) is Err,
{
}

/// Saving a connection that was checked keeps every connection in a group that
/// exists.
pub proof fn saving_connection_keeps_settled(
    document: AssetDocumentView,
    request: SaveConnectionRequestView,
    key_file: KeyFileView,
    new_id: Seq<char>,
    now: Seq<char>,
)
    requires
        asset_files::settled(document),
    ensures
        connections::save_begins(document, request, key_file, new_id) matches Ok(reads) ==> asset_files::settled(
            connections::with_connection(
                document,
                connections::saved_profile(request, connections::existing(document, reads.id), reads.id, now),
            ),
        ),
{
    if let Ok(reads) = connections::save_begins(document, request, key_file, new_id) {
        let profile = connections::saved_profile(request, connections::existing(document, reads.id), reads.id, now);
        let after = connections::with_connection(document, profile);
        let kept = lists::others::<ConnectionProfile>(document.connections, reads.id);
        lists::lemma_others::<ConnectionProfile>(document.connections, reads.id);
        assert forall|i: int| 0 <= i < after.connections.len() implies lists::has_id::<ConnectionGroup>(
            after.groups,
            (#[trigger] after.connections[i]).group_id,
        ) by {
            if i < kept.len() {
                assert(kept.contains(kept[i]));
                let j = choose|j: int|
                    0 <= j < document.connections.len() && document.connections[j] == kept[i];
                assert(after.connections[i] == document.connections[j]);
            }
        }
    }
}

/// A copy of a connection has no saved credential, its name has at most
/// sixty-four characters, and the connections that were there stay as they were.
pub proof fn copy_is_apart(
    document: AssetDocumentView,
    id: Seq<char>,
    new_id: Seq<char>,
    now: Seq<char>,
)
    ensures
        assets::connection_copied(document, id, new_id, now) matches Ok((after, copy)) ==> {
            &&& copy.id == new_id
            &&& copy.credential_ref is None
            &&& copy.proxy matches Some(proxy) ==> proxy.credential_ref is None
            &&& copy.name.len() <= 64
            &&& after.connections == document.connections.push(copy)
        },
{
    if let Ok((after, copy)) = assets::connection_copied(document, id, new_id, now) {
        let source = document.connections[lists::place_of::<ConnectionProfile>(document.connections, id)];
        lemma_copy_name(source.name, document.connections, 1);
    }
}

/// The name of a copy is short enough, and free unless all that are tried are
/// taken.
proof fn lemma_copy_name(name: Seq<char>, connections: Seq<ConnectionProfileView>, n: int)
    requires
        1 <= n <= 1000,
    ensures
        assets::free_copy_name(name, connections, n).len() <= 64,
        assets::name_taken(connections, assets::free_copy_name(name, connections, n)) ==> forall|k: int|
            n <= k <= 999 ==> assets::name_taken(connections, #[trigger] assets::copy_name(name, k)),
    decreases 1000 - n,
{
    reveal_strlit(" - 副本");
    reveal_strlit(" - ");
    reveal_strlit("副本");
    reveal_strlit("副本 ");
    if n <= 999 {
        lemma_decimal_length(n as nat);
        assert(assets::copy_suffix(n).len() <= 64);
        lemma_copy_name(name, connections, n + 1);
        if assets::name_taken(connections, assets::copy_name(name, n)) {
            assert forall|k: int|
                n <= k <= 999 && assets::name_taken(
                    connections,
                    assets::free_copy_name(name, connections, n),
                ) implies assets::name_taken(connections, #[trigger] assets::copy_name(name, k)) by {
                if k > n {
                    assert(assets::free_copy_name(name, connections, n) == assets::free_copy_name(
                        name,
                        connections,
                        n + 1,
                    ));
                }
            }
        }
    }
}

/// Numbers below a thousand have at most three digits.
proof fn lemma_decimal_length(n: nat)
    requires
        n < 1000,
    ensures
        text::decimal(n).len() <= 3,
{
    reveal_with_fuel(text::decimal, 4);
}

/// The names that are tried for a copy are different.
proof fn lemma_copy_names_differ(name: Seq<char>, j: int, k: int)
    requires
        1 <= j < k <= 999,
    ensures
        assets::copy_name(name, j) != assets::copy_name(name, k),
{
    reveal_strlit(" - ");
    reveal_strlit("副本");
    reveal_strlit("副本 ");
    let (a, b) = (assets::copy_name(name, j), assets::copy_name(name, k));
    let y = text::decimal(k as nat);
    text::lemma_decimal_digits(k as nat);
    assert(text::all_digits(y));
    assert(b.last() == y.last());
    assert('0' <= y[y.len() - 1] <= '9');
    if j == 1 {
        assert(a.last() == '本');
    } else {
        let x = text::decimal(j as nat);
        text::lemma_decimal_digits(j as nat);
        text::decimal_tells_apart(j as nat, k as nat);
        if a == b {
            let n = a.len() as int;
            assert(a[n - x.len() - 1] == ' ');
            assert(b[n - y.len() - 1] == ' ');
            if x.len() == y.len() {
                assert(a.subrange(n - x.len(), n) =~= x);
                assert(b.subrange(n - y.len(), n) =~= y);
            } else if x.len() < y.len() {
                let at = y.len() - x.len() - 1;
                assert(b[n - x.len() - 1] == y[at]);
                assert('0' <= y[at] <= '9');
            } else {
                let at = x.len() - y.len() - 1;
                assert(a[n - y.len() - 1] == x[at]);
                assert('0' <= x[at] <= '9');
            }
        }
    }
}

/// A copy takes a name that no connection has, as long as there are fewer
/// connections than names that are tried.
pub proof fn copy_name_is_free(name: Seq<char>, connections: Seq<ConnectionProfileView>)
    requires
        connections.len() < 999,
    ensures
        !assets::name_taken(connections, assets::free_copy_name(name, connections, 1)),
{
    lemma_copy_name(name, connections, 1);
    if assets::name_taken(connections, assets::free_copy_name(name, connections, 1)) {
        let tried = Seq::new(999, |i: int| assets::copy_name(name, i + 1));
        let taken = Seq::new(connections.len(), |i: int| connections[i].name);
        assert(tried.no_duplicates()) by {
            assert forall|i: int, j: int|
                0 <= i < tried.len() && 0 <= j < tried.len() && i != j implies tried[i] != tried[j] by {
                if i < j {
                    lemma_copy_names_differ(name, i + 1, j + 1);
                } else {
                    lemma_copy_names_differ(name, j + 1, i + 1);
                }
            }
        }
        tried.unique_seq_to_set();
        taken.lemma_cardinality_of_set();
        assert(tried.to_set().subset_of(taken.to_set())) by {
            assert forall|x: Seq<char>| tried.to_set().contains(x) implies taken.to_set().contains(
                x,
            ) by {
                let i = choose|i: int| 0 <= i < tried.len() && tried[i] == x;
                assert(assets::name_taken(connections, assets::copy_name(name, i + 1)));
                let k = choose|k: int|
                    0 <= k < connections.len() && (#[trigger] connections[k]).name == x;
                assert(taken[k] == x);
            }
        }
        vstd::set_lib::lemma_len_subset(tried.to_set(), taken.to_set());
    }
}

/// No two recent targets show the same.
pub open spec fn targets_distinct(targets: Seq<RecentTargetView>) -> bool {
    forall|i: int, j: int|
        0 <= i < j < targets.len() ==> (#[trigger] targets[i]).display_target != (
        #[trigger] targets[j]).display_target
}

/// What is left of the recent targets shows something else, and stays distinct.
proof fn lemma_other_targets(targets: Seq<RecentTargetView>, shown: Seq<char>)
    requires
        targets_distinct(targets),
    ensures
        targets_distinct(assets::other_targets(targets, shown)),
        forall|i: int|
            0 <= i < assets::other_targets(targets, shown).len() ==> (#[trigger] assets::other_targets(
                targets,
                shown,
            )[i]).display_target != shown && targets.contains(assets::other_targets(targets, shown)[i]),
    decreases targets.len(),
{
    if targets.len() > 0 {
        let rest = targets.drop_last();
        let last = targets.last();
        assert(targets_distinct(rest)) by {
            assert forall|i: int, j: int| 0 <= i < j < rest.len() implies (
            #[trigger] rest[i]).display_target != (#[trigger] rest[j]).display_target by {
                assert(rest[i] == targets[i] && rest[j] == targets[j]);
            }
        }
        lemma_other_targets(rest, shown);
        let kept = assets::other_targets(rest, shown);
        let all = assets::other_targets(targets, shown);
        assert forall|i: int| 0 <= i < all.len() implies (#[trigger] all[i]).display_target != shown
            && targets.contains(all[i]) by {
            if i < kept.len() {
                assert(all[i] == kept[i]);
                assert(rest.contains(kept[i]));
                let k = choose|k: int| 0 <= k < rest.len() && rest[k] == kept[i];
                assert(targets[k] == kept[i]);
            } else {
                assert(targets[targets.len() - 1] == all[i]);
            }
        }
        assert forall|i: int, j: int| 0 <= i < j < all.len() implies (
        #[trigger] all[i]).display_target != (#[trigger] all[j]).display_target by {
            if j < kept.len() {
                assert(all[i] == kept[i] && all[j] == kept[j]);
            } else {
                assert(all[i] == kept[i]);
                assert(rest.contains(kept[i]));
                let k = choose|k: int| 0 <= k < rest.len() && rest[k] == kept[i];
                assert(targets[k].display_target != targets[targets.len() - 1].display_target);
            }
        }
    }
}

/// There are at most ten recent targets once one is recorded, no two of them show
/// the same, and the one that was recorded comes first.
pub proof fn recent_targets_stay_few(
    document: AssetDocumentView,
    target: Seq<char>,
    now: Seq<char>,
)
    requires
        targets_distinct(document.recent_targets),
    ensures
        assets::target_recorded(document, target, now) matches Ok((after, _)) ==> {
            &&& 0 < after.recent_targets.len() <= MAX_RECENT_TARGETS
            &&& targets_distinct(after.recent_targets)
            &&& Ok::<Seq<char>, ErrorView>(after.recent_targets[0].display_target)
                == assets::masked_target(target)
            &&& after.recent_targets[0].last_used_at == now
        },
{
    if let Ok((after, _)) = assets::target_recorded(document, target, now) {
        let shown = assets::masked_target(target)->Ok_0;
        let kept = assets::other_targets(document.recent_targets, shown);
        lemma_other_targets(document.recent_targets, shown);
        let all = seq![RecentTargetView { display_target: shown, last_used_at: now }] + kept;
        assert(targets_distinct(all)) by {
            assert forall|i: int, j: int| 0 <= i < j < all.len() implies (
            #[trigger] all[i]).display_target != (#[trigger] all[j]).display_target by {
                assert(all[j] == kept[j - 1]);
                if i > 0 {
                    assert(all[i] == kept[i - 1]);
                }
            }
        }
        assert forall|i: int, j: int| 0 <= i < j < after.recent_targets.len() implies (
        #[trigger] after.recent_targets[i]).display_target != (
        #[trigger] after.recent_targets[j]).display_target by {
            assert(after.recent_targets[i] == all[i] && after.recent_targets[j] == all[j]);
        }
    }
}

/// What is shown of a target says no more of its host than its first three
/// characters: two targets that agree on these and on the user show the same.
pub proof fn masked_target_hides_host(a: Seq<char>, b: Seq<char>)
    requires
        assets::masked_target(a) is Ok,
        assets::masked_target(b) is Ok,
        ({
            let x = text::trim(a);
            let y = text::trim(b);
            let i = text::first_position(x, '@')->0;
            let j = text::first_position(y, '@')->0;
            &&& x.take(i) == y.take(j)
            &&& text::first_chars(x.skip(i + 1), 3) == text::first_chars(y.skip(j + 1), 3)
        }),
    ensures
        assets::masked_target(a) == assets::masked_target(b),
{
}

/// An export holds no reference to a saved credential and no recent target, and
/// is the same whatever the references are.
pub proof fn export_hides_references(document: AssetDocumentView)
    ensures
        assets::for_export(document).recent_targets.len() == 0,
        forall|i: int|
            0 <= i < assets::for_export(document).connections.len() ==> {
                &&& (#[trigger] assets::for_export(document).connections[i]).credential_ref is None
                &&& assets::for_export(document).connections[i].proxy matches Some(proxy)
                    ==> proxy.credential_ref is None
            },
        assets::for_export(assets::for_export(document)) == assets::for_export(document),
{
    let once = assets::for_export(document);
    let twice = assets::for_export(once);
    assert(twice.connections =~= once.connections);
    assert(twice.recent_targets =~= once.recent_targets);
}

/// A tunnel is saved only where its listening address stands for the machine
/// itself and it is no remote one, or where the user allowed the risk.
pub proof fn risky_tunnel_needs_consent(
    document: AssetDocumentView,
    request: SaveTunnelRequestView,
    loopback: bool,
    new_id: Seq<char>,
    now: Seq<char>,
)
    ensures
        assets::tunnel_saved(document, request, loopback, new_id, now) is Ok ==> request.allow_non_loopback
            || (loopback && request.kind != TunnelKind::Remote),
{
}

/// Every group of another file becomes a group that is there after the import,
/// and the groups that were there stay in front.
proof fn lemma_groups_taken_in(
    groups: Seq<ConnectionGroupView>,
    imported: Seq<ConnectionGroupView>,
    ids: Seq<Seq<char>>,
)
    ensures
        ({
            let after = asset_files::groups_taken_in(groups, imported, ids);
            &&& groups.is_prefix_of(after.groups)
            &&& forall|key: Seq<char>| #[trigger]
                after.became.contains_key(key) ==> lists::has_id::<ConnectionGroup>(
                    after.groups,
                    after.became[key],
                )
        }),
    decreases imported.len(),
{
    if imported.len() > 0 {
        let before = asset_files::groups_taken_in(groups, imported.drop_last(), ids);
        let group = imported.last();
        let new_id = ids[imported.len() - 1];
        let after = asset_files::groups_taken_in(groups, imported, ids);
        lemma_groups_taken_in(groups, imported.drop_last(), ids);
        lemma_group_named(before.groups, group.name);
        let added = ConnectionGroupView { id: new_id, ..group };
        assert forall|key: Seq<char>| #[trigger] after.became.contains_key(key) implies lists::has_id::<
            ConnectionGroup,
        >(after.groups, after.became[key]) by {
            let at = asset_files::group_named(before.groups, group.name);
            if group.id == DEFAULT_GROUP_ID@ {
            } else if at < before.groups.len() {
                if key == group.id {
                    assert(before.groups[at].id == after.became[key]);
                }
            } else {
                lemma_pushed::<ConnectionGroup>(before.groups, added, after.became[key]);
            }
        }
    }
}

/// What is in a prefix of the groups is in the groups.
proof fn lemma_prefix_has<T: HasId>(front: Seq<T::V>, all: Seq<T::V>, id: Seq<char>)
    requires
        front.is_prefix_of(all),
        lists::has_id::<T>(front, id),
    ensures
        lists::has_id::<T>(all, id),
{
    let i = choose|i: int| 0 <= i < front.len() && T::id_of(#[trigger] front[i]) == id;
    assert(all[i] == front[i]);
}

/// An import keeps the connections and groups that were there, gives no
/// connection a reference to a saved credential, and leaves every connection in a
/// group that exists.
pub proof fn import_keeps_settled(
    document: AssetDocumentView,
    imported: AssetDocumentView,
    ids: ImportIdsView,
)
    requires
        asset_files::settled(document),
    ensures
        ({
            let after = asset_files::document_imported(document, imported, ids);
            &&& asset_files::settled(after)
            &&& document.groups.is_prefix_of(after.groups)
            &&& document.connections.is_prefix_of(after.connections)
            &&& forall|i: int|
                document.connections.len() <= i < after.connections.len() ==> {
                    &&& (#[trigger] after.connections[i]).credential_ref is None
                    &&& after.connections[i].proxy matches Some(proxy) ==> proxy.credential_ref
                        is None
                }
        }),
{
    let after = asset_files::document_imported(document, imported, ids);
    let groups = asset_files::groups_taken_in(document.groups, imported.groups, ids.groups);
    lemma_groups_taken_in(document.groups, imported.groups, ids.groups);
    lemma_prefix_has::<ConnectionGroup>(document.groups, after.groups, DEFAULT_GROUP_ID@);
    assert forall|i: int| 0 <= i < after.connections.len() implies lists::has_id::<ConnectionGroup>(
        after.groups,
        (#[trigger] after.connections[i]).group_id,
    ) by {
        if i < document.connections.len() {
            assert(after.connections[i] == document.connections[i]);
            lemma_prefix_has::<ConnectionGroup>(
                document.groups,
                after.groups,
                document.connections[i].group_id,
            );
        } else {
            let source = imported.connections[i - document.connections.len()];
            if groups.became.contains_key(source.group_id) {
                assert(lists::has_id::<ConnectionGroup>(after.groups, groups.became[source.group_id]));
            }
        }
    }
}

/// An import gives no two connections the same id, where those that were there
/// have different ids, those of the other file do, and the new ids are new.
pub proof fn import_keeps_ids_distinct(
    document: AssetDocumentView,
    imported: AssetDocumentView,
    ids: ImportIdsView,
)
    requires
        ids_distinct::<ConnectionProfile>(document.connections),
        ids_distinct::<ConnectionProfile>(imported.connections),
        asset_files::ids_suffice(imported, ids),
        forall|i: int, j: int|
            0 <= i < j < ids.connections.len() ==> #[trigger] ids.connections[i]
                != #[trigger] ids.connections[j],
        forall|i: int|
            0 <= i < ids.connections.len() ==> !lists::has_id::<ConnectionProfile>(
                document.connections,
                #[trigger] ids.connections[i],
            ) && !lists::has_id::<ConnectionProfile>(imported.connections, ids.connections[i]),
    ensures
        ids_distinct::<ConnectionProfile>(asset_files::document_imported(document, imported, ids).connections),
{
    let after = asset_files::document_imported(document, imported, ids).connections;
    let known = document.connections;
    let n = known.len() as int;
    assert forall|i: int, j: int| 0 <= i < j < after.len() implies (#[trigger] after[i]).id != (
    #[trigger] after[j]).id by {
        if j < n {
            assert(after[i] == known[i] && after[j] == known[j]);
            assert(ConnectionProfile::id_of(known[i]) != ConnectionProfile::id_of(known[j]));
        } else {
            let b = imported.connections[j - n];
            let new_b = ids.connections[j - n];
            assert(after[j].id == asset_files::imported_id(known, b.id, new_b));
            assert(!lists::has_id::<ConnectionProfile>(known, new_b));
            if i < n {
                assert(after[i] == known[i]);
                assert(ConnectionProfile::id_of(known[i]) == after[i].id);
                assert(lists::has_id::<ConnectionProfile>(known, after[i].id));
            } else {
                let a = imported.connections[i - n];
                let new_a = ids.connections[i - n];
                assert(after[i].id == asset_files::imported_id(known, a.id, new_a));
                assert(ConnectionProfile::id_of(a) != ConnectionProfile::id_of(b));
                assert(new_a != new_b);
                assert(lists::has_id::<ConnectionProfile>(imported.connections, a.id)) by {
                    assert(ConnectionProfile::id_of(imported.connections[i - n]) == a.id);
                }
                assert(lists::has_id::<ConnectionProfile>(imported.connections, b.id)) by {
                    assert(ConnectionProfile::id_of(imported.connections[j - n]) == b.id);
                }
                assert(!lists::has_id::<ConnectionProfile>(imported.connections, new_a));
                assert(!lists::has_id::<ConnectionProfile>(imported.connections, new_b));
            }
        }
    }
}

/// Importing what was exported gives every connection a new id.
pub proof fn reimport_renews_ids(
    connections: Seq<ConnectionProfileView>,
    imported: Seq<ConnectionProfileView>,
)
    requires
        imported.len() <= connections.len(),
        forall|i: int|
            0 <= i < imported.len() ==> (#[trigger] imported[i]).id == connections[i].id,
    ensures
        asset_files::regenerated(connections, imported) == imported.len(),
    decreases imported.len(),
{
    if imported.len() > 0 {
        let rest = imported.drop_last();
        assert forall|i: int| 0 <= i < rest.len() implies (#[trigger] rest[i]).id
            == connections[i].id by {
            assert(rest[i] == imported[i]);
        }
        reimport_renews_ids(connections, rest);
        let last = imported.len() - 1;
        assert(ConnectionProfile::id_of(connections[last]) == imported[last].id);
        assert(lists::has_id::<ConnectionProfile>(connections, imported.last().id));
    }
}

/// A new id is never the id of the default group.
pub proof fn new_id_is_not_default(id: Seq<char>)
    requires
        outside::is_id_text(id),
    ensures
        id != DEFAULT_GROUP_ID@,
{
    reveal_strlit("default");
    assert(DEFAULT_GROUP_ID@.len() == 7);
}

/// Jump hosts that pass their check exist and do not lead back.
proof fn lemma_checked_jumps(
    connections: Seq<ConnectionProfileView>,
    id: Seq<char>,
    jumps: Seq<Seq<char>>,
    from: int,
)
    requires
        0 <= from,
        jump::jump_fault_from(connections, id, jumps, from) is None,
    ensures
        forall|k: int|
            from <= k < jumps.len() ==> jump::has_connection(connections, #[trigger] jumps[k])
                && !jump::reaches(connections, jumps[k], id),
    decreases jumps.len() - from,
{
    if from < jumps.len() {
        lemma_checked_jumps(connections, id, jumps, from + 1);
    }
}

/// Every connection from a place on has jump hosts that pass their check.
proof fn lemma_checked_connections(connections: Seq<ConnectionProfileView>, from: int, i: int)
    requires
        asset_files::jumps_fault(connections, from) is None,
        0 <= from <= i < connections.len(),
    ensures
        jump::jump_fault(connections, connections[i].id, connections[i].jump_host_ids) is None,
    decreases connections.len() - from,
{
    if from < i {
        lemma_checked_connections(connections, from + 1, i);
    }
}

/// A connection that was there is found where it was.
proof fn lemma_known_jumps(
    known: Seq<ConnectionProfileView>,
    all: Seq<ConnectionProfileView>,
    id: Seq<char>,
)
    requires
        known.is_prefix_of(all),
        jump::has_connection(known, id),
    ensures
        jump::jumps_of(all, id) == jump::jumps_of(known, id),
        jump::has_connection(all, id),
{
    jump::lemma_find(known, id);
    jump::lemma_find(all, id);
    let at = jump::find_connection(known, id)->0;
    assert(all[at] == known[at]);
    assert forall|j: int| 0 <= j < at implies (#[trigger] all[j]).id != id by {
        assert(all[j] == known[j]);
    }
    assert(jump::first_at(all, id, at));
}

/// Connections that are added and pass the check of their jump hosts make no cycle,
/// and leave no jump host missing.
proof fn lemma_added_connections(known: Seq<ConnectionProfileView>, all: Seq<ConnectionProfileView>)
    requires
        known.is_prefix_of(all),
        jump::acyclic(known),
        jump::all_jumps_exist(known),
        asset_files::jumps_fault(all, known.len() as int) is None,
    ensures
        jump::acyclic(all),
        jump::all_jumps_exist(all),
{
    assert forall|a: Seq<char>, b: Seq<char>| #[trigger]
        jump::jumps_through(all, a, b) implies jump::has_connection(all, b) by {
        lemma_added_jump(known, all, a, b);
    }
    assert forall|path: Seq<Seq<char>>| #[trigger]
        jump::is_path(all, path) && path.len() > 1 implies path.first() != path.last() by {
        let a = path.first();
        assert(jump::hop(all, path, 0));
        if path.first() == path.last() {
            if jump::has_connection(known, a) {
                lemma_path_stays(known, all, path, path.len() - 1);
                assert(jump::is_path(known, path)) by {
                    assert forall|k: int| 0 <= k < path.len() - 1 implies #[trigger] jump::hop(
                        known,
                        path,
                        k,
                    ) by {
                        assert(jump::hop(all, path, k));
                        assert(jump::has_connection(known, path[k]));
                        lemma_known_jumps(known, all, path[k]);
                    }
                }
            } else {
                let rest = path.drop_first();
                lemma_added_jump(known, all, a, path[1]);
                assert(jump::is_path(all, rest)) by {
                    assert forall|k: int| 0 <= k < rest.len() - 1 implies #[trigger] jump::hop(
                        all,
                        rest,
                        k,
                    ) by {
                        assert(jump::hop(all, path, k + 1));
                    }
                }
                assert(rest.first() == path[1] && rest.last() == a);
                assert(jump::reaches(all, path[1], a));
            }
        }
    }
}

/// A jump host of a connection exists, and where the connection was added, it does
/// not lead back.
proof fn lemma_added_jump(
    known: Seq<ConnectionProfileView>,
    all: Seq<ConnectionProfileView>,
    a: Seq<char>,
    b: Seq<char>,
)
    requires
        known.is_prefix_of(all),
        jump::all_jumps_exist(known),
        asset_files::jumps_fault(all, known.len() as int) is None,
        jump::jumps_through(all, a, b),
    ensures
        jump::has_connection(all, b),
        !jump::has_connection(known, a) ==> !jump::reaches(all, b, a),
        jump::has_connection(known, a) ==> jump::has_connection(known, b),
{
    if jump::has_connection(known, a) {
        lemma_known_jumps(known, all, a);
        assert(jump::jumps_through(known, a, b));
        lemma_known_jumps(known, all, b);
    } else {
        jump::lemma_find(all, a);
        let at = jump::find_connection(all, a)->0;
        if at < known.len() {
            assert(known[at] == all[at]);
        }
        lemma_checked_connections(all, known.len() as int, at);
        let jumps = all[at].jump_host_ids;
        lemma_checked_jumps(all, a, jumps, 0);
        let k = choose|k: int| 0 <= k < jumps.len() && jumps[k] == b;
        assert(jumps[k] == b);
    }
}

/// A path that begins among the connections that were there stays among them.
proof fn lemma_path_stays(
    known: Seq<ConnectionProfileView>,
    all: Seq<ConnectionProfileView>,
    path: Seq<Seq<char>>,
    n: int,
)
    requires
        known.is_prefix_of(all),
        jump::all_jumps_exist(known),
        asset_files::jumps_fault(all, known.len() as int) is None,
        jump::is_path(all, path),
        jump::has_connection(known, path.first()),
        0 <= n < path.len(),
    ensures
        forall|k: int| 0 <= k <= n ==> jump::has_connection(known, #[trigger] path[k]),
    decreases n,
{
    if n > 0 {
        lemma_path_stays(known, all, path, n - 1);
        assert(jump::has_connection(known, path[n - 1]));
        assert(jump::hop(all, path, n - 1));
        lemma_added_jump(known, all, path[n - 1], path[n]);
    }
}

/// An import makes no cycle of jump hosts and leaves none missing: where no saved
/// connection came back to itself before and every jump host existed, that holds
/// after it.
pub proof fn import_keeps_jumps(
    document: AssetDocumentView,
    imported: AssetDocumentView,
    ids: ImportIdsView,
    path: Seq<char>,
    loopback: Seq<bool>,
    allow_non_loopback: bool,
)
    requires
        jump::acyclic(document.connections),
        jump::all_jumps_exist(document.connections),
    ensures
        asset_files::import_outcome(document, imported, ids, path, loopback, allow_non_loopback) matches Ok(
            (after, _),
        ) ==> jump::acyclic(after.connections) && jump::all_jumps_exist(after.connections),
{
    if asset_files::import_outcome(document, imported, ids, path, loopback, allow_non_loopback) is Ok {
        let after = asset_files::document_imported(document, imported, ids);
        assert(document.connections.is_prefix_of(after.connections)) by {
            assert(after.connections.take(document.connections.len() as int)
                =~= document.connections);
        }
        lemma_added_connections(document.connections, after.connections);
    }
}

/// The connections of the other file are those that became something.
proof fn lemma_became(
    connections: Seq<ConnectionProfileView>,
    imported: Seq<ConnectionProfileView>,
    ids: Seq<Seq<char>>,
    key: Seq<char>,
)
    ensures
        asset_files::connections_became(connections, imported, ids).contains_key(key)
            ==> lists::has_id::<ConnectionProfile>(imported, key),
    decreases imported.len(),
{
    if imported.len() > 0 {
        let front = imported.drop_last();
        lemma_became(connections, front, ids, key);
        if lists::has_id::<ConnectionProfile>(front, key) {
            let i = choose|i: int|
                0 <= i < front.len() && ConnectionProfile::id_of(#[trigger] front[i]) == key;
            assert(ConnectionProfile::id_of(imported[i]) == key);
        } else if imported.last().id == key {
            assert(ConnectionProfile::id_of(imported[imported.len() - 1]) == key);
        }
    }
}

/// Tunnels that pass their check need no consent where they are taken in.
proof fn lemma_checked_tunnels(
    imported: AssetDocumentView,
    loopback: Seq<bool>,
    from: int,
    i: int,
)
    requires
        asset_files::tunnels_fault(imported, loopback, from) is None,
        0 <= from <= i < imported.tunnels.len(),
        lists::has_id::<ConnectionProfile>(
            imported.connections,
            imported.tunnels[i].connection_id,
        ),
    ensures
        !asset_files::is_risky(imported.tunnels[i], loopback[i]),
    decreases imported.tunnels.len() - from,
{
    if from < i {
        lemma_checked_tunnels(imported, loopback, from + 1, i);
    }
}

/// Whether a tunnel is one of the first `n` of another file, under the id that it got,
/// and needs no consent.
pub open spec fn needs_no_consent(
    imported: AssetDocumentView,
    loopback: Seq<bool>,
    tunnel: TunnelProfileView,
    n: int,
) -> bool {
    exists|i: int|
        0 <= i < n && (#[trigger] imported.tunnels[i]).kind == tunnel.kind
            && imported.tunnels[i].bind_host == tunnel.bind_host && !asset_files::is_risky(
            imported.tunnels[i],
            loopback[i],
        )
}

/// The first tunnels that are taken in need no consent.
proof fn lemma_tunnels_taken_in(
    document: AssetDocumentView,
    imported: AssetDocumentView,
    ids: ImportIdsView,
    loopback: Seq<bool>,
    n: int,
)
    requires
        asset_files::tunnels_fault(imported, loopback, 0) is None,
        0 <= n <= imported.tunnels.len(),
    ensures
        ({
            let became = asset_files::connections_became(
                document.connections,
                imported.connections,
                ids.connections,
            );
            let after = asset_files::tunnels_taken_in(
                document.tunnels,
                imported.tunnels.take(n),
                became,
                ids.tunnels,
            ).tunnels;
            &&& document.tunnels.is_prefix_of(after)
            &&& forall|j: int|
                document.tunnels.len() <= j < after.len() ==> needs_no_consent(
                    imported,
                    loopback,
                    #[trigger] after[j],
                    n,
                )
        }),
    decreases n,
{
    let became = asset_files::connections_became(
        document.connections,
        imported.connections,
        ids.connections,
    );
    let after = asset_files::tunnels_taken_in(
        document.tunnels,
        imported.tunnels.take(n),
        became,
        ids.tunnels,
    ).tunnels;
    if n > 0 {
        lemma_tunnels_taken_in(document, imported, ids, loopback, n - 1);
        let tunnel = imported.tunnels[n - 1];
        assert(imported.tunnels.take(n).drop_last() =~= imported.tunnels.take(n - 1));
        assert(imported.tunnels.take(n).last() == tunnel);
        let before = asset_files::tunnels_taken_in(
            document.tunnels,
            imported.tunnels.take(n - 1),
            became,
            ids.tunnels,
        ).tunnels;
        assert(before.is_prefix_of(after));
        assert forall|j: int| document.tunnels.len() <= j < after.len() implies needs_no_consent(
            imported,
            loopback,
            #[trigger] after[j],
            n,
        ) by {
            if j < before.len() {
                assert(after[j] == before[j]);
                assert(needs_no_consent(imported, loopback, before[j], n - 1));
                let i = choose|i: int|
                    0 <= i < n - 1 && (#[trigger] imported.tunnels[i]).kind == before[j].kind
                        && imported.tunnels[i].bind_host == before[j].bind_host
                        && !asset_files::is_risky(imported.tunnels[i], loopback[i]);
                assert(imported.tunnels[i].kind == after[j].kind);
            } else {
                lemma_became(
                    document.connections,
                    imported.connections,
                    ids.connections,
                    tunnel.connection_id,
                );
                lemma_checked_tunnels(imported, loopback, 0, n - 1);
                assert(imported.tunnels[n - 1].kind == after[j].kind);
            }
        }
    } else {
        assert(imported.tunnels.take(0) =~= Seq::empty());
    }
}

/// An import brings no tunnel in that needs the consent of the user and has it not:
/// where the user did not allow the risk, each that is added is no remote one, and its
/// listening address stands for the machine itself. The tunnels that were there stay.
pub proof fn imported_tunnels_need_consent(
    document: AssetDocumentView,
    imported: AssetDocumentView,
    ids: ImportIdsView,
    path: Seq<char>,
    loopback: Seq<bool>,
)
    ensures
        asset_files::import_outcome(document, imported, ids, path, loopback, false) matches Ok(
            (after, _),
        ) ==> document.tunnels.is_prefix_of(after.tunnels) && forall|j: int|
            document.tunnels.len() <= j < after.tunnels.len() ==> needs_no_consent(
                imported,
                loopback,
                #[trigger] after.tunnels[j],
                imported.tunnels.len() as int,
            ),
{
    if asset_files::import_outcome(document, imported, ids, path, loopback, false) is Ok {
        let n = imported.tunnels.len() as int;
        lemma_tunnels_taken_in(document, imported, ids, loopback, n);
        assert(imported.tunnels.take(n) =~= imported.tunnels);
    }
}

/// Where the user allowed the risk, no tunnel stands in the way of an import: it is
/// refused only for the fields or the jump hosts of a connection.
pub proof fn consent_admits_every_tunnel(
    document: AssetDocumentView,
    imported: AssetDocumentView,
    ids: ImportIdsView,
    path: Seq<char>,
    loopback: Seq<bool>,
)
    ensures
        asset_files::import_outcome(document, imported, ids, path, loopback, true) is Ok
            <==> asset_files::imports_fault(imported.connections, 0) is None
            && asset_files::jumps_fault(
            asset_files::document_imported(document, imported, ids).connections,
            document.connections.len() as int,
        ) is None,
{
}

/// A connection is saved as it was asked for: every field of the request, without blanks
/// around names, stands in the profile; what is empty is left out. It is found under its
/// id, in place of the one that had it, keeps when it was made and last used, and the other
/// connections stay.
pub proof fn saved_connections_are_as_asked(
    document: AssetDocumentView,
    request: SaveConnectionRequestView,
    id: Seq<char>,
    now: Seq<char>,
    other: Seq<char>,
)
    requires
        other != id,
    ensures
        ({
            let before = connections::existing(document, id);
            let profile = connections::saved_profile(request, before, id, now);
            let after = connections::with_connection(document, profile);
            &&& profile.id == id
            &&& profile.name == text::trim(request.name)
            &&& profile.host == text::trim(request.host)
            &&& profile.port == request.port
            &&& profile.username == text::trim(request.username)
            &&& profile.auth_type == request.auth_type
            &&& profile.jump_host_ids == request.jump_host_ids
            &&& profile.group_id == request.group_id
            &&& profile.timeout_seconds == request.timeout_seconds
            &&& profile.updated_at == now
            &&& match request.private_key_path {
                Some(path) => if path.len() > 0 {
                    profile.private_key_path == Some(path)
                } else {
                    profile.private_key_path is None
                },
                None => profile.private_key_path is None,
            }
            &&& match request.agent_key_fingerprint {
                Some(key) => if key.len() > 0 {
                    profile.agent_key_fingerprint == Some(key)
                } else {
                    profile.agent_key_fingerprint is None
                },
                None => profile.agent_key_fingerprint is None,
            }
            &&& match request.note {
                Some(note) => if text::trim(note).len() > 0 {
                    profile.note == Some(text::trim(note))
                } else {
                    profile.note is None
                },
                None => profile.note is None,
            }
            &&& match (request.proxy, profile.proxy) {
                (Some(asked), Some(saved)) => {
                    &&& saved.proxy_type == asked.proxy_type
                    &&& saved.host == text::trim(asked.host)
                    &&& saved.port == asked.port
                    &&& asked.username is None ==> saved.username is None
                    &&& asked.username matches Some(user) ==> (text::trim(user).len() > 0
                        ==> saved.username == Some(text::trim(user)))
                },
                (None, None) => true,
                _ => false,
            }
            &&& before matches Some(old) ==> profile.created_at == old.created_at
                && profile.last_connected_at == old.last_connected_at
            &&& before is None ==> profile.created_at == now && profile.last_connected_at is None
            &&& connections::existing(after, id) == Some(profile)
            &&& lists::has_id::<ConnectionProfile>(after.connections, other) == lists::has_id::<
                ConnectionProfile,
            >(document.connections, other)
            &&& forall|x: ConnectionProfileView|
                x.id != id ==> (#[trigger] after.connections.contains(x)
                    == document.connections.contains(x))
            &&& after.groups == document.groups
            &&& after.tunnels == document.tunnels
            &&& after.recent_targets == document.recent_targets
            &&& after.schema_version == document.schema_version
        }),
{
    let before = connections::existing(document, id);
    let profile = connections::saved_profile(request, before, id, now);
    let after = connections::with_connection(document, profile).connections;
    let kept = lists::others::<ConnectionProfile>(document.connections, id);
    lists::lemma_others::<ConnectionProfile>(document.connections, id);
    lemma_last_found::<ConnectionProfile>(kept, profile, id);
    lemma_pushed::<ConnectionProfile>(kept, profile, other);
    assert forall|x: ConnectionProfileView| x.id != id implies (#[trigger] after.contains(x)
        == document.connections.contains(x)) by {
        lemma_pushed_contains(kept, profile, x);
        assert(ConnectionProfile::id_of(x) == x.id);
        assert(kept.contains(x) <==> document.connections.contains(x) && ConnectionProfile::id_of(x)
            != id);
    }
}

/// What is put behind a list that lacks its id is the first with that id.
proof fn lemma_last_found<T: HasId>(list: Seq<T::V>, item: T::V, id: Seq<char>)
    requires
        T::id_of(item) == id,
        !lists::has_id::<T>(list, id),
    ensures
        lists::has_id::<T>(list.push(item), id),
        lists::place_of::<T>(list.push(item), id) == list.len(),
{
    let after = list.push(item);
    let n = list.len() as int;
    assert(T::id_of(after[n]) == id);
    assert forall|j: int| 0 <= j < n implies T::id_of(#[trigger] after[j]) != id by {
        assert(after[j] == list[j]);
        assert(T::id_of(list[j]) != id);
    }
    assert(lists::is_first::<T>(after, id, n));
    lists::lemma_place::<T>(after, id);
}

/// A longer list holds what the shorter held and the last.
proof fn lemma_pushed_contains<A>(list: Seq<A>, item: A, x: A)
    ensures
        list.push(item).contains(x) <==> list.contains(x) || x == item,
{
    let after = list.push(item);
    if list.contains(x) {
        let i = choose|i: int| 0 <= i < list.len() && list[i] == x;
        assert(after[i] == x);
    }
    if x == item {
        assert(after[list.len() as int] == x);
    }
    if after.contains(x) && x != item {
        let i = choose|i: int| 0 <= i < after.len() && after[i] == x;
        assert(list[i] == x);
    }
}

/// A request to save a connection is accepted if and only if its fields are within their
/// limits, its key file can be read where it logs in by one, its group is there, a
/// connection that is changed is there, and its jump hosts are in order.
pub proof fn connections_within_limits_are_saved(
    document: AssetDocumentView,
    request: SaveConnectionRequestView,
    key_file: KeyFileView,
    new_id: Seq<char>,
)
    ensures
        ({
            let id = match request.id {
                Some(id) => id,
                None => new_id,
            };
            &&& connections::save_begins(document, request, key_file, new_id) is Ok <==> {
                &&& 1 <= text::trim(request.name).len() <= 64
                &&& good_host(request.host)
                &&& 1 <= text::trim(request.username).len() <= 128
                &&& request.note matches Some(note) ==> note.len() <= 500
                &&& 5 <= request.timeout_seconds <= 60
                &&& request.proxy matches Some(proxy) ==> {
                    &&& good_host(proxy.host)
                    &&& proxy.username matches Some(user) ==> good_host(user)
                }
                &&& request.auth_type == AuthType::PrivateKey ==> key_file is File
                &&& lists::has_id::<ConnectionGroup>(document.groups, request.group_id)
                &&& request.id matches Some(own) ==> lists::has_id::<ConnectionProfile>(
                    document.connections,
                    own,
                )
                &&& jump::jump_fault(document.connections, id, request.jump_host_ids) is None
            }
            &&& connections::save_begins(document, request, key_file, new_id) matches Ok(reads)
                ==> reads.id == id && match connections::existing(document, id) {
                Some(old) => reads.reference == old.credential_ref && (old.proxy matches Some(proxy)
                    ==> reads.proxy_reference == proxy.credential_ref) && (old.proxy is None
                    ==> reads.proxy_reference is None),
                None => reads.reference is None && reads.proxy_reference is None,
            }
        }),
{
}

/// Whether a host can be meant: it is not blank, has at most 255 bytes and stays on a line.
pub open spec fn good_host(host: Seq<char>) -> bool {
    text::trim(host).len() > 0 && text::utf8_len(host) <= 255 && !text::breaks_line(host)
}

/// A secret is remembered if and only if the user asked for it and logs in by one, and that
/// of a proxy if and only if the user asked for it and the proxy has a user. Where one is to
/// be remembered and none was entered or is known, saving is refused.
pub proof fn secrets_are_remembered_on_request(
    request: SaveConnectionRequestView,
    reads: CredentialReadsView,
    secret: Option<Seq<char>>,
    proxy_secret: Option<Seq<char>>,
)
    ensures
        connections::new_reference(request, reads.id) is Some <==> request.remember_credential && (
        request.auth_type == AuthType::Password || request.auth_type == AuthType::PrivateKey),
        connections::new_proxy_reference(request, reads.id) is Some <==> (
        request.proxy matches Some(proxy) && proxy.remember_credential && proxy.username is Some),
        connections::new_reference(request, reads.id) is None || (
        request.secret matches Some(entered) && entered.len() > 0) || reads.reference
            == connections::new_reference(request, reads.id) <==> connections::save_plan(
            request,
            reads,
            secret,
            proxy_secret,
        ) is Ok,
        connections::save_plan(request, reads, secret, proxy_secret) matches Err(error)
            ==> error.code == "CREDENTIAL-REQUIRED"@,
        connections::save_plan(request, reads, secret, proxy_secret) matches Ok(plan)
            ==> match plan.ending {
            VaultEndingView::Refuse { error, .. } => {
                &&& error.code == "PROXY-CREDENTIAL-REQUIRED"@
                &&& connections::new_proxy_reference(request, reads.id) is Some
                &&& reads.proxy_reference != connections::new_proxy_reference(request, reads.id)
                &&& !(request.proxy matches Some(proxy) && (proxy.password matches Some(entered)
                    && entered.len() > 0))
            },
            _ => true,
        },
{
}

/// A connection can be deleted if and only if it is there, no other goes over it, and it
/// has no tunnels; it is gone afterwards, and all else stays.
pub proof fn unused_connections_are_deleted(document: AssetDocumentView, id: Seq<char>)
    ensures
        connections::delete_begins(document, id) is Ok <==> {
            &&& lists::has_id::<ConnectionProfile>(document.connections, id)
            &&& forall|i: int|
                0 <= i < document.connections.len() && (#[trigger] document.connections[i]).id != id
                    ==> !document.connections[i].jump_host_ids.contains(id)
            &&& forall|i: int|
                0 <= i < document.tunnels.len() ==> (#[trigger] document.tunnels[i]).connection_id
                    != id
        },
        connections::delete_begins(document, id) matches Ok(reads) ==> reads.id == id,
        ({
            let after = connections::without_connection(document, id);
            &&& !lists::has_id::<ConnectionProfile>(after.connections, id)
            &&& forall|x: ConnectionProfileView|
                x.id != id ==> (#[trigger] after.connections.contains(x)
                    == document.connections.contains(x))
            &&& after.groups == document.groups
            &&& after.tunnels == document.tunnels
            &&& after.recent_targets == document.recent_targets
        }),
{
    lists::lemma_others::<ConnectionProfile>(document.connections, id);
    let kept = lists::others::<ConnectionProfile>(document.connections, id);
    assert forall|x: ConnectionProfileView| x.id != id implies (#[trigger] kept.contains(x)
        == document.connections.contains(x)) by {
        assert(ConnectionProfile::id_of(x) == x.id);
    }
}

/// A group is saved under its name without blanks around it if and only if the name has 1
/// to 64 characters and no other group has it, in whatever case; one that is renamed must be
/// there and is not the default group. It keeps its id and its time of making, and the other
/// groups and everything else stay.
pub proof fn groups_are_saved_as_asked(
    document: AssetDocumentView,
    request: GroupNameRequestView,
    new_id: Seq<char>,
    now: Seq<char>,
)
    ensures
        ({
            let name = text::trim(request.name);
            let taken = exists|i: int|
                0 <= i < document.groups.len() && text::lower((#[trigger] document.groups[i]).name)
                    == text::lower(name) && Some(document.groups[i].id) != request.id;
            assets::group_saved(document, request, new_id, now) is Ok <==> 1 <= name.len() <= 64
                && !taken && (request.id matches Some(id) ==> id != "default"@
                && lists::has_id::<ConnectionGroup>(document.groups, id))
        }),
        assets::group_saved(document, request, new_id, now) matches Ok((after, group)) ==> {
            &&& group.name == text::trim(request.name)
            &&& group.updated_at == now
            &&& after.connections == document.connections
            &&& after.tunnels == document.tunnels
            &&& after.recent_targets == document.recent_targets
            &&& request.id is None ==> {
                &&& group.id == new_id
                &&& group.created_at == now
                &&& after.groups == document.groups.push(group)
            }
            &&& request.id matches Some(id) ==> {
                let at = lists::place_of::<ConnectionGroup>(document.groups, id);
                &&& group.id == id
                &&& 0 <= at < document.groups.len()
                &&& document.groups[at].id == id
                &&& group.created_at == document.groups[at].created_at
                &&& after.groups == document.groups.update(at, group)
            }
        },
        DEFAULT_GROUP_ID@ == "default"@,
{
    if let Some(id) = request.id {
        lists::lemma_place::<ConnectionGroup>(document.groups, id);
    }
}

/// A group can be deleted if and only if it is there and is not the default group; the
/// other groups stay as they are.
pub proof fn groups_are_deleted_as_asked(
    document: AssetDocumentView,
    id: Seq<char>,
    now: Seq<char>,
)
    ensures
        assets::group_deleted(document, id, now) is Ok <==> id != "default"@ && lists::has_id::<
            ConnectionGroup,
        >(document.groups, id),
        assets::group_deleted(document, id, now) matches Ok((after, _)) ==> {
            &&& forall|x: ConnectionGroupView|
                x.id != id ==> (#[trigger] after.groups.contains(x) == document.groups.contains(x))
            &&& !lists::has_id::<ConnectionGroup>(after.groups, id)
            &&& after.tunnels == document.tunnels
            &&& after.recent_targets == document.recent_targets
            &&& after.connections.len() == document.connections.len()
            &&& forall|i: int|
                0 <= i < after.connections.len() ==> (#[trigger] after.connections[i]) == (
                ConnectionProfileView {
                    group_id: after.connections[i].group_id,
                    updated_at: after.connections[i].updated_at,
                    ..document.connections[i]
                })
        },
{
    lists::lemma_others::<ConnectionGroup>(document.groups, id);
    if let Ok((after, _)) = assets::group_deleted(document, id, now) {
        assert forall|x: ConnectionGroupView| x.id != id implies (#[trigger] after.groups.contains(x)
            == document.groups.contains(x)) by {
            assert(ConnectionGroup::id_of(x) == x.id);
        }
    }
}

/// A copy of a connection is made if and only if it is there, and connects as it does: to
/// the same server, in the same way, over the same proxy and jump hosts.
pub proof fn copies_connect_alike(
    document: AssetDocumentView,
    id: Seq<char>,
    new_id: Seq<char>,
    now: Seq<char>,
)
    ensures
        assets::connection_copied(document, id, new_id, now) is Ok <==> lists::has_id::<
            ConnectionProfile,
        >(document.connections, id),
        assets::connection_copied(document, id, new_id, now) matches Ok((after, copy)) ==> {
            let source = document.connections[lists::place_of::<ConnectionProfile>(
                document.connections,
                id,
            )];
            &&& source.id == id
            &&& copy.host == source.host
            &&& copy.port == source.port
            &&& copy.username == source.username
            &&& copy.auth_type == source.auth_type
            &&& copy.private_key_path == source.private_key_path
            &&& copy.agent_key_fingerprint == source.agent_key_fingerprint
            &&& copy.jump_host_ids == source.jump_host_ids
            &&& copy.group_id == source.group_id
            &&& copy.note == source.note
            &&& copy.timeout_seconds == source.timeout_seconds
            &&& copy.last_connected_at is None
            &&& copy.created_at == now
            &&& copy.updated_at == now
            &&& match (source.proxy, copy.proxy) {
                (Some(a), Some(b)) => a.proxy_type == b.proxy_type && a.host == b.host && a.port
                    == b.port && a.username == b.username,
                (None, None) => true,
                _ => false,
            }
            &&& after.groups == document.groups
            &&& after.tunnels == document.tunnels
        },
{
    lists::lemma_place::<ConnectionProfile>(document.connections, id);
}

/// Using a connection notes when, if it is there, and changes nothing else.
pub proof fn used_connections_are_marked(
    document: AssetDocumentView,
    id: Seq<char>,
    now: Seq<char>,
)
    ensures
        assets::connection_used(document, id, now) is Ok <==> lists::has_id::<ConnectionProfile>(
            document.connections,
            id,
        ),
        assets::connection_used(document, id, now) matches Ok((after, _)) ==> {
            let at = lists::place_of::<ConnectionProfile>(document.connections, id);
            &&& 0 <= at < document.connections.len()
            &&& document.connections[at].id == id
            &&& after.connections.len() == document.connections.len()
            &&& after.connections[at].last_connected_at == Some(now)
            &&& after.connections[at] == (ConnectionProfileView {
                last_connected_at: Some(now),
                ..document.connections[at]
            })
            &&& forall|i: int|
                0 <= i < document.connections.len() && i != at ==> #[trigger] after.connections[i]
                    == document.connections[i]
            &&& after.groups == document.groups
            &&& after.tunnels == document.tunnels
            &&& after.recent_targets == document.recent_targets
        },
{
    lists::lemma_place::<ConnectionProfile>(document.connections, id);
}

/// A target that was just used comes first among the recent ones, once, and the others
/// follow in their order, ten in all.
pub proof fn recent_targets_come_first(
    document: AssetDocumentView,
    target: Seq<char>,
    now: Seq<char>,
)
    ensures
        assets::target_recorded(document, target, now) is Ok <==> assets::masked_target(target)
            is Ok,
        assets::target_recorded(document, target, now) matches Ok((after, _)) ==> {
            let shown = assets::masked_target(target)->Ok_0;
            &&& 1 <= after.recent_targets.len() <= 10
            &&& after.recent_targets[0].display_target == shown
            &&& after.recent_targets[0].last_used_at == now
            &&& forall|i: int|
                0 < i < after.recent_targets.len() ==> (
                #[trigger] after.recent_targets[i]).display_target != shown
                    && document.recent_targets.contains(after.recent_targets[i])
            &&& after.connections == document.connections
            &&& after.groups == document.groups
            &&& after.tunnels == document.tunnels
        },
{
    if let Ok((after, _)) = assets::target_recorded(document, target, now) {
        let shown = assets::masked_target(target)->Ok_0;
        let kept = assets::other_targets(document.recent_targets, shown);
        assert forall|i: int| 0 < i < after.recent_targets.len() implies (
        #[trigger] after.recent_targets[i]).display_target != shown
            && document.recent_targets.contains(after.recent_targets[i]) by {
            assert(after.recent_targets[i] == kept[i - 1]);
            lemma_kept_target(document.recent_targets, shown, i - 1);
        }
    }
}

/// What is left of the recent targets are others of them.
proof fn lemma_kept_target(targets: Seq<RecentTargetView>, shown: Seq<char>, i: int)
    requires
        0 <= i < assets::other_targets(targets, shown).len(),
    ensures
        assets::other_targets(targets, shown)[i].display_target != shown,
        targets.contains(assets::other_targets(targets, shown)[i]),
    decreases targets.len(),
{
    let front = targets.drop_last();
    let less = assets::other_targets(front, shown);
    if i < less.len() {
        lemma_kept_target(front, shown, i);
        let k = choose|k: int| 0 <= k < front.len() && front[k] == less[i];
        assert(targets[k] == less[i]);
    } else {
        assert(targets[targets.len() - 1] == targets.last());
    }
}

/// A tunnel is saved as it was asked for if and only if its fields are in order, its
/// connection is there and, where it is changed, it is there itself; it is found under its
/// id, in place of the one that had it, and the other tunnels stay.
pub proof fn saved_tunnels_are_as_asked(
    document: AssetDocumentView,
    request: SaveTunnelRequestView,
    loopback: bool,
    new_id: Seq<char>,
    now: Seq<char>,
)
    ensures
        assets::tunnel_saved(document, request, loopback, new_id, now) is Ok
            <==> assets::tunnel_fault(request, loopback) is None && lists::has_id::<
            ConnectionProfile,
        >(document.connections, request.connection_id) && (request.id matches Some(id)
            ==> lists::has_id::<TunnelProfile>(document.tunnels, id)),
        assets::tunnel_saved(document, request, loopback, new_id, now) matches Ok((after, tunnel))
            ==> {
            &&& tunnel.id == match request.id {
                Some(id) => id,
                None => new_id,
            }
            &&& tunnel.name == text::trim(request.name)
            &&& tunnel.connection_id == request.connection_id
            &&& tunnel.kind == request.kind
            &&& tunnel.bind_host == text::trim(request.bind_host)
            &&& tunnel.bind_port == request.bind_port
            &&& tunnel.target_port == request.target_port
            &&& tunnel.start_policy == request.start_policy
            &&& tunnel.updated_at == now
            &&& request.target_host is None ==> tunnel.target_host is None
            &&& request.target_host matches Some(host) ==> (text::trim(host).len() > 0
                ==> tunnel.target_host == Some(text::trim(host)))
            &&& request.id matches Some(id) ==> tunnel.created_at
                == document.tunnels[lists::place_of::<TunnelProfile>(document.tunnels, id)].created_at
            &&& after.tunnels.last() == tunnel
            &&& lists::has_id::<TunnelProfile>(after.tunnels, tunnel.id)
            &&& after.tunnels[lists::place_of::<TunnelProfile>(after.tunnels, tunnel.id)] == tunnel
            &&& forall|x: TunnelProfileView|
                x.id != tunnel.id ==> (#[trigger] after.tunnels.contains(x)
                    == document.tunnels.contains(x))
            &&& after.connections == document.connections
            &&& after.groups == document.groups
            &&& after.recent_targets == document.recent_targets
        },
{
    if let Ok((after, tunnel)) = assets::tunnel_saved(document, request, loopback, new_id, now) {
        let kept = lists::others::<TunnelProfile>(document.tunnels, tunnel.id);
        lists::lemma_others::<TunnelProfile>(document.tunnels, tunnel.id);
        lemma_last_found::<TunnelProfile>(kept, tunnel, tunnel.id);
        assert forall|x: TunnelProfileView| x.id != tunnel.id implies (
        #[trigger] after.tunnels.contains(x) == document.tunnels.contains(x)) by {
            lemma_pushed_contains(kept, tunnel, x);
            assert(TunnelProfile::id_of(x) == x.id);
            assert(kept.contains(x) <==> document.tunnels.contains(x) && TunnelProfile::id_of(x)
                != tunnel.id);
        }
    }
}

/// A tunnel is in order if and only if its name has 1 to 64 characters, its address can be
/// meant, a risk was agreed to where there is one, and, unless it is a dynamic one, it has
/// a target with a port.
pub proof fn tunnels_within_limits_are_accepted(request: SaveTunnelRequestView, loopback: bool)
    ensures
        assets::tunnel_fault(request, loopback) is None <==> {
            &&& 1 <= text::trim(request.name).len() <= 64
            &&& text::trim(request.bind_host).len() > 0
            &&& text::utf8_len(text::trim(request.bind_host)) <= 255
            &&& !text::breaks_line(text::trim(request.bind_host))
            &&& request.allow_non_loopback || (loopback && request.kind != TunnelKind::Remote)
            &&& request.kind != TunnelKind::Dynamic ==> {
                &&& request.target_host matches Some(host) && text::trim(host).len() > 0
                    && text::utf8_len(text::trim(host)) <= 255 && !text::breaks_line(
                    text::trim(host),
                )
                &&& request.target_port matches Some(port) && port > 0
            }
        },
{
}

/// A host is this machine if and only if it is called so or its address is one of those
/// that stand for it.
pub proof fn loopback_is_this_machine(host: Seq<char>, octets: Option<Seq<u8>>)
    ensures
        assets::loopback_host(host, octets) <==> text::lower(host) == "localhost"@ || (
        octets matches Some(octets) && ((octets.len() == 4 && octets[0] == 127) || (octets.len()
            == 16 && octets == seq![0u8, 0, 0, 0, 0, 0, 0, 0, 0, 0, 0, 0, 0, 0, 0, 1]))),
{
    reveal_strlit("localhost");
    assert(text::lower("localhost"@) =~= "localhost"@);
    if let Some(octets) = octets {
        if octets.len() == 16 && assets::loopback_octets(octets) {
            assert(octets =~= seq![0u8, 0, 0, 0, 0, 0, 0, 0, 0, 0, 0, 0, 0, 0, 0, 1]);
        }
    }
}

/// A copy of a tunnel is made if and only if it is there; it does what the tunnel does, but
/// listens on a port that is free. A tunnel that is deleted is gone, and the others stay.
pub proof fn tunnels_are_copied_and_deleted(
    document: AssetDocumentView,
    id: Seq<char>,
    new_id: Seq<char>,
    now: Seq<char>,
)
    ensures
        assets::tunnel_copied(document, id, new_id, now) is Ok <==> lists::has_id::<TunnelProfile>(
            document.tunnels,
            id,
        ),
        assets::tunnel_copied(document, id, new_id, now) matches Ok((after, copy)) ==> {
            let source = document.tunnels[lists::place_of::<TunnelProfile>(document.tunnels, id)];
            &&& source.id == id
            &&& copy.id == new_id
            &&& source.name.is_prefix_of(copy.name)
            &&& copy.name.len() > source.name.len()
            &&& copy.bind_port == 0
            &&& copy.connection_id == source.connection_id
            &&& copy.kind == source.kind
            &&& copy.bind_host == source.bind_host
            &&& copy.target_host == source.target_host
            &&& copy.target_port == source.target_port
            &&& copy.start_policy == source.start_policy
            &&& copy.created_at == now
            &&& copy.updated_at == now
            &&& after.tunnels == document.tunnels.push(copy)
            &&& after.connections == document.connections
            &&& after.groups == document.groups
        },
        assets::tunnel_deleted(document, id) is Ok <==> lists::has_id::<TunnelProfile>(
            document.tunnels,
            id,
        ),
        assets::tunnel_deleted(document, id) matches Ok((after, _)) ==> {
            &&& !lists::has_id::<TunnelProfile>(after.tunnels, id)
            &&& forall|x: TunnelProfileView|
                x.id != id ==> (#[trigger] after.tunnels.contains(x) == document.tunnels.contains(
                    x,
                ))
            &&& after.connections == document.connections
            &&& after.groups == document.groups
        },
{
    reveal_strlit(" - 副本");
    lists::lemma_place::<TunnelProfile>(document.tunnels, id);
    lists::lemma_others::<TunnelProfile>(document.tunnels, id);
    if let Ok((_, copy)) = assets::tunnel_copied(document, id, new_id, now) {
        let source = document.tunnels[lists::place_of::<TunnelProfile>(document.tunnels, id)];
        assert(copy.name.take(source.name.len() as int) =~= source.name);
    }
    if let Ok((after, _)) = assets::tunnel_deleted(document, id) {
        assert forall|x: TunnelProfileView| x.id != id implies (#[trigger] after.tunnels.contains(x)
            == document.tunnels.contains(x)) by {
            assert(TunnelProfile::id_of(x) == x.id);
        }
    }
}

/// With a connection start those of its tunnels that are set to, and no others.
pub proof fn tunnels_start_with_their_connection(
    tunnels: Seq<TunnelProfileView>,
    connection_id: Seq<char>,
    tunnel: TunnelProfileView,
)
    ensures
        assets::tunnels_to_start(tunnels, connection_id).contains(tunnel) <==> tunnels.contains(
            tunnel,
        ) && tunnel.connection_id == connection_id && tunnel.start_policy
            == TunnelStartPolicy::WithConnection,
    decreases tunnels.len(),
{
    if tunnels.len() > 0 {
        let front = tunnels.drop_last();
        tunnels_start_with_their_connection(front, connection_id, tunnel);
        assert(tunnels =~= front.push(tunnels.last()));
        lemma_pushed_contains(front, tunnels.last(), tunnel);
        lemma_pushed_contains(
            assets::tunnels_to_start(front, connection_id),
            tunnels.last(),
            tunnel,
        );
    }
}

/// Connections are listed by when they were last used, the latest first and those that
/// never were last, and those used at once by their names.
pub proof fn latest_connections_are_listed_first(
    a: ConnectionProfileView,
    b: ConnectionProfileView,
    a_name: Seq<char>,
    b_name: Seq<char>,
)
    ensures
        match (a.last_connected_at, b.last_connected_at) {
            (Some(x), Some(y)) => assets::used_later((a, a_name), (b, b_name)) <==> text::text_before(
                y,
                x,
            ) || (x == y && text::text_before(a_name, b_name)),
            (Some(_), None) => assets::used_later((a, a_name), (b, b_name)),
            (None, Some(_)) => !assets::used_later((a, a_name), (b, b_name)),
            (None, None) => assets::used_later((a, a_name), (b, b_name)) <==> text::text_before(
                a_name,
                b_name,
            ),
        },
{
}

/// What is exported is all that is saved, each connection as it is but for where its
/// secrets are kept, and no recent targets.
pub proof fn exports_hold_what_is_saved(document: AssetDocumentView, i: int)
    requires
        0 <= i < document.connections.len(),
    ensures
        ({
            let shown = assets::for_export(document);
            let (a, b) = (document.connections[i], shown.connections[i]);
            &&& shown.groups == document.groups
            &&& shown.tunnels == document.tunnels
            &&& shown.schema_version == document.schema_version
            &&& shown.recent_targets.len() == 0
            &&& shown.connections.len() == document.connections.len()
            &&& b == (ConnectionProfileView { credential_ref: None, proxy: b.proxy, ..a })
            &&& match (a.proxy, b.proxy) {
                (Some(x), Some(y)) => y == (ProxyProfileView { credential_ref: None, ..x }),
                (None, None) => true,
                _ => false,
            }
        }),
{
}

/// What is imported stands behind what was there, each connection as the file has it: it
/// reaches the same server in the same way; only its id, its group, the ids of its jump
/// hosts and where secrets are kept may differ. What was there stays.
pub proof fn imported_connections_are_those_of_the_file(
    document: AssetDocumentView,
    imported: AssetDocumentView,
    ids: ImportIdsView,
    i: int,
)
    requires
        0 <= i < imported.connections.len(),
    ensures
        ({
            let after = asset_files::document_imported(document, imported, ids);
            let n = document.connections.len() as int;
            let (a, b) = (imported.connections[i], after.connections[n + i]);
            &&& after.connections.len() == n + imported.connections.len()
            &&& after.connections.take(n) == document.connections
            &&& b.id == if lists::has_id::<ConnectionProfile>(document.connections, a.id) {
                ids.connections[i]
            } else {
                a.id
            }
            &&& b.name == a.name
            &&& b.host == a.host
            &&& b.port == a.port
            &&& b.username == a.username
            &&& b.auth_type == a.auth_type
            &&& b.private_key_path == a.private_key_path
            &&& b.agent_key_fingerprint == a.agent_key_fingerprint
            &&& b.note == a.note
            &&& b.timeout_seconds == a.timeout_seconds
            &&& b.last_connected_at == a.last_connected_at
            &&& b.created_at == a.created_at
            &&& b.updated_at == a.updated_at
            &&& b.credential_ref is None
            &&& b.jump_host_ids.len() == a.jump_host_ids.len()
            &&& match (a.proxy, b.proxy) {
                (Some(x), Some(y)) => y == (ProxyProfileView { credential_ref: None, ..x }),
                (None, None) => true,
                _ => false,
            }
            &&& after.schema_version == document.schema_version
            &&& after.recent_targets == document.recent_targets
        }),
{
    let after = asset_files::document_imported(document, imported, ids);
    assert(after.connections.take(document.connections.len() as int) =~= document.connections);
}

/// A group of a file becomes the one that has its name, in whatever case, where there is
/// one, and is added under a new id where there is none; the default group stays itself.
/// The groups that were there stay.
pub proof fn imported_groups_are_found_or_added(
    state: asset_files::GroupImport,
    group: ConnectionGroupView,
    new_id: Seq<char>,
)
    ensures
        ({
            let after = asset_files::group_taken_in(state, group, new_id);
            let known = exists|i: int|
                0 <= i < state.groups.len() && text::lower((#[trigger] state.groups[i]).name)
                    == text::lower(group.name);
            &&& group.id == "default"@ ==> after == state
            &&& group.id != "default"@ && known ==> {
                &&& after.groups == state.groups
                &&& after.added == state.added
                &&& after.became.contains_key(group.id)
                &&& exists|i: int|
                    0 <= i < state.groups.len() && after.became[group.id] == (
                    #[trigger] state.groups[i]).id && text::lower(state.groups[i].name)
                        == text::lower(group.name)
            }
            &&& group.id != "default"@ && !known ==> {
                &&& after.groups == state.groups.push(
                    ConnectionGroupView { id: new_id, ..group },
                )
                &&& after.added == state.added + 1
                &&& after.became == state.became.insert(group.id, new_id)
            }
        }),
{
    lemma_group_named(state.groups, group.name);
}

/// The place of a name among groups is where it first is.
proof fn lemma_group_named(groups: Seq<ConnectionGroupView>, name: Seq<char>)
    ensures
        0 <= asset_files::group_named(groups, name) <= groups.len(),
        asset_files::group_named(groups, name) < groups.len() ==> text::lower(
            groups[asset_files::group_named(groups, name)].name,
        ) == text::lower(name),
        asset_files::group_named(groups, name) == groups.len() ==> forall|i: int|
            0 <= i < groups.len() ==> text::lower((#[trigger] groups[i]).name) != text::lower(name),
    decreases groups.len(),
{
    if groups.len() > 0 && text::lower(groups[0].name) != text::lower(name) {
        let rest = groups.drop_first();
        lemma_group_named(rest, name);
        assert forall|i: int|
            asset_files::group_named(rest, name) == rest.len() && 0 <= i
                < groups.len() implies text::lower((#[trigger] groups[i]).name) != text::lower(name) by {
            if i > 0 {
                assert(rest[i - 1] == groups[i]);
            }
        }
    }
}

/// A tunnel of a file is taken in if and only if its connection is: it goes over that
/// connection and is otherwise as the file has it, under a new id where its own is taken.
pub proof fn imported_tunnels_go_with_their_connection(
    state: asset_files::TunnelImport,
    tunnel: TunnelProfileView,
    became: Map<Seq<char>, Seq<char>>,
    new_id: Seq<char>,
)
    ensures
        ({
            let after = asset_files::tunnel_taken_in(state, tunnel, became, new_id);
            let taken = lists::has_id::<TunnelProfile>(state.tunnels, tunnel.id);
            &&& !became.contains_key(tunnel.connection_id) ==> after == state
            &&& became.contains_key(tunnel.connection_id) ==> {
                let last = after.tunnels.last();
                &&& after.tunnels.len() == state.tunnels.len() + 1
                &&& after.tunnels.drop_last() == state.tunnels
                &&& last.connection_id == became[tunnel.connection_id]
                &&& last.id == if taken {
                    new_id
                } else {
                    tunnel.id
                }
                &&& last == (TunnelProfileView {
                    id: last.id,
                    connection_id: last.connection_id,
                    ..tunnel
                })
                &&& after.regenerated == state.regenerated + if taken {
                    1int
                } else {
                    0
                }
            }
        }),
{
    let after = asset_files::tunnel_taken_in(state, tunnel, became, new_id);
    if became.contains_key(tunnel.connection_id) {
        assert(after.tunnels.drop_last() =~= state.tunnels);
    }
}

/// A file is imported only where each of its connections is within its limits.
pub proof fn imported_connections_are_checked(connections: Seq<ConnectionProfileView>, from: int)
    requires
        0 <= from <= connections.len(),
    ensures
        asset_files::imports_fault(connections, from) is None <==> forall|i: int|
            from <= i < connections.len() ==> importable(#[trigger] connections[i]),
    decreases connections.len() - from,
{
    if from < connections.len() {
        imported_connections_are_checked(connections, from + 1);
        assert(asset_files::import_fault(connections[from]) is None <==> importable(
            connections[from],
        ));
    }
}

/// Whether a connection of a file is within its limits.
pub open spec fn importable(connection: ConnectionProfileView) -> bool {
    &&& text::trim(connection.name).len() > 0
    &&& connection.name.len() <= 64
    &&& text::trim(connection.host).len() > 0
    &&& text::trim(connection.username).len() > 0
    &&& connection.username.len() <= 128
    &&& 5 <= connection.timeout_seconds <= 60
}

/// What was imported is counted: the connections of the file, the groups that were added,
/// the names that were there already and the ids that were taken.
pub proof fn imports_are_counted(
    connections: Seq<ConnectionProfileView>,
    imported: Seq<ConnectionProfileView>,
    next: ConnectionProfileView,
)
    ensures
        asset_files::duplicate_names(connections, Seq::empty()) == 0,
        asset_files::regenerated(connections, Seq::empty()) == 0,
        asset_files::duplicate_names(connections, imported.push(next))
            == asset_files::duplicate_names(connections, imported) + if exists|i: int|
            0 <= i < connections.len() && text::lower((#[trigger] connections[i]).name)
                == text::lower(next.name) {
            1int
        } else {
            0
        },
        asset_files::regenerated(connections, imported.push(next)) == asset_files::regenerated(
            connections,
            imported,
        ) + if lists::has_id::<ConnectionProfile>(connections, next.id) {
            1int
        } else {
            0
        },
{
    assert(imported.push(next).drop_last() =~= imported);
}

/// What is read from a file is what was written: a file of this version or an older one is
/// taken in with every connection, tunnel and recent target, a newer one is refused, and a
/// connection changes its group only where its own is missing.
pub proof fn files_are_taken_in_as_they_are(
    document: AssetDocumentView,
    now: Seq<char>,
    i: int,
)
    requires
        0 <= i < document.connections.len(),
    ensures
        asset_files::admitted(document, now) is Ok <==> document.schema_version <= 3,
        asset_files::admitted(document, now) matches Err(error) ==> error.code
            == "ASSET-STORAGE-FAILED"@,
        asset_files::admitted(document, now) matches Ok(after) ==> {
            &&& after.schema_version == 3
            &&& after.tunnels == document.tunnels
            &&& after.recent_targets == document.recent_targets
            &&& after.connections.len() == document.connections.len()
            &&& after.connections[i] == (ConnectionProfileView {
                group_id: after.connections[i].group_id,
                ..document.connections[i]
            })
            &&& lists::has_id::<ConnectionGroup>(
                document.groups,
                document.connections[i].group_id,
            ) ==> after.connections[i] == document.connections[i]
            &&& lists::has_id::<ConnectionGroup>(document.groups, "default"@) ==> after.groups
                == document.groups
            &&& !lists::has_id::<ConnectionGroup>(document.groups, "default"@)
                ==> after.groups.skip(1) == document.groups && after.groups[0].id == "default"@
        },
{
    if let Ok(after) = asset_files::admitted(document, now) {
        let groups = document.groups;
        let own = document.connections[i].group_id;
        if !lists::has_id::<ConnectionGroup>(groups, DEFAULT_GROUP_ID@) {
            assert(after.groups.skip(1) =~= groups);
        }
        if lists::has_id::<ConnectionGroup>(groups, own) {
            let k = choose|k: int|
                0 <= k < groups.len() && ConnectionGroup::id_of(#[trigger] groups[k]) == own;
            let at: int = if lists::has_id::<ConnectionGroup>(groups, DEFAULT_GROUP_ID@) {
                k
            } else {
                k + 1
            };
            assert(after.groups[at] == groups[k]);
            assert(ConnectionGroup::id_of(after.groups[at]) == own);
            assert(lists::has_id::<ConnectionGroup>(after.groups, own));
        }
    }
}

/// Saved data that are in order are loaded as they are; where there are none, the data are
/// empty; where the file cannot be read, nothing is loaded; and where it makes no sense, the
/// file that a broken write left is tried.
pub proof fn saved_data_are_loaded(
    document: AssetDocumentView,
    now: Seq<char>,
    reason: Seq<char>,
    version: Option<u64>,
)
    ensures
        asset_files::settled(document) && !(version matches Some(old) && old < 3)
            ==> asset_files::after_primary(
            FoundFileView::Content { empty: false, document: Ok(document), version },
            now,
        ) == (LoadStateView::Loaded { outcome: Ok(document) }),
        asset_files::settled(document) && (version matches Some(old) && old < 3)
            ==> asset_files::after_primary(
            FoundFileView::Content { empty: false, document: Ok(document), version },
            now,
        ) == (LoadStateView::WritePrimary { document }),
        asset_files::after_primary(FoundFileView::Missing, now) == (LoadStateView::Pending {
            fault: None,
        }),
        asset_files::after_pending(None, FoundFileView::Missing, now) matches LoadStateView::Loaded {
            outcome,
        } && (outcome matches Ok(empty) && empty.connections.len() == 0 && empty.tunnels.len() == 0
            && empty.recent_targets.len() == 0 && empty.groups.len() == 1 && empty.groups[0].id
            == "default"@),
        asset_files::after_primary(
            FoundFileView::Unreadable(reason),
            now,
        ) matches LoadStateView::Loaded { outcome } && outcome is Err,
        asset_files::after_primary(
            FoundFileView::Content { empty: false, document: Err(reason), version },
            now,
        ) matches LoadStateView::Pending { fault } && fault is Some,
        asset_files::after_change(LoadStateView::WritePrimary { document }, None) == (
        LoadStateView::Loaded { outcome: Ok(document) }),
        asset_files::after_change(LoadStateView::Replace { document }, None) == (
        LoadStateView::Loaded { outcome: Ok(document) }),
        asset_files::after_change(LoadStateView::WritePending { document }, None) == (
        LoadStateView::Replace { document }),
{
    if asset_files::settled(document) {
        asset_files::settled_is_admitted_unchanged(document, now);
    }
}

/// A load of which a step fails tells why.
pub proof fn failed_loads_tell_why(state: LoadStateView, error: ErrorView, fault: ErrorView, now: Seq<char>)
    ensures
        !(state is Loaded) ==> asset_files::after_change(state, Some(error)) == (
        LoadStateView::Loaded { outcome: Err(error) }),
        state is Loaded ==> asset_files::after_change(state, Some(error)) == state,
        asset_files::after_pending(Some(fault), FoundFileView::Missing, now) == (
        LoadStateView::Loaded { outcome: Err(fault) }),
{
}

/// Listing the connections shows every one of them, as it is, once, the one that was used
/// last first.
pub proof fn listed_connections_are_those_saved(
    connections: Seq<ConnectionProfileView>,
    listed: Seq<ConnectionProfileView>,
    i: int,
    j: int,
)
    requires
        assets::listed_in_order(connections, assets::lowercase_names(connections), listed),
        0 <= i < j < listed.len(),
    ensures
        listed.len() == connections.len(),
        listed.to_multiset() == connections.to_multiset(),
        match (listed[i].last_connected_at, listed[j].last_connected_at) {
            (Some(first), Some(second)) => !text::text_before(first, second),
            (None, Some(_)) => false,
            _ => true,
        },
{
    let less = |a: (ConnectionProfileView, Seq<char>), b: (ConnectionProfileView, Seq<char>)|
        assets::used_later(a, b);
    let names = assets::lowercase_names(connections);
    let input = assets::with_names(connections, names);
    let shown = choose|shown: Seq<Seq<char>>|
        shown.len() == listed.len() && sort::stably_sorted(
            input,
            #[trigger] assets::with_names(listed, shown),
            less,
        );
    let output = assets::with_names(listed, shown);
    let order = choose|order: Seq<int>| #[trigger] sort::sorts(input, output, less, order);
    assert forall|k: int| 0 <= k < listed.len() implies listed[k]
        == connections[#[trigger] order[k]] by {
        assert(output[k] == input[order[k]]);
    }
    sort::permuting_keeps_items(connections, listed, order);
    assert(less(output[i], output[j]) || !less(output[j], output[i]));
    if let (Some(first), Some(second)) = (
        listed[i].last_connected_at,
        listed[j].last_connected_at,
    ) {
        if text::text_before(second, first) {
            text::text_order_asymmetric(second, first);
        }
        if first == second {
            if text::text_before(first, second) {
                text::text_order_asymmetric(first, second);
            }
        }
    }
}

/// A connection of a file comes into the group that its own became, and into the default
/// group where that is not known.
pub proof fn imported_connections_come_into_their_group(
    document: AssetDocumentView,
    imported: AssetDocumentView,
    ids: ImportIdsView,
    i: int,
)
    requires
        0 <= i < imported.connections.len(),
    ensures
        ({
            let became = asset_files::groups_taken_in(
                document.groups,
                imported.groups,
                ids.groups,
            ).became;
            let after = asset_files::document_imported(document, imported, ids);
            let (a, b) = (
                imported.connections[i],
                after.connections[document.connections.len() + i],
            );
            b.group_id == if became.contains_key(a.group_id) {
                became[a.group_id]
            } else {
                "default"@
            }
        }),
{
}

/// What is told of an import is what came in: the connections of the file, and the path.
pub proof fn import_summaries_tell_what_came_in(
    document: AssetDocumentView,
    imported: AssetDocumentView,
    ids: ImportIdsView,
    path: Seq<char>,
    now: Seq<char>,
    allow_non_loopback: bool,
)
    requires
        imported.connections.len() <= usize::MAX,
    ensures
        asset_files::file_imported(
            document,
            imported,
            ids,
            path,
            now,
            allow_non_loopback,
        ) matches Ok((after, summary)) ==> {
            &&& summary.path == path
            &&& summary.connections == imported.connections.len()
            &&& after.connections.len() == document.connections.len() + imported.connections.len()
            &&& imported.schema_version <= 3
        },
{
}

} // verus!
