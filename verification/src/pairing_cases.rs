//! What creating and editing a starter lead to in the usual cases: a starter
//! who only competes alone, a partner given explicitly, and a partner found by
//! name.

use crate::pairing::{
    act_ids_in_use, candidate, create_defect, create_target, created, edit_defect, edit_target,
    edited, lemma_create_keeps_links_sound, lemma_edit_keeps_links_sound, linked, links_sound,
    new_row, resolve_by_name, single_act_of, unique_ids, AddClubStarterBodyView,
    EditClubStarterBodyView,
};
use crate::pairing_laws::{
    act_for, acts_sound, cast_known, joins_partners, lemma_create_keeps_acts_sound,
    lemma_edit_keeps_acts_sound, participants_exist,
};
use crate::registry::{act_of, full_name, starter_with_id, ActView, RegistryView};
use crate::search::{
    any, at_most_one, is_first, is_last, lemma_first_index, lemma_first_index_is,
    lemma_last_index_is,
};
use vstd::prelude::*;

verus! {

/// The starter at `i` is the only candidate of the name in the club.
pub open spec fn only_candidate(reg: RegistryView, club: u128, name: Seq<char>, i: int) -> bool {
    &&& 0 <= i < reg.starters.len()
    &&& candidate(club, name)(reg.starters[i])
    &&& forall|j: int|
        0 <= j < reg.starters.len() && j != i ==> !candidate(club, name)(#[trigger] reg.starters[j])
}

/// A name that only one candidate of the club bears stands for that
/// candidate.
pub proof fn lemma_only_candidate_resolves(reg: RegistryView, club: u128, name: Seq<char>, i: int)
    requires
        only_candidate(reg, club, name, i),
    ensures
        resolve_by_name(reg, club, Some(name)) == Some(reg.starters[i].id),
{
    assert(is_first(reg.starters, candidate(club, name), i));
    assert(is_last(reg.starters, candidate(club, name), i));
    lemma_first_index_is(reg.starters, candidate(club, name), i);
    lemma_last_index_is(reg.starters, candidate(club, name), i);
}

/// Among starters of unique identifiers, the starter at `i` is the one that
/// its identifier finds.
pub proof fn lemma_found_at(reg: RegistryView, i: int)
    requires
        unique_ids(reg),
        0 <= i < reg.starters.len(),
    ensures
        reg.find_starter(reg.starters[i].id) == Some(i),
{
    let id = reg.starters[i].id;
    assert(is_first(reg.starters, starter_with_id(id), i)) by {
        assert forall|j: int| 0 <= j < i implies !starter_with_id(id)(#[trigger] reg.starters[j]) by {
            if reg.starters[j].id == reg.starters[i].id {
                assert(j == i);
            }
        }
    }
    lemma_first_index_is(reg.starters, starter_with_id(id), i);
}

/// A linked couple of a sound registry has exactly one pair act, and neither
/// of the two takes part in another pair act.
pub proof fn lemma_one_pair_act(reg: RegistryView, i: int, j: int)
    requires
        links_sound(reg),
        acts_sound(reg),
        0 <= i < reg.starters.len(),
        0 <= j < reg.starters.len(),
        reg.starters[i].partner_id == Some(reg.starters[j].id),
        reg.starters[j].partner_id == Some(reg.starters[i].id),
    ensures
        exists|k0: int|
            {
                &&& 0 <= k0 < reg.acts.len()
                &&& act_for(reg.starters[i].id, reg.starters[j].id)(#[trigger] reg.acts[k0])
                &&& reg.acts[k0].participants.len() == 2
                &&& forall|k: int|
                    0 <= k < reg.acts.len() && (#[trigger] reg.acts[k]).is_pair && (
                    reg.acts[k].participants.contains(reg.starters[i].id)
                        || reg.acts[k].participants.contains(reg.starters[j].id)) ==> k == k0
            },
{
    let a = reg.starters[i].id;
    let b = reg.starters[j].id;
    assert(any(reg.acts, act_for(a, b)));
    let k0 = choose|k0: int| 0 <= k0 < reg.acts.len() && act_for(a, b)(#[trigger] reg.acts[k0]);
    assert(act_of(a, true)(reg.acts[k0]));
    assert(act_of(b, true)(reg.acts[k0]));
    assert(at_most_one(reg.acts, act_of(a, true)));
    assert(at_most_one(reg.acts, act_of(b, true)));
    assert forall|k: int|
        0 <= k < reg.acts.len() && (#[trigger] reg.acts[k]).is_pair && (
        reg.acts[k].participants.contains(a) || reg.acts[k].participants.contains(
            b,
        )) implies k == k0 by {
        if reg.acts[k].participants.contains(a) {
            assert(act_of(a, true)(reg.acts[k]));
        } else {
            assert(act_of(b, true)(reg.acts[k]));
        }
    }
}

/// The starter at `i` takes part in a pair act that joins partners: its
/// partner is the other participant.
proof fn lemma_partner_in_pair_act(reg: RegistryView, act: ActView, i: int)
    requires
        unique_ids(reg),
        act.is_pair,
        act.participants.len() == 2,
        linked(reg, act.participants[0], act.participants[1]),
        0 <= i < reg.starters.len(),
        act.participants.contains(reg.starters[i].id),
    ensures
        reg.starters[i].partner_id == Some(
            if act.participants[0] == reg.starters[i].id {
                act.participants[1]
            } else {
                act.participants[0]
            },
        ),
        act.participants[0] != act.participants[1] ==> forall|c: u128|
            act.participants.contains(c) ==> c == act.participants[0] || c == act.participants[1],
{
    let a = reg.starters[i].id;
    let u = act.participants[0];
    let v = act.participants[1];
    let (iu, iv) = choose|iu: int, iv: int|
        0 <= iu < reg.starters.len() && 0 <= iv < reg.starters.len() && (
        #[trigger] reg.starters[iu]).id == u && (#[trigger] reg.starters[iv]).id == v
            && reg.starters[iu].partner_id == Some(v) && reg.starters[iv].partner_id == Some(u);
    let ma = choose|m: int| 0 <= m < act.participants.len() && act.participants[m] == a;
    assert(ma == 0 || ma == 1);
    if a == u {
        assert(reg.starters[iu].id == reg.starters[i].id);
        assert(iu == i);
    } else {
        assert(a == v);
        assert(reg.starters[iv].id == reg.starters[i].id);
        assert(iv == i);
    }
    assert forall|c: u128| act.participants.contains(c) implies c == u || c == v by {
        let m = choose|m: int| 0 <= m < act.participants.len() && act.participants[m] == c;
        assert(m == 0 || m == 1);
    }
}

/// In a sound registry two different starters have a pair act exactly if
/// they are each other's partner.
pub proof fn lemma_pair_act_iff_linked(reg: RegistryView, i: int, j: int)
    requires
        links_sound(reg),
        acts_sound(reg),
        0 <= i < reg.starters.len(),
        0 <= j < reg.starters.len(),
        i != j,
    ensures
        any(reg.acts, act_for(reg.starters[i].id, reg.starters[j].id)) <==> (
        reg.starters[i].partner_id == Some(reg.starters[j].id) && reg.starters[j].partner_id
            == Some(reg.starters[i].id)),
{
    let a = reg.starters[i].id;
    let b = reg.starters[j].id;
    if any(reg.acts, act_for(a, b)) {
        let k = choose|k: int| 0 <= k < reg.acts.len() && act_for(a, b)(#[trigger] reg.acts[k]);
        let act = reg.acts[k];
        assert(joins_partners(reg, act));
        assert(act.participants.len() == 2);
        assert(a != b);
        lemma_partner_in_pair_act(reg, act, i);
        lemma_partner_in_pair_act(reg, act, j);
        let ma = choose|m: int| 0 <= m < act.participants.len() && act.participants[m] == a;
        let mb = choose|m: int| 0 <= m < act.participants.len() && act.participants[m] == b;
        assert(ma != mb);
        assert(ma == 0 || ma == 1);
        assert(mb == 0 || mb == 1);
    }
}

/// In a sound registry a starter without a partner takes part in no pair
/// act.
pub proof fn lemma_unpartnered_has_no_pair_act(reg: RegistryView, i: int)
    requires
        links_sound(reg),
        acts_sound(reg),
        0 <= i < reg.starters.len(),
        reg.starters[i].partner_id is None,
    ensures
        !any(reg.acts, act_of(reg.starters[i].id, true)),
{
    let a = reg.starters[i].id;
    if any(reg.acts, act_of(a, true)) {
        let k = choose|k: int| 0 <= k < reg.acts.len() && act_of(a, true)(#[trigger] reg.acts[k]);
        let act = reg.acts[k];
        assert(joins_partners(reg, act));
        assert(act.participants.len() == 2);
        lemma_partner_in_pair_act(reg, act, i);
    }
}

/// An edit of a sound registry that ends without a partner leaves the
/// starter in no pair act.
pub proof fn lemma_edit_without_partner(
    reg: RegistryView,
    body: EditClubStarterBodyView,
    pair_act: u128,
    single_act: u128,
    now: i64,
)
    requires
        links_sound(reg),
        acts_sound(reg),
        edit_defect(reg, body, pair_act, single_act) is None,
        edit_target(
            reg,
            reg.starters[reg.find_starter(body.starter_id).unwrap()],
            body,
        ) is None,
    ensures
        ({
            let i = reg.find_starter(body.starter_id).unwrap();
            let after = edited(reg, body, pair_act, single_act, now);
            &&& after.starters[i].id == body.starter_id
            &&& after.starters[i].partner_id is None
            &&& !any(after.acts, act_of(body.starter_id, true))
        }),
{
    let i = reg.find_starter(body.starter_id).unwrap();
    lemma_first_index(reg.starters, starter_with_id(body.starter_id));
    lemma_edit_keeps_links_sound(reg, body, pair_act, single_act, now);
    lemma_edit_keeps_acts_sound(reg, body, pair_act, single_act, now);
    let after = edited(reg, body, pair_act, single_act, now);
    assert(after.starters[i].id == body.starter_id);
    assert(after.starters[i].partner_id is None);
    lemma_unpartnered_has_no_pair_act(after, i);
}

/// With identifiers that are not in use, the creation of a starter who
/// competes alone and names no partner ends well: the starter is appended
/// without a partner, and so is one single act with the starter as its only
/// participant; nothing else is made or changed.
pub proof fn lemma_create_single(
    reg: RegistryView,
    body: AddClubStarterBodyView,
    id: u128,
    pair_act: u128,
    single_act: u128,
    now: i64,
)
    requires
        body.single_male || body.single_female,
        body.partner_id is None,
        body.partner_name is None,
        reg.find_starter(id) is None,
        !act_ids_in_use(reg, pair_act, single_act),
    ensures
        create_defect(reg, body, id, pair_act, single_act) is None,
        created(reg, body, id, pair_act, single_act, now).starters == reg.starters.push(
            new_row(body, id, None),
        ),
        created(reg, body, id, pair_act, single_act, now).acts == reg.acts.push(
            single_act_of(single_act, now, id),
        ),
        !single_act_of(single_act, now, id).is_pair,
        single_act_of(single_act, now, id).participants == seq![id],
        participants_exist(reg) ==> forall|k: int|
            0 <= k < reg.acts.len() ==> !(#[trigger] reg.acts[k]).participants.contains(id),
{
    if participants_exist(reg) {
        lemma_first_index(reg.starters, starter_with_id(id));
        assert forall|k: int| 0 <= k < reg.acts.len() implies !(
        #[trigger] reg.acts[k]).participants.contains(id) by {
            if reg.acts[k].participants.contains(id) {
                let m = choose|m: int|
                    0 <= m < reg.acts[k].participants.len() && reg.acts[k].participants[m] == id;
                assert(cast_known(reg.starters, reg.acts[k]));
                assert(any(reg.starters, starter_with_id(reg.acts[k].participants[m])));
                let w = choose|w: int|
                    0 <= w < reg.starters.len() && starter_with_id(id)(#[trigger] reg.starters[w]);
                assert(!starter_with_id(id)(reg.starters[w]));
            }
        }
    }
}

/// With identifiers that are not in use, the creation of a starter with an
/// explicit partner who has a partner ends well: the new starter and the
/// partner are each other's partner, the partner bears the name of the new
/// starter as its partner's name, and the former partner is free.
pub proof fn lemma_create_takes_over(
    reg: RegistryView,
    body: AddClubStarterBodyView,
    id: u128,
    pair_act: u128,
    single_act: u128,
    now: i64,
    ip: int,
    ix: int,
)
    requires
        links_sound(reg),
        0 <= ip < reg.starters.len(),
        0 <= ix < reg.starters.len(),
        body.partner_id == Some(reg.starters[ip].id),
        reg.starters[ip].partner_id == Some(reg.starters[ix].id),
        reg.find_starter(id) is None,
        !act_ids_in_use(reg, pair_act, single_act),
    ensures
        create_defect(reg, body, id, pair_act, single_act) is None,
        ({
            let after = created(reg, body, id, pair_act, single_act, now).starters;
            &&& after.len() == reg.starters.len() + 1
            &&& after[reg.starters.len() as int].id == id
            &&& after[reg.starters.len() as int].partner_id == Some(reg.starters[ip].id)
            &&& after[ip].id == reg.starters[ip].id
            &&& after[ip].partner_id == Some(id)
            &&& after[ip].partner_name == Some(full_name(body.firstname, body.lastname))
            &&& after[ix].id == reg.starters[ix].id
            &&& after[ix].partner_id is None
        }),
{
    let pid = reg.starters[ip].id;
    lemma_found_at(reg, ip);
    lemma_first_index(reg.starters, starter_with_id(id));
    assert(!starter_with_id(id)(reg.starters[ip]));
    assert(reg.starters[ix].partner_id == Some(reg.starters[ip].id));
    assert(ix != ip);
    assert(reg.starters[ix].id != pid);
}

/// With act identifiers that are not in use, the edit of a starter without a
/// partner, who is open to a pair and submits a name that only one other
/// candidate of the club bears, ends well: the two are each other's partner,
/// the partner bears the submitted name of the starter as its partner's name,
/// and the two have a pair act.
pub proof fn lemma_edit_pairs_by_name(
    reg: RegistryView,
    body: EditClubStarterBodyView,
    pair_act: u128,
    single_act: u128,
    now: i64,
    ib: int,
    ia: int,
)
    requires
        unique_ids(reg),
        0 <= ib < reg.starters.len(),
        reg.starters[ib].id == body.starter_id,
        reg.starters[ib].partner_id is None,
        body.pair,
        body.partner_id is None,
        body.partner_name is Some,
        ia != ib,
        only_candidate(reg, reg.starters[ib].club_id, body.partner_name.unwrap(), ia),
        !act_ids_in_use(reg, pair_act, single_act),
    ensures
        edit_defect(reg, body, pair_act, single_act) is None,
        ({
            let after = edited(reg, body, pair_act, single_act, now);
            &&& after.starters.len() == reg.starters.len()
            &&& after.starters[ib].id == body.starter_id
            &&& after.starters[ia].id == reg.starters[ia].id
            &&& after.starters[ib].partner_id == Some(reg.starters[ia].id)
            &&& after.starters[ia].partner_id == Some(body.starter_id)
            &&& after.starters[ia].partner_name == Some(
                full_name(body.firstname, body.lastname),
            )
            &&& after.starters[ib].partner_name == body.partner_name
        }),
{
    let x = body.starter_id;
    let a = reg.starters[ia].id;
    lemma_found_at(reg, ib);
    lemma_found_at(reg, ia);
    lemma_only_candidate_resolves(reg, reg.starters[ib].club_id, body.partner_name.unwrap(), ia);
    assert(a != x);
    assert(edit_target(reg, reg.starters[ib], body) == Some(a));
}

/// After such an edit in a sound registry, exactly one pair act holds either
/// of the two, and it is theirs.
pub proof fn lemma_edit_pairs_by_name_one_act(
    reg: RegistryView,
    body: EditClubStarterBodyView,
    pair_act: u128,
    single_act: u128,
    now: i64,
    ib: int,
    ia: int,
)
    requires
        links_sound(reg),
        acts_sound(reg),
        0 <= ib < reg.starters.len(),
        reg.starters[ib].id == body.starter_id,
        reg.starters[ib].partner_id is None,
        body.pair,
        body.partner_id is None,
        body.partner_name is Some,
        ia != ib,
        only_candidate(reg, reg.starters[ib].club_id, body.partner_name.unwrap(), ia),
        !act_ids_in_use(reg, pair_act, single_act),
    ensures
        ({
            let after = edited(reg, body, pair_act, single_act, now);
            exists|k0: int|
                {
                    &&& 0 <= k0 < after.acts.len()
                    &&& act_for(body.starter_id, reg.starters[ia].id)(#[trigger] after.acts[k0])
                    &&& after.acts[k0].participants.len() == 2
                    &&& forall|k: int|
                        0 <= k < after.acts.len() && (#[trigger] after.acts[k]).is_pair && (
                        after.acts[k].participants.contains(body.starter_id)
                            || after.acts[k].participants.contains(reg.starters[ia].id)) ==> k
                            == k0
                }
        }),
{
    lemma_edit_pairs_by_name(reg, body, pair_act, single_act, now, ib, ia);
    lemma_edit_keeps_links_sound(reg, body, pair_act, single_act, now);
    lemma_edit_keeps_acts_sound(reg, body, pair_act, single_act, now);
    let after = edited(reg, body, pair_act, single_act, now);
    lemma_one_pair_act(after, ib, ia);
}

/// With identifiers that are not in use, the creation of a starter who
/// submits a name that only one candidate of the club bears ends well: the
/// two are each other's partner, and the partner bears the name of the new
/// starter as its partner's name.
pub proof fn lemma_create_pairs_by_name(
    reg: RegistryView,
    body: AddClubStarterBodyView,
    id: u128,
    pair_act: u128,
    single_act: u128,
    now: i64,
    ia: int,
)
    requires
        unique_ids(reg),
        body.partner_id is None,
        body.partner_name is Some,
        only_candidate(reg, body.club_id, body.partner_name.unwrap(), ia),
        reg.find_starter(id) is None,
        !act_ids_in_use(reg, pair_act, single_act),
    ensures
        create_defect(reg, body, id, pair_act, single_act) is None,
        create_target(reg, body) == Some(reg.starters[ia].id),
        ({
            let after = created(reg, body, id, pair_act, single_act, now).starters;
            &&& after.len() == reg.starters.len() + 1
            &&& after[reg.starters.len() as int].id == id
            &&& after[reg.starters.len() as int].partner_id == Some(reg.starters[ia].id)
            &&& after[ia].id == reg.starters[ia].id
            &&& after[ia].partner_id == Some(id)
            &&& after[ia].partner_name == Some(full_name(body.firstname, body.lastname))
        }),
{
    lemma_found_at(reg, ia);
    lemma_only_candidate_resolves(reg, body.club_id, body.partner_name.unwrap(), ia);
    lemma_first_index(reg.starters, starter_with_id(id));
    assert(!starter_with_id(id)(reg.starters[ia]));
}

/// After such a creation in a sound registry, exactly one pair act holds
/// either of the two, and it is theirs.
pub proof fn lemma_create_pairs_by_name_one_act(
    reg: RegistryView,
    body: AddClubStarterBodyView,
    id: u128,
    pair_act: u128,
    single_act: u128,
    now: i64,
    ia: int,
)
    requires
        links_sound(reg),
        acts_sound(reg),
        body.partner_id is None,
        body.partner_name is Some,
        only_candidate(reg, body.club_id, body.partner_name.unwrap(), ia),
        reg.find_starter(id) is None,
        !act_ids_in_use(reg, pair_act, single_act),
    ensures
        ({
            let after = created(reg, body, id, pair_act, single_act, now);
            exists|k0: int|
                {
                    &&& 0 <= k0 < after.acts.len()
                    &&& act_for(id, reg.starters[ia].id)(#[trigger] after.acts[k0])
                    &&& after.acts[k0].participants.len() == 2
                    &&& forall|k: int|
                        0 <= k < after.acts.len() && (#[trigger] after.acts[k]).is_pair && (
                        after.acts[k].participants.contains(id)
                            || after.acts[k].participants.contains(reg.starters[ia].id)) ==> k
                            == k0
                }
        }),
{
    lemma_create_pairs_by_name(reg, body, id, pair_act, single_act, now, ia);
    lemma_create_keeps_links_sound(reg, body, id, pair_act, single_act, now);
    lemma_create_keeps_acts_sound(reg, body, id, pair_act, single_act, now);
    let after = created(reg, body, id, pair_act, single_act, now);
    lemma_one_pair_act(after, reg.starters.len() as int, ia);
}

} // verus!
