//! The acts of a registry follow the starters: who competes alone has a single
//! act and nobody else has one, and two starters have a pair act exactly if
//! they are each other's partner. Creating and editing starters keeps it so.

use crate::pairing::{
    create_defect, create_target, created, edit_defect, edit_target, edited, linked, links_sound,
    pair_act_of, single_act_of, single_adjusted, unpaired, AddClubStarterBodyView,
    EditClubStarterBodyView,
};
use crate::registry::{act_of, starter_with_id, ActView, RegistryView, StarterView};
use crate::search::{
    any, at_most_one, first_index, lemma_any_first_index, lemma_any_push, lemma_any_remove,
    lemma_at_most_one_push, lemma_first_index,
};
use vstd::prelude::*;

verus! {

/// A pair act in which both `a` and `b` take part.
pub open spec fn act_for(a: u128, b: u128) -> spec_fn(ActView) -> bool {
    |act: ActView| act.is_pair && act.participants.contains(a) && act.participants.contains(b)
}

/// A single act has one participant, a pair act has two.
pub open spec fn shaped(acts: Seq<ActView>) -> bool {
    forall|k: int|
        0 <= k < acts.len() ==> (#[trigger] acts[k]).participants.len() == (if acts[k].is_pair {
            2nat
        } else {
            1nat
        })
}

/// No starter takes part in two single acts, nor in two pair acts.
pub open spec fn acts_unique(acts: Seq<ActView>) -> bool {
    forall|z: u128, kind: bool| #[trigger] at_most_one(acts, act_of(z, kind))
}

/// A starter has a single act exactly if it competes alone.
pub open spec fn singles_match(reg: RegistryView) -> bool {
    forall|i: int|
        0 <= i < reg.starters.len() ==> ((#[trigger] reg.starters[i]).competes_alone() <==> any(
            reg.acts,
            act_of(reg.starters[i].id, false),
        ))
}

/// Two starters who are each other's partner have a pair act.
pub open spec fn pairs_match(reg: RegistryView) -> bool {
    forall|i: int, j: int|
        0 <= i < reg.starters.len() && 0 <= j < reg.starters.len() && (
        #[trigger] reg.starters[i]).partner_id == Some((#[trigger] reg.starters[j]).id)
            && reg.starters[j].partner_id == Some(reg.starters[i].id) ==> any(
            reg.acts,
            act_for(reg.starters[i].id, reg.starters[j].id),
        )
}

/// The two participants of the pair act are each other's partner.
pub open spec fn joins_partners(reg: RegistryView, act: ActView) -> bool {
    act.is_pair ==> linked(reg, act.participants[0], act.participants[1])
}

/// Every pair act is the act of two starters who are each other's partner.
pub open spec fn pairs_linked(reg: RegistryView) -> bool {
    forall|k: int| 0 <= k < reg.acts.len() ==> joins_partners(reg, #[trigger] reg.acts[k])
}

/// Every participant of the act is one of the starters.
pub open spec fn cast_known(starters: Seq<StarterView>, act: ActView) -> bool {
    forall|m: int|
        0 <= m < act.participants.len() ==> any(
            starters,
            starter_with_id(#[trigger] act.participants[m]),
        )
}

/// Every participant of every act is a starter of the registry.
pub open spec fn participants_exist(reg: RegistryView) -> bool {
    forall|k: int| 0 <= k < reg.acts.len() ==> cast_known(reg.starters, #[trigger] reg.acts[k])
}

/// The acts follow the starters.
pub open spec fn acts_sound(reg: RegistryView) -> bool {
    &&& shaped(reg.acts)
    &&& participants_exist(reg)
    &&& acts_unique(reg.acts)
    &&& singles_match(reg)
    &&& pairs_match(reg)
    &&& pairs_linked(reg)
}

/// Every act of `after` is an act of `before` or the act `v`.
pub open spec fn drawn_from(after: Seq<ActView>, before: Seq<ActView>, v: ActView) -> bool {
    forall|m: int| 0 <= m < after.len() ==> before.contains(#[trigger] after[m]) || after[m] == v
}

/// In an act of two participants, of whom `a` and `b` are two different ones,
/// nobody else takes part.
pub proof fn lemma_two_participants(act: ActView, a: u128, b: u128, c: u128)
    requires
        act.participants.len() == 2,
        act.participants.contains(a),
        act.participants.contains(b),
        a != b,
        c != a,
        c != b,
    ensures
        !act.participants.contains(c),
{
    let s = act.participants;
    let ia = choose|i: int| 0 <= i < s.len() && s[i] == a;
    let ib = choose|i: int| 0 <= i < s.len() && s[i] == b;
    if s.contains(c) {
        let ic = choose|i: int| 0 <= i < s.len() && s[i] == c;
        assert(ic == ia || ic == ib);
    }
}

/// What taking the pair act of `x` out does to shaped acts without doubles:
/// `x` is left without a pair act, and every other act stays.
proof fn lemma_unpaired(acts: Seq<ActView>, x: u128)
    requires
        shaped(acts),
        acts_unique(acts),
    ensures
        shaped(unpaired(acts, x)),
        acts_unique(unpaired(acts, x)),
        !any(unpaired(acts, x), act_of(x, true)),
        drawn_from(unpaired(acts, x), acts, acts[0]),
        forall|m: int| 0 <= m < unpaired(acts, x).len() ==> acts.contains(#[trigger] unpaired(acts, x)[m]),
        forall|z: u128| #[trigger]
            any(unpaired(acts, x), act_of(z, false)) <==> any(acts, act_of(z, false)),
        forall|z: u128| #[trigger]
            any(unpaired(acts, x), act_of(z, true)) ==> any(acts, act_of(z, true)),
        forall|a: u128, b: u128|
            a != b && a != x && b != x && #[trigger] any(acts, act_for(a, b)) ==> any(
                unpaired(acts, x),
                act_for(a, b),
            ),
{
    let t = unpaired(acts, x);
    lemma_first_index(acts, act_of(x, true));
    lemma_any_first_index(acts, act_of(x, true));
    match first_index(acts, act_of(x, true)) {
        Some(i) => {
            assert(t == acts.remove(i));
            assert forall|m: int| 0 <= m < t.len() implies #[trigger] t[m] == acts[if m < i {
                m
            } else {
                m + 1
            }] by {}
            assert forall|m: int| 0 <= m < t.len() implies acts.contains(#[trigger] t[m]) by {
                assert(t[m] == acts[if m < i {
                    m
                } else {
                    m + 1
                }]);
            }
            assert(shaped(t)) by {
                assert forall|m: int| 0 <= m < t.len() implies (
                #[trigger] t[m]).participants.len() == (if t[m].is_pair {
                    2nat
                } else {
                    1nat
                }) by {
                    assert(t[m] == acts[if m < i {
                        m
                    } else {
                        m + 1
                    }]);
                }
            }
            assert forall|z: u128, kind: bool| #[trigger] at_most_one(t, act_of(z, kind)) by {
                assert(at_most_one(acts, act_of(z, kind)));
                lemma_any_remove(acts, i, act_of(z, kind));
            }
            assert(at_most_one(acts, act_of(x, true)));
            lemma_any_remove(acts, i, act_of(x, true));
            assert forall|z: u128| #[trigger]
                any(t, act_of(z, false)) <==> any(acts, act_of(z, false)) by {
                lemma_any_remove(acts, i, act_of(z, false));
            }
            assert forall|z: u128| #[trigger] any(t, act_of(z, true)) implies any(
                acts,
                act_of(z, true),
            ) by {
                lemma_any_remove(acts, i, act_of(z, true));
            }
            assert forall|a: u128, b: u128|
                a != b && a != x && b != x && #[trigger] any(acts, act_for(a, b)) implies any(
                t,
                act_for(a, b),
            ) by {
                if act_for(a, b)(acts[i]) {
                    lemma_two_participants(acts[i], a, b, x);
                }
                lemma_any_remove(acts, i, act_for(a, b));
            }
        },
        None => {
            assert(t == acts);
            assert forall|m: int| 0 <= m < t.len() implies acts.contains(#[trigger] t[m]) by {}
        },
    }
}

/// What appending the act of the new pair `x` and `p`, neither of whom has a
/// pair act, does to shaped acts without doubles.
proof fn lemma_push_pair_act(acts: Seq<ActView>, v: ActView, x: u128, p: u128)
    requires
        shaped(acts),
        acts_unique(acts),
        v.is_pair,
        v.participants == seq![x, p],
        x != p,
        !any(acts, act_of(x, true)),
        !any(acts, act_of(p, true)),
    ensures
        shaped(acts.push(v)),
        acts_unique(acts.push(v)),
        drawn_from(acts.push(v), acts, v),
        act_for(x, p)(v),
        act_for(p, x)(v),
        any(acts.push(v), act_for(x, p)),
        any(acts.push(v), act_for(p, x)),
        forall|z: u128| #[trigger]
            any(acts.push(v), act_of(z, false)) <==> any(acts, act_of(z, false)),
        forall|a: u128, b: u128| #[trigger]
            any(acts, act_for(a, b)) ==> any(acts.push(v), act_for(a, b)),
{
    let t = acts.push(v);
    assert(v.participants[0] == x && v.participants[1] == p);
    assert(v.participants.contains(x) && v.participants.contains(p));
    assert forall|m: int| 0 <= m < t.len() implies (#[trigger] t[m]).participants.len() == (
    if t[m].is_pair {
        2nat
    } else {
        1nat
    }) by {
        if m < acts.len() {
            assert(t[m] == acts[m]);
        }
    }
    assert forall|m: int| 0 <= m < t.len() implies acts.contains(#[trigger] t[m]) || t[m]
        == v by {
        if m < acts.len() {
            assert(t[m] == acts[m]);
        }
    }
    assert forall|z: u128, kind: bool| #[trigger] at_most_one(t, act_of(z, kind)) by {
        assert(at_most_one(acts, act_of(z, kind)));
        if act_of(z, kind)(v) {
            let m = choose|m: int| 0 <= m < v.participants.len() && v.participants[m] == z;
            assert(z == x || z == p);
        }
        lemma_at_most_one_push(acts, v, act_of(z, kind));
    }
    lemma_any_push(acts, v, act_for(x, p));
    lemma_any_push(acts, v, act_for(p, x));
    assert forall|z: u128| #[trigger]
        any(t, act_of(z, false)) <==> any(acts, act_of(z, false)) by {
        lemma_any_push(acts, v, act_of(z, false));
    }
    assert forall|a: u128, b: u128| #[trigger] any(acts, act_for(a, b)) implies any(
        t,
        act_for(a, b),
    ) by {
        lemma_any_push(acts, v, act_for(a, b));
    }
}

/// What `single_adjusted` does to shaped acts without doubles: the single act
/// of `x` is there exactly if `x` competes alone, and nothing else changes.
proof fn lemma_single_adjusted(acts: Seq<ActView>, x: u128, alone: bool, v: ActView)
    requires
        shaped(acts),
        acts_unique(acts),
        !v.is_pair,
        v.participants == seq![x],
    ensures
        shaped(single_adjusted(acts, x, alone, v)),
        acts_unique(single_adjusted(acts, x, alone, v)),
        drawn_from(single_adjusted(acts, x, alone, v), acts, v),
        any(single_adjusted(acts, x, alone, v), act_of(x, false)) <==> alone,
        forall|z: u128|
            z != x ==> (#[trigger] any(single_adjusted(acts, x, alone, v), act_of(z, false))
                <==> any(acts, act_of(z, false))),
        forall|a: u128, b: u128| #[trigger]
            any(acts, act_for(a, b)) ==> any(single_adjusted(acts, x, alone, v), act_for(a, b)),
{
    let t = single_adjusted(acts, x, alone, v);
    lemma_first_index(acts, act_of(x, false));
    lemma_any_first_index(acts, act_of(x, false));
    assert(v.participants[0] == x);
    assert(v.participants.contains(x));
    match first_index(acts, act_of(x, false)) {
        Some(k) => {
            if alone {
                assert(t == acts);
                assert forall|m: int| 0 <= m < t.len() implies acts.contains(#[trigger] t[m]) by {}
            } else {
                let r = acts[k];
                assert(t == acts.remove(k));
                assert(r.participants.len() == 1);
                assert forall|m: int| 0 <= m < t.len() implies #[trigger] t[m] == acts[if m < k {
                    m
                } else {
                    m + 1
                }] by {}
                assert forall|m: int| 0 <= m < t.len() implies acts.contains(#[trigger] t[m]) by {
                    assert(t[m] == acts[if m < k {
                        m
                    } else {
                        m + 1
                    }]);
                }
                assert(shaped(t)) by {
                    assert forall|m: int| 0 <= m < t.len() implies (
                    #[trigger] t[m]).participants.len() == (if t[m].is_pair {
                        2nat
                    } else {
                        1nat
                    }) by {
                        assert(t[m] == acts[if m < k {
                            m
                        } else {
                            m + 1
                        }]);
                    }
                }
                assert forall|z: u128, kind: bool| #[trigger] at_most_one(t, act_of(z, kind)) by {
                    assert(at_most_one(acts, act_of(z, kind)));
                    lemma_any_remove(acts, k, act_of(z, kind));
                }
                assert(at_most_one(acts, act_of(x, false)));
                lemma_any_remove(acts, k, act_of(x, false));
                assert forall|z: u128| z != x implies (#[trigger] any(t, act_of(z, false)) <==> any(
                    acts,
                    act_of(z, false),
                )) by {
                    if r.participants.contains(z) {
                        let m = choose|m: int| 0 <= m < r.participants.len() && r.participants[m] == z;
                        let mx = choose|m: int|
                            0 <= m < r.participants.len() && r.participants[m] == x;
                        assert(m == mx);
                    }
                    lemma_any_remove(acts, k, act_of(z, false));
                }
                assert forall|a: u128, b: u128| #[trigger] any(acts, act_for(a, b)) implies any(
                    t,
                    act_for(a, b),
                ) by {
                    lemma_any_remove(acts, k, act_for(a, b));
                }
            }
        },
        None => {
            if alone {
                assert(t == acts.push(v));
                assert forall|m: int| 0 <= m < t.len() implies (
                #[trigger] t[m]).participants.len() == (if t[m].is_pair {
                    2nat
                } else {
                    1nat
                }) by {
                    if m < acts.len() {
                        assert(t[m] == acts[m]);
                    }
                }
                assert forall|m: int| 0 <= m < t.len() implies acts.contains(#[trigger] t[m])
                    || t[m] == v by {
                    if m < acts.len() {
                        assert(t[m] == acts[m]);
                    }
                }
                lemma_any_push(acts, v, act_of(x, false));
                assert forall|z: u128, kind: bool| #[trigger] at_most_one(t, act_of(z, kind)) by {
                    assert(at_most_one(acts, act_of(z, kind)));
                    if act_of(z, kind)(v) {
                        let m = choose|m: int|
                            0 <= m < v.participants.len() && v.participants[m] == z;
                        assert(m == 0);
                    }
                    lemma_at_most_one_push(acts, v, act_of(z, kind));
                }
                assert forall|z: u128| z != x implies (#[trigger] any(t, act_of(z, false)) <==> any(
                    acts,
                    act_of(z, false),
                )) by {
                    lemma_any_push(acts, v, act_of(z, false));
                    if v.participants.contains(z) {
                        let m = choose|m: int|
                            0 <= m < v.participants.len() && v.participants[m] == z;
                        assert(m == 0);
                    }
                }
                assert forall|a: u128, b: u128| #[trigger] any(acts, act_for(a, b)) implies any(
                    t,
                    act_for(a, b),
                ) by {
                    lemma_any_push(acts, v, act_for(a, b));
                }
            } else {
                assert(t == acts);
                assert forall|m: int| 0 <= m < t.len() implies acts.contains(#[trigger] t[m]) by {}
            }
        },
    }
}

/// A pair act of sound acts has two different participants, both of whom
/// take part in it.
proof fn lemma_pair_act_cast(reg: RegistryView, act: ActView)
    requires
        links_sound(reg),
        act.is_pair,
        act.participants.len() == 2,
        joins_partners(reg, act),
    ensures
        act.participants[0] != act.participants[1],
        act.participants.contains(act.participants[0]),
        act.participants.contains(act.participants[1]),
        forall|c: u128|
            c != act.participants[0] && c != act.participants[1] ==> !act.participants.contains(c),
{
    let a = act.participants[0];
    let b = act.participants[1];
    let (i, j) = choose|i: int, j: int|
        0 <= i < reg.starters.len() && 0 <= j < reg.starters.len() && (
        #[trigger] reg.starters[i]).id == a && (#[trigger] reg.starters[j]).id == b
            && reg.starters[i].partner_id == Some(b) && reg.starters[j].partner_id == Some(a);
    assert(reg.starters[i].partner_id != Some(reg.starters[i].id));
    assert forall|c: u128| c != a && c != b implies !act.participants.contains(c) by {
        if act.participants.contains(c) {
            let m = choose|m: int| 0 <= m < act.participants.len() && act.participants[m] == c;
            assert(m == 0 || m == 1);
        }
    }
}

/// What becomes of the acts when `x` is edited.
pub open spec fn moved(
    acts: Seq<ActView>,
    x: u128,
    changed: bool,
    p: Option<u128>,
    pv: ActView,
    sv: ActView,
    alone: bool,
) -> Seq<ActView> {
    let paired = if changed {
        match p {
            Some(pid) => unpaired(unpaired(acts, x), pid).push(pv),
            None => unpaired(acts, x),
        }
    } else {
        acts
    };
    single_adjusted(paired, x, alone, sv)
}

/// What becomes of the acts when `x` is created.
pub open spec fn moved_new(
    acts: Seq<ActView>,
    p: Option<u128>,
    pv: ActView,
    sv: ActView,
    alone: bool,
) -> Seq<ActView> {
    let singles = if alone {
        acts.push(sv)
    } else {
        acts
    };
    match p {
        Some(pid) => unpaired(singles, pid).push(pv),
        None => singles,
    }
}

/// The act is the new single act, the new pair act, or an act that was there
/// before; where the partner has changed, a pair act that was there before
/// holds neither `x` nor the new partner.
pub open spec fn kept(
    before: Seq<ActView>,
    act: ActView,
    x: u128,
    changed: bool,
    p: Option<u128>,
    pv: ActView,
    sv: ActView,
) -> bool {
    ||| act == sv
    ||| changed && p is Some && act == pv
    ||| before.contains(act) && (changed && act.is_pair ==> !act.participants.contains(x) && (
    p is Some ==> !act.participants.contains(p.unwrap())))
}

/// The couple `a` and `b` is not touched by a change of the partner of `x` to
/// `p`.
pub open spec fn stays(a: u128, b: u128, x: u128, changed: bool, p: Option<u128>) -> bool {
    a != b && (changed ==> a != x && b != x && (p is Some ==> a != p.unwrap() && b != p.unwrap()))
}

/// How the acts `after` stand to the acts `before` when `x` has been edited
/// or created.
#[verifier::opaque]
pub open spec fn acts_moved(
    before: Seq<ActView>,
    after: Seq<ActView>,
    x: u128,
    changed: bool,
    p: Option<u128>,
    pv: ActView,
    sv: ActView,
    alone: bool,
) -> bool {
    &&& shaped(after)
    &&& acts_unique(after)
    &&& any(after, act_of(x, false)) <==> alone
    &&& forall|z: u128|
        z != x ==> (#[trigger] any(after, act_of(z, false)) <==> any(before, act_of(z, false)))
    &&& forall|k: int|
        0 <= k < after.len() ==> kept(before, #[trigger] after[k], x, changed, p, pv, sv)
    &&& forall|a: u128, b: u128|
        stays(a, b, x, changed, p) && #[trigger] any(before, act_for(a, b)) ==> any(
            after,
            act_for(a, b),
        )
    &&& changed && p is Some ==> any(after, act_for(x, p.unwrap())) && any(
        after,
        act_for(p.unwrap(), x),
    )
}

proof fn lemma_moved(
    acts: Seq<ActView>,
    x: u128,
    changed: bool,
    p: Option<u128>,
    pv: ActView,
    sv: ActView,
    alone: bool,
)
    requires
        shaped(acts),
        acts_unique(acts),
        !sv.is_pair,
        sv.participants == seq![x],
        p matches Some(pid) ==> pv.is_pair && pv.participants == seq![x, pid] && x != pid,
    ensures
        acts_moved(acts, moved(acts, x, changed, p, pv, sv, alone), x, changed, p, pv, sv, alone),
{
    reveal(acts_moved);
    reveal(rows_moved);
    let s1 = unpaired(acts, x);
    let paired = if changed {
        match p {
            Some(pid) => unpaired(s1, pid).push(pv),
            None => s1,
        }
    } else {
        acts
    };
    let after = single_adjusted(paired, x, alone, sv);
    assert(after == moved(acts, x, changed, p, pv, sv, alone));
    if changed {
        lemma_unpaired(acts, x);
        if p is Some {
            let pid = p.unwrap();
            let s2 = unpaired(s1, pid);
            lemma_unpaired(s1, pid);
            assert(!any(s2, act_of(x, true))) by {
                if any(s2, act_of(x, true)) {
                    assert(any(s1, act_of(x, true)));
                }
            }
            lemma_push_pair_act(s2, pv, x, pid);
            assert forall|k: int| 0 <= k < paired.len() implies kept(
                acts,
                #[trigger] paired[k],
                x,
                changed,
                p,
                pv,
                sv,
            ) by {
                let act = paired[k];
                if act != pv {
                    assert(s2.contains(act));
                    let k2 = choose|k2: int| 0 <= k2 < s2.len() && s2[k2] == act;
                    assert(s1.contains(s2[k2]));
                    let k1 = choose|k1: int| 0 <= k1 < s1.len() && s1[k1] == act;
                    assert(acts.contains(s1[k1]));
                    if act.is_pair && act.participants.contains(x) {
                        assert(act_of(x, true)(s1[k1]));
                    }
                    if act.is_pair && act.participants.contains(pid) {
                        assert(act_of(pid, true)(s2[k2]));
                    }
                }
            }
            assert forall|z: u128| #[trigger]
                any(paired, act_of(z, false)) <==> any(acts, act_of(z, false)) by {
                assert(any(s1, act_of(z, false)) <==> any(acts, act_of(z, false)));
                assert(any(s2, act_of(z, false)) <==> any(s1, act_of(z, false)));
                assert(any(paired, act_of(z, false)) <==> any(s2, act_of(z, false)));
            }
            assert forall|a: u128, b: u128|
                stays(a, b, x, changed, p) && #[trigger] any(acts, act_for(a, b)) implies any(
                paired,
                act_for(a, b),
            ) by {
                assert(any(s1, act_for(a, b)));
                assert(any(s2, act_for(a, b)));
            }
        } else {
            assert forall|k: int| 0 <= k < paired.len() implies kept(
                acts,
                #[trigger] paired[k],
                x,
                changed,
                p,
                pv,
                sv,
            ) by {
                let act = paired[k];
                assert(acts.contains(act));
                if act.is_pair && act.participants.contains(x) {
                    assert(act_of(x, true)(s1[k]));
                }
            }
        }
    } else {
        assert forall|k: int| 0 <= k < paired.len() implies kept(
            acts,
            #[trigger] paired[k],
            x,
            changed,
            p,
            pv,
            sv,
        ) by {
            assert(acts.contains(paired[k]));
        }
    }
    lemma_single_adjusted(paired, x, alone, sv);
    assert forall|k: int| 0 <= k < after.len() implies kept(
        acts,
        #[trigger] after[k],
        x,
        changed,
        p,
        pv,
        sv,
    ) by {
        let act = after[k];
        if act != sv {
            assert(paired.contains(act));
            let kp = choose|kp: int| 0 <= kp < paired.len() && paired[kp] == act;
            assert(kept(acts, paired[kp], x, changed, p, pv, sv));
        }
    }
    assert forall|z: u128| z != x implies (#[trigger] any(after, act_of(z, false)) <==> any(
        acts,
        act_of(z, false),
    )) by {
        assert(any(paired, act_of(z, false)) <==> any(acts, act_of(z, false)));
    }
    assert forall|a: u128, b: u128|
        stays(a, b, x, changed, p) && #[trigger] any(acts, act_for(a, b)) implies any(
        after,
        act_for(a, b),
    ) by {
        assert(any(paired, act_for(a, b)));
    }
    if changed && p is Some {
        assert(any(paired, act_for(x, p.unwrap())));
        assert(any(paired, act_for(p.unwrap(), x)));
    }
}

proof fn lemma_moved_new(
    acts: Seq<ActView>,
    x: u128,
    p: Option<u128>,
    pv: ActView,
    sv: ActView,
    alone: bool,
)
    requires
        shaped(acts),
        acts_unique(acts),
        !any(acts, act_of(x, false)),
        !any(acts, act_of(x, true)),
        !sv.is_pair,
        sv.participants == seq![x],
        p matches Some(pid) ==> pv.is_pair && pv.participants == seq![x, pid] && x != pid,
    ensures
        acts_moved(acts, moved_new(acts, p, pv, sv, alone), x, true, p, pv, sv, alone),
{
    reveal(acts_moved);
    reveal(rows_moved);
    let singles = single_adjusted(acts, x, alone, sv);
    lemma_single_adjusted(acts, x, alone, sv);
    lemma_any_first_index(acts, act_of(x, false));
    assert(singles == if alone {
        acts.push(sv)
    } else {
        acts
    });
    let after = moved_new(acts, p, pv, sv, alone);
    assert(!any(singles, act_of(x, true))) by {
        if any(singles, act_of(x, true)) {
            let k = choose|k: int| 0 <= k < singles.len() && act_of(x, true)(#[trigger] singles[k]);
            assert(acts.contains(singles[k]) || singles[k] == sv);
            let k0 = choose|k0: int| 0 <= k0 < acts.len() && acts[k0] == singles[k];
            assert(act_of(x, true)(acts[k0]));
        }
    }
    assert forall|k: int| 0 <= k < singles.len() implies kept(
        acts,
        #[trigger] singles[k],
        x,
        true,
        None,
        pv,
        sv,
    ) by {
        let act = singles[k];
        if act != sv {
            assert(acts.contains(act));
            if act.is_pair && act.participants.contains(x) {
                assert(act_of(x, true)(singles[k]));
            }
        }
    }
    if p is Some {
        let pid = p.unwrap();
        let s2 = unpaired(singles, pid);
        lemma_unpaired(singles, pid);
        assert(!any(s2, act_of(x, true))) by {
            if any(s2, act_of(x, true)) {
                assert(any(singles, act_of(x, true)));
            }
        }
        lemma_push_pair_act(s2, pv, x, pid);
        assert forall|k: int| 0 <= k < after.len() implies kept(
            acts,
            #[trigger] after[k],
            x,
            true,
            p,
            pv,
            sv,
        ) by {
            let act = after[k];
            if act != pv {
                assert(s2.contains(act));
                let k2 = choose|k2: int| 0 <= k2 < s2.len() && s2[k2] == act;
                assert(singles.contains(s2[k2]));
                let k1 = choose|k1: int| 0 <= k1 < singles.len() && singles[k1] == act;
                assert(kept(acts, singles[k1], x, true, None, pv, sv));
                if act.is_pair && act.participants.contains(pid) {
                    assert(act_of(pid, true)(s2[k2]));
                }
            }
        }
        assert forall|z: u128| z != x implies (#[trigger] any(after, act_of(z, false)) <==> any(
            acts,
            act_of(z, false),
        )) by {
            assert(any(singles, act_of(z, false)) <==> any(acts, act_of(z, false)));
            assert(any(s2, act_of(z, false)) <==> any(singles, act_of(z, false)));
            assert(any(after, act_of(z, false)) <==> any(s2, act_of(z, false)));
        }
        assert(any(after, act_of(x, false)) <==> alone) by {
            assert(any(s2, act_of(x, false)) <==> any(singles, act_of(x, false)));
            assert(any(after, act_of(x, false)) <==> any(s2, act_of(x, false)));
        }
        assert forall|a: u128, b: u128|
            stays(a, b, x, true, p) && #[trigger] any(acts, act_for(a, b)) implies any(
            after,
            act_for(a, b),
        ) by {
            assert(any(singles, act_for(a, b)));
            assert(any(s2, act_for(a, b)));
        }
    } else {
        assert(after == singles);
        assert forall|a: u128, b: u128|
            stays(a, b, x, true, p) && #[trigger] any(acts, act_for(a, b)) implies any(
            after,
            act_for(a, b),
        ) by {
            assert(any(singles, act_for(a, b)));
        }
    }
}

/// How the starters `after` stand to the starters `before` when the partner
/// of the starter at `i` has become `p`: the identifiers stay, the starter
/// has `p` for a partner and `p` the starter, and everybody else keeps the
/// partner or loses it; who is not touched keeps it.
#[verifier::opaque]
pub open spec fn rows_moved(
    before: Seq<StarterView>,
    after: Seq<StarterView>,
    i: int,
    changed: bool,
    p: Option<u128>,
    alone: bool,
) -> bool {
    &&& 0 <= i < after.len()
    &&& before.len() <= after.len() <= before.len() + 1
    &&& before.len() < after.len() ==> i == before.len()
    &&& forall|j: int| 0 <= j < before.len() ==> (#[trigger] after[j]).id == before[j].id
    &&& after[i].partner_id == p
    &&& after[i].competes_alone() == alone
    &&& forall|j: int|
        0 <= j < before.len() && j != i ==> (#[trigger] after[j]).competes_alone()
            == before[j].competes_alone()
    &&& forall|j: int|
        0 <= j < before.len() && j != i ==> {
            ||| (#[trigger] after[j]).partner_id == before[j].partner_id
            ||| changed && after[j].partner_id is None
            ||| changed && p == Some(after[j].id) && after[j].partner_id == Some(after[i].id)
        }
    &&& forall|j: int|
        0 <= j < before.len() && j != i && changed && (i < before.len() ==> before[i].partner_id
            != Some(before[j].id)) && (p is Some ==> before[j].partner_id != p && p != Some(
            before[j].id,
        )) ==> (#[trigger] after[j]).partner_id == before[j].partner_id
    &&& !changed ==> i < before.len() && p == before[i].partner_id
    &&& changed && p is Some ==> exists|ip: int|
        0 <= ip < before.len() && ip != i && (#[trigger] after[ip]).id == p.unwrap()
            && after[ip].partner_id == Some(after[i].id)
}

proof fn lemma_rows_known(before: RegistryView, after: RegistryView, i: int, changed: bool, p: Option<u128>, alone: bool)
    requires
        rows_moved(before.starters, after.starters, i, changed, p, alone),
    ensures
        forall|q: u128| any(before.starters, starter_with_id(q)) ==> #[trigger] any(
            after.starters,
            starter_with_id(q),
        ),
        any(after.starters, starter_with_id(after.starters[i].id)),
{
    reveal(acts_moved);
    reveal(rows_moved);
    assert forall|q: u128| any(before.starters, starter_with_id(q)) implies #[trigger] any(
        after.starters,
        starter_with_id(q),
    ) by {
        let w = choose|w: int|
            0 <= w < before.starters.len() && starter_with_id(q)(#[trigger] before.starters[w]);
        assert(starter_with_id(q)(after.starters[w]));
    }
    assert(starter_with_id(after.starters[i].id)(after.starters[i]));
}

/// Sound acts and links that have moved as an edit or a creation moves them
/// are sound acts.
#[verifier::rlimit(60)]
proof fn lemma_moved_sound(
    before: RegistryView,
    after: RegistryView,
    i: int,
    changed: bool,
    p: Option<u128>,
    pv: ActView,
    sv: ActView,
    alone: bool,
)
    requires
        links_sound(before),
        acts_sound(before),
        rows_moved(before.starters, after.starters, i, changed, p, alone),
        acts_moved(
            before.acts,
            after.acts,
            after.starters[i].id,
            changed,
            p,
            pv,
            sv,
            alone,
        ),
        i == before.starters.len() ==> !any(before.starters, starter_with_id(after.starters[i].id)),
        sv.participants == seq![after.starters[i].id],
        !sv.is_pair,
        p matches Some(pid) ==> pv.is_pair && pv.participants == seq![after.starters[i].id, pid]
            && pid != after.starters[i].id,
        changed && p is Some ==> any(before.starters, starter_with_id(p.unwrap())),
    ensures
        acts_sound(after),
{
    reveal(acts_moved);
    reveal(rows_moved);
    let x = after.starters[i].id;
    lemma_rows_known(before, after, i, changed, p, alone);
    lemma_participants_stay(before, after, i, changed, p, pv, sv, alone);
    lemma_singles_stay(before, after, i, changed, p, pv, sv, alone);
    lemma_pairs_stay(before, after, i, changed, p, pv, sv, alone);
    lemma_pair_acts_stay(before, after, i, changed, p, pv, sv, alone);
}

proof fn lemma_participants_stay(
    before: RegistryView,
    after: RegistryView,
    i: int,
    changed: bool,
    p: Option<u128>,
    pv: ActView,
    sv: ActView,
    alone: bool,
)
    requires
        participants_exist(before),
        rows_moved(before.starters, after.starters, i, changed, p, alone),
        forall|k: int|
            0 <= k < after.acts.len() ==> kept(
                before.acts,
                #[trigger] after.acts[k],
                after.starters[i].id,
                changed,
                p,
                pv,
                sv,
            ),
        sv.participants == seq![after.starters[i].id],
        p matches Some(pid) ==> pv.participants == seq![after.starters[i].id, pid],
        changed && p is Some ==> any(before.starters, starter_with_id(p.unwrap())),
    ensures
        participants_exist(after),
{
    reveal(acts_moved);
    reveal(rows_moved);
    let x = after.starters[i].id;
    lemma_rows_known(before, after, i, changed, p, alone);
    assert forall|k: int| 0 <= k < after.acts.len() implies cast_known(
        after.starters,
        #[trigger] after.acts[k],
    ) by {
        let act = after.acts[k];
        assert(kept(before.acts, act, x, changed, p, pv, sv));
        assert forall|m: int| 0 <= m < act.participants.len() implies any(
            after.starters,
            starter_with_id(#[trigger] act.participants[m]),
        ) by {
            let q = act.participants[m];
            if act == sv {
                assert(q == x);
            } else if changed && p is Some && act == pv {
                assert(q == x || q == p.unwrap());
                assert(any(before.starters, starter_with_id(p.unwrap())));
            } else {
                let k0 = choose|k0: int| 0 <= k0 < before.acts.len() && before.acts[k0] == act;
                assert(cast_known(before.starters, before.acts[k0]));
                assert(any(before.starters, starter_with_id(q)));
            }
        }
    }
}

proof fn lemma_singles_stay(
    before: RegistryView,
    after: RegistryView,
    i: int,
    changed: bool,
    p: Option<u128>,
    pv: ActView,
    sv: ActView,
    alone: bool,
)
    requires
        links_sound(before),
        singles_match(before),
        rows_moved(before.starters, after.starters, i, changed, p, alone),
        acts_moved(
            before.acts,
            after.acts,
            after.starters[i].id,
            changed,
            p,
            pv,
            sv,
            alone,
        ),
        i == before.starters.len() ==> !any(before.starters, starter_with_id(after.starters[i].id)),
    ensures
        singles_match(after),
{
    reveal(acts_moved);
    reveal(rows_moved);
    let x = after.starters[i].id;
    assert forall|j: int| 0 <= j < after.starters.len() implies ((
    #[trigger] after.starters[j]).competes_alone() <==> any(
        after.acts,
        act_of(after.starters[j].id, false),
    )) by {
        let z = after.starters[j].id;
        if j != i {
            assert(before.starters[j].id == z);
            if i < before.starters.len() {
                assert(before.starters[i].id == x);
                assert(before.starters[j].id != before.starters[i].id);
            } else {
                assert(starter_with_id(z)(before.starters[j]));
            }
            assert(z != x);
            assert(any(after.acts, act_of(z, false)) <==> any(before.acts, act_of(z, false)));
        }
    }
}

#[verifier::rlimit(60)]
proof fn lemma_pairs_stay(
    before: RegistryView,
    after: RegistryView,
    i: int,
    changed: bool,
    p: Option<u128>,
    pv: ActView,
    sv: ActView,
    alone: bool,
)
    requires
        links_sound(before),
        pairs_match(before),
        rows_moved(before.starters, after.starters, i, changed, p, alone),
        acts_moved(
            before.acts,
            after.acts,
            after.starters[i].id,
            changed,
            p,
            pv,
            sv,
            alone,
        ),
        i == before.starters.len() ==> !any(before.starters, starter_with_id(after.starters[i].id)),
        p matches Some(pid) ==> pid != after.starters[i].id,
    ensures
        pairs_match(after),
{
    reveal(acts_moved);
    reveal(rows_moved);
    let x = after.starters[i].id;
    let n = before.starters.len() as int;
    assert forall|a: int, b: int|
        0 <= a < after.starters.len() && 0 <= b < after.starters.len() && (
        #[trigger] after.starters[a]).partner_id == Some((#[trigger] after.starters[b]).id)
            && after.starters[b].partner_id == Some(after.starters[a].id) implies any(
        after.acts,
        act_for(after.starters[a].id, after.starters[b].id),
    ) by {
        let ida = after.starters[a].id;
        let idb = after.starters[b].id;
        if a == i || b == i {
            if changed {
                assert(p is Some);
                assert((ida == x && idb == p.unwrap()) || (ida == p.unwrap() && idb == x));
            } else {
                let o = if a == i {
                    b
                } else {
                    a
                };
                assert(o != i);
                assert(before.starters[o].id == after.starters[o].id);
                assert(before.starters[i].id == x);
                assert(before.starters[i].partner_id == Some(before.starters[o].id));
                assert(before.starters[o].partner_id == Some(before.starters[i].id));
                assert(any(before.acts, act_for(ida, idb)));
                assert(stays(ida, idb, x, changed, p));
            }
        } else {
            assert(before.starters[a].id == ida && before.starters[b].id == idb);
            if i < n {
                assert(before.starters[i].id == x);
            } else {
                assert(starter_with_id(ida)(before.starters[a]));
                assert(starter_with_id(idb)(before.starters[b]));
            }
            assert(ida != x && idb != x);
            if changed && p is Some && (ida == p.unwrap() || idb == p.unwrap()) {
                let ip = choose|ip: int|
                    0 <= ip < before.starters.len() && ip != i && (
                    #[trigger] after.starters[ip]).id == p.unwrap() && after.starters[ip].partner_id
                        == Some(after.starters[i].id);
                assert(before.starters[ip].id == p.unwrap());
                assert(a == ip || b == ip);
                assert(false);
            }
            assert(before.starters[a].partner_id == Some(idb));
            assert(before.starters[b].partner_id == Some(ida));
            assert(any(before.acts, act_for(ida, idb)));
            assert(stays(ida, idb, x, changed, p));
        }
    }
}

#[verifier::rlimit(80)]
proof fn lemma_pair_acts_stay(
    before: RegistryView,
    after: RegistryView,
    i: int,
    changed: bool,
    p: Option<u128>,
    pv: ActView,
    sv: ActView,
    alone: bool,
)
    requires
        links_sound(before),
        shaped(before.acts),
        pairs_linked(before),
        rows_moved(before.starters, after.starters, i, changed, p, alone),
        forall|k: int|
            0 <= k < after.acts.len() ==> kept(
                before.acts,
                #[trigger] after.acts[k],
                after.starters[i].id,
                changed,
                p,
                pv,
                sv,
            ),
        !sv.is_pair,
        p matches Some(pid) ==> pv.participants == seq![after.starters[i].id, pid],
    ensures
        pairs_linked(after),
{
    reveal(acts_moved);
    reveal(rows_moved);
    let x = after.starters[i].id;
    let n = before.starters.len() as int;
    assert forall|k: int| 0 <= k < after.acts.len() implies joins_partners(
        after,
        #[trigger] after.acts[k],
    ) by {
        let act = after.acts[k];
        assert(kept(before.acts, act, x, changed, p, pv, sv));
        if act.is_pair {
            let a = act.participants[0];
            let b = act.participants[1];
            if changed && p is Some && act == pv {
                let ip = choose|ip: int|
                    0 <= ip < before.starters.len() && ip != i && (
                    #[trigger] after.starters[ip]).id == p.unwrap() && after.starters[ip].partner_id
                        == Some(after.starters[i].id);
                assert(pv.participants[0] == x && pv.participants[1] == p.unwrap());
                assert(after.starters[i].id == a && after.starters[ip].id == b);
            } else {
                let k0 = choose|k0: int| 0 <= k0 < before.acts.len() && before.acts[k0] == act;
                assert(joins_partners(before, before.acts[k0]));
                assert(act.participants.len() == 2);
                lemma_pair_act_cast(before, act);
                let (ia, ib) = choose|ia: int, ib: int|
                    0 <= ia < before.starters.len() && 0 <= ib < before.starters.len() && (
                    #[trigger] before.starters[ia]).id == a && (
                    #[trigger] before.starters[ib]).id == b && before.starters[ia].partner_id
                        == Some(b) && before.starters[ib].partner_id == Some(a);
                assert(after.starters[ia].id == a && after.starters[ib].id == b);
                if changed {
                    assert(a != x && b != x);
                    assert(ia != i && ib != i);
                    assert(p is Some ==> a != p.unwrap() && b != p.unwrap());
                    if i < n {
                        assert(before.starters[i].id == x);
                        if before.starters[i].partner_id == Some(before.starters[ia].id) {
                            assert(before.starters[ia].partner_id == Some(before.starters[i].id));
                        }
                        if before.starters[i].partner_id == Some(before.starters[ib].id) {
                            assert(before.starters[ib].partner_id == Some(before.starters[i].id));
                        }
                    }
                    assert(after.starters[ia].partner_id == before.starters[ia].partner_id);
                    assert(after.starters[ib].partner_id == before.starters[ib].partner_id);
                } else {
                    if ia == i {
                        assert(after.starters[i].partner_id == before.starters[i].partner_id);
                    }
                    if ib == i {
                        assert(after.starters[i].partner_id == before.starters[i].partner_id);
                    }
                    assert(after.starters[ia].partner_id == Some(b));
                    assert(after.starters[ib].partner_id == Some(a));
                }
            }
        }
    }
}

proof fn lemma_edited_acts(
    reg: RegistryView,
    body: EditClubStarterBodyView,
    pair_act: u128,
    single_act: u128,
    now: i64,
)
    ensures
        ({
            let x = body.starter_id;
            let row = reg.starters[reg.find_starter(x).unwrap()];
            let p = edit_target(reg, row, body);
            let sv = single_act_of(single_act, now, x);
            let pv = if p is Some {
                pair_act_of(pair_act, now, x, p.unwrap())
            } else {
                sv
            };
            edited(reg, body, pair_act, single_act, now).acts == moved(
                reg.acts,
                x,
                p != row.partner_id,
                p,
                pv,
                sv,
                body.single_male || body.single_female,
            )
        }),
{
}

/// An edit keeps the acts in line with the starters: who competes alone has
/// a single act and nobody else has one, and two starters have a pair act
/// exactly if they are each other's partner.
#[verifier::rlimit(60)]
pub proof fn lemma_edit_keeps_acts_sound(
    reg: RegistryView,
    body: EditClubStarterBodyView,
    pair_act: u128,
    single_act: u128,
    now: i64,
)
    requires
        links_sound(reg),
        acts_sound(reg),
        edit_defect(reg, body, pair_act, single_act) is None,
    ensures
        acts_sound(edited(reg, body, pair_act, single_act, now)),
{
    let x = body.starter_id;
    let i = reg.find_starter(x).unwrap();
    let row = reg.starters[i];
    let p = edit_target(reg, row, body);
    let after = edited(reg, body, pair_act, single_act, now);
    let alone = body.single_male || body.single_female;
    let sv = single_act_of(single_act, now, x);
    let changed = p != row.partner_id;
    let pv = if p is Some {
        pair_act_of(pair_act, now, x, p.unwrap())
    } else {
        sv
    };
    lemma_edit_moves_rows(reg, body, pair_act, single_act, now);
    lemma_edited_acts(reg, body, pair_act, single_act, now);
    lemma_moved(reg.acts, x, changed, p, pv, sv, alone);
    lemma_moved_sound(reg, after, i, changed, p, pv, sv, alone);
}

proof fn lemma_edit_moves_rows(
    reg: RegistryView,
    body: EditClubStarterBodyView,
    pair_act: u128,
    single_act: u128,
    now: i64,
)
    requires
        links_sound(reg),
        edit_defect(reg, body, pair_act, single_act) is None,
    ensures
        ({
            let i = reg.find_starter(body.starter_id).unwrap();
            let p = edit_target(reg, reg.starters[i], body);
            &&& 0 <= i < reg.starters.len()
            &&& reg.starters[i].id == body.starter_id
            &&& edited(reg, body, pair_act, single_act, now).starters[i].id == body.starter_id
            &&& rows_moved(
                reg.starters,
                edited(reg, body, pair_act, single_act, now).starters,
                i,
                p != reg.starters[i].partner_id,
                p,
                body.single_male || body.single_female,
            )
            &&& p != reg.starters[i].partner_id && p is Some ==> p.unwrap() != body.starter_id
                && any(reg.starters, starter_with_id(p.unwrap()))
        }),
{
    reveal(acts_moved);
    reveal(rows_moved);
    let x = body.starter_id;
    lemma_first_index(reg.starters, starter_with_id(x));
    let i = reg.find_starter(x).unwrap();
    let row = reg.starters[i];
    let p = edit_target(reg, row, body);
    let after = edited(reg, body, pair_act, single_act, now).starters;
    let changed = p != row.partner_id;
    assert(after.len() == reg.starters.len());
    assert forall|j: int| 0 <= j < reg.starters.len() implies (#[trigger] after[j]).id
        == reg.starters[j].id by {}
    if changed && p is Some {
        lemma_first_index(reg.starters, starter_with_id(p.unwrap()));
        let ip = reg.find_starter(p.unwrap()).unwrap();
        assert(starter_with_id(p.unwrap())(reg.starters[ip]));
        assert(after[ip].id == p.unwrap());
        assert(after[ip].partner_id == Some(after[i].id));
    }
}

proof fn lemma_create_moves_rows(
    reg: RegistryView,
    body: AddClubStarterBodyView,
    id: u128,
    pair_act: u128,
    single_act: u128,
    now: i64,
)
    requires
        links_sound(reg),
        create_defect(reg, body, id, pair_act, single_act) is None,
    ensures
        created(reg, body, id, pair_act, single_act, now).starters.len() == reg.starters.len() + 1,
        created(reg, body, id, pair_act, single_act, now).starters[reg.starters.len() as int].id
            == id,
        rows_moved(
            reg.starters,
            created(reg, body, id, pair_act, single_act, now).starters,
            reg.starters.len() as int,
            true,
            create_target(reg, body),
            body.single_male || body.single_female,
        ),
        !any(reg.starters, starter_with_id(id)),
        create_target(reg, body) matches Some(pid) ==> pid != id && any(
            reg.starters,
            starter_with_id(pid),
        ),
{
    reveal(acts_moved);
    reveal(rows_moved);
    let p = create_target(reg, body);
    let after = created(reg, body, id, pair_act, single_act, now).starters;
    let n = reg.starters.len() as int;
    lemma_first_index(reg.starters, starter_with_id(id));
    lemma_any_first_index(reg.starters, starter_with_id(id));
    assert(after.len() == n + 1);
    assert(after[n].id == id);
    assert forall|j: int| 0 <= j < n implies (#[trigger] after[j]).id == reg.starters[j].id by {}
    if p is Some {
        lemma_first_index(reg.starters, starter_with_id(p.unwrap()));
        let ip = reg.find_starter(p.unwrap()).unwrap();
        assert(starter_with_id(p.unwrap())(reg.starters[ip]));
        assert(after[ip].id == p.unwrap());
        assert(after[ip].partner_id == Some(after[n].id));
    }
}

proof fn lemma_newcomer_has_no_act(reg: RegistryView, id: u128)
    requires
        participants_exist(reg),
        !any(reg.starters, starter_with_id(id)),
    ensures
        !any(reg.acts, act_of(id, false)),
        !any(reg.acts, act_of(id, true)),
{
    assert forall|kind: bool| !#[trigger] any(reg.acts, act_of(id, kind)) by {
        if any(reg.acts, act_of(id, kind)) {
            let k = choose|k: int| 0 <= k < reg.acts.len() && act_of(id, kind)(#[trigger] reg.acts[k]);
            let m = choose|m: int|
                0 <= m < reg.acts[k].participants.len() && reg.acts[k].participants[m] == id;
            assert(cast_known(reg.starters, reg.acts[k]));
            assert(any(reg.starters, starter_with_id(reg.acts[k].participants[m])));
        }
    }
    assert(!any(reg.acts, act_of(id, false)));
    assert(!any(reg.acts, act_of(id, true)));
}

/// A creation keeps the acts in line with the starters.
#[verifier::rlimit(60)]
pub proof fn lemma_create_keeps_acts_sound(
    reg: RegistryView,
    body: AddClubStarterBodyView,
    id: u128,
    pair_act: u128,
    single_act: u128,
    now: i64,
)
    requires
        links_sound(reg),
        acts_sound(reg),
        create_defect(reg, body, id, pair_act, single_act) is None,
    ensures
        acts_sound(created(reg, body, id, pair_act, single_act, now)),
{
    let p = create_target(reg, body);
    let after = created(reg, body, id, pair_act, single_act, now);
    let n = reg.starters.len() as int;
    let alone = body.single_male || body.single_female;
    let sv = single_act_of(single_act, now, id);
    let pv = if p is Some {
        pair_act_of(pair_act, now, id, p.unwrap())
    } else {
        sv
    };
    lemma_create_moves_rows(reg, body, id, pair_act, single_act, now);
    lemma_newcomer_has_no_act(reg, id);
    lemma_moved_new(reg.acts, id, p, pv, sv, alone);
    assert(after.acts == moved_new(reg.acts, p, pv, sv, alone));
    lemma_moved_sound(reg, after, n, true, p, pv, sv, alone);
}

} // verus!
