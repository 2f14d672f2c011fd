//! Pairing: the partner links between starters and the acts that follow from
//! them, kept up as starters are created and edited.
//!
//! An operation either fails and changes nothing, or is carried out whole.

use crate::clock::unix_now;
use crate::http_server::{HttpError, HttpErrorView, FORBIDDEN};
use crate::ids::{random_id, time_ordered_id};
use crate::registry::{
    act_of, fresh_act, full_name, starter_with_id, without, Act, ActView, Registry, RegistryView,
    Starter, StarterView,
};
use crate::search::{
    any, first_from, first_index, last_before, last_index, lemma_first_index,
};
use crate::system_status::Capabilities;
use crate::timeplan::text;
use vstd::prelude::*;

verus! {

/// What is submitted to edit a starter.
#[derive(Clone, Debug, PartialEq, Eq)]
pub struct EditClubStarterBody {
    pub starter_id: u128,
    pub firstname: String,
    pub lastname: String,
    pub birthdate: i64,
    pub single_sonderpokal: bool,
    pub single_male: bool,
    pub single_female: bool,
    pub pair_sonderpokal: bool,
    pub pair: bool,
    pub partner_name: Option<String>,
    pub partner_id: Option<u128>,
}

pub struct EditClubStarterBodyView {
    pub starter_id: u128,
    pub firstname: Seq<char>,
    pub lastname: Seq<char>,
    pub birthdate: i64,
    pub single_sonderpokal: bool,
    pub single_male: bool,
    pub single_female: bool,
    pub pair_sonderpokal: bool,
    pub pair: bool,
    pub partner_name: Option<Seq<char>>,
    pub partner_id: Option<u128>,
}

impl View for EditClubStarterBody {
    type V = EditClubStarterBodyView;

    open spec fn view(&self) -> EditClubStarterBodyView {
        EditClubStarterBodyView {
            starter_id: self.starter_id,
            firstname: self.firstname@,
            lastname: self.lastname@,
            birthdate: self.birthdate,
            single_sonderpokal: self.single_sonderpokal,
            single_male: self.single_male,
            single_female: self.single_female,
            pair_sonderpokal: self.pair_sonderpokal,
            pair: self.pair,
            partner_name: text(self.partner_name),
            partner_id: self.partner_id,
        }
    }
}

/// The answer to an edit.
#[derive(Clone, Debug, PartialEq, Eq)]
pub struct EditClubStarterResponse {}

/// What is submitted to create a starter.
#[derive(Clone, Debug, PartialEq, Eq)]
pub struct AddClubStarterBody {
    pub club_id: u128,
    pub firstname: String,
    pub lastname: String,
    pub birthdate: i64,
    pub single_sonderpokal: bool,
    pub single_male: bool,
    pub single_female: bool,
    pub pair_sonderpokal: bool,
    pub pair: bool,
    pub partner_id: Option<u128>,
    pub partner_name: Option<String>,
}

pub struct AddClubStarterBodyView {
    pub club_id: u128,
    pub firstname: Seq<char>,
    pub lastname: Seq<char>,
    pub birthdate: i64,
    pub single_sonderpokal: bool,
    pub single_male: bool,
    pub single_female: bool,
    pub pair_sonderpokal: bool,
    pub pair: bool,
    pub partner_id: Option<u128>,
    pub partner_name: Option<Seq<char>>,
}

impl View for AddClubStarterBody {
    type V = AddClubStarterBodyView;

    open spec fn view(&self) -> AddClubStarterBodyView {
        AddClubStarterBodyView {
            club_id: self.club_id,
            firstname: self.firstname@,
            lastname: self.lastname@,
            birthdate: self.birthdate,
            single_sonderpokal: self.single_sonderpokal,
            single_male: self.single_male,
            single_female: self.single_female,
            pair_sonderpokal: self.pair_sonderpokal,
            pair: self.pair,
            partner_id: self.partner_id,
            partner_name: text(self.partner_name),
        }
    }
}

/// The answer to a creation: the identifier of the new starter.
#[derive(Clone, Debug, PartialEq, Eq)]
pub struct AddClubStarterResponse {
    pub starter_id: u128,
}

/// Why a starter could not be created or edited.
#[derive(Clone, Copy, Debug, PartialEq, Eq, Structural)]
pub enum PairingError {
    /// No starter has the identifier that is to be edited.
    StarterNotFound,
    /// The partner that was resolved is no starter of the registry.
    PartnerNotFound,
    /// The partner that was resolved is the starter itself.
    SelfPartner,
    /// An identifier meant for something new is in use.
    IdInUse,
}

impl PairingError {
    /// The failure as a request fails with it.
    pub open spec fn spec_http(self) -> HttpErrorView {
        match self {
            PairingError::StarterNotFound => HttpErrorView::NotFound,
            PairingError::PartnerNotFound => HttpErrorView::NotFound,
            PairingError::SelfPartner => HttpErrorView::ErrorMessages(
                "Fahrer und Partner sind die selbe Person!"@,
            ),
            PairingError::IdInUse => HttpErrorView::InternalServerError,
        }
    }

    /// The failure as a request fails with it: self-partnering with its
    /// message, a missing starter as not found.
    pub fn into_http(self) -> (res: HttpError)
        ensures
            res@ == self.spec_http(),
    {
        match self {
            PairingError::StarterNotFound => HttpError::NotFound,
            PairingError::PartnerNotFound => HttpError::NotFound,
            PairingError::SelfPartner => HttpError::ErrorMessages(
                "Fahrer und Partner sind die selbe Person!".to_owned(),
            ),
            PairingError::IdInUse => HttpError::InternalServerError,
        }
    }
}

/// A starter of the club, open to a pair, with that full name.
pub open spec fn candidate(club: u128, name: Seq<char>) -> spec_fn(StarterView) -> bool {
    |s: StarterView| s.club_id == club && s.pair && s.full_name() == name
}

/// The partner that a name stands for: the one candidate of that name in the
/// club. No name, no candidate or several candidates resolve to nothing.
pub open spec fn resolve_by_name(reg: RegistryView, club: u128, name: Option<Seq<char>>) -> Option<
    u128,
> {
    match name {
        Some(n) => match (
            first_index(reg.starters, candidate(club, n)),
            last_index(reg.starters, candidate(club, n)),
        ) {
            (Some(i), Some(j)) => if i == j {
                Some(reg.starters[i].id)
            } else {
                None
            },
            _ => None,
        },
        None => None,
    }
}

/// The partner: the one given explicitly, or else the one the name stands for.
pub open spec fn resolve(
    reg: RegistryView,
    club: u128,
    name: Option<Seq<char>>,
    explicit: Option<u128>,
) -> Option<u128> {
    match explicit {
        Some(p) => Some(p),
        None => resolve_by_name(reg, club, name),
    }
}

/// The partner that an edit of `row` resolves to. An explicit partner counts
/// only if the partner's name is submitted as it is stored and the starter is
/// open to a pair; else the name decides.
pub open spec fn edit_target(reg: RegistryView, row: StarterView, body: EditClubStarterBodyView) -> Option<
    u128,
> {
    let explicit = if row.partner_name == body.partner_name && body.pair {
        body.partner_id
    } else {
        None
    };
    resolve(reg, row.club_id, body.partner_name, explicit)
}

/// Two identifiers meant for new acts cannot both be given out.
pub open spec fn act_ids_in_use(reg: RegistryView, a: u128, b: u128) -> bool {
    a == b || reg.find_act(a) is Some || reg.find_act(b) is Some
}

/// Why the edit fails, if it does.
pub open spec fn edit_defect(
    reg: RegistryView,
    body: EditClubStarterBodyView,
    pair_act: u128,
    single_act: u128,
) -> Option<PairingError> {
    match reg.find_starter(body.starter_id) {
        None => Some(PairingError::StarterNotFound),
        Some(i) => {
            let row = reg.starters[i];
            let target = edit_target(reg, row, body);
            if target != row.partner_id && target == Some(body.starter_id) {
                Some(PairingError::SelfPartner)
            } else if target != row.partner_id && target is Some && reg.find_starter(
                target.unwrap(),
            ) is None {
                Some(PairingError::PartnerNotFound)
            } else if act_ids_in_use(reg, pair_act, single_act) {
                Some(PairingError::IdInUse)
            } else {
                None
            }
        },
    }
}

/// The starter without a partner.
pub open spec fn cleared(s: StarterView) -> StarterView {
    StarterView { partner_id: None, partner_name: None, ..s }
}

/// The starter with the partner `x` of the name `name`.
pub open spec fn linked_to(s: StarterView, x: u128, name: Seq<char>) -> StarterView {
    StarterView { partner_id: Some(x), partner_name: Some(name), ..s }
}

/// What becomes of the starter `s` when `x`, of the name `name`, leaves the
/// partner `y` for the partner `p`: `y` loses its partner, whoever has `p` for
/// a partner loses it, and `p` gets `x`.
pub open spec fn relinked(
    s: StarterView,
    x: u128,
    name: Seq<char>,
    y: Option<u128>,
    p: Option<u128>,
) -> StarterView {
    let s1 = if y == Some(s.id) {
        cleared(s)
    } else {
        s
    };
    let s2 = if p is Some && s1.partner_id == p {
        cleared(s1)
    } else {
        s1
    };
    if p == Some(s.id) {
        linked_to(s2, x, name)
    } else {
        s2
    }
}

/// What becomes of all starters when `x` leaves `y` for `p`.
pub open spec fn relinked_all(
    starters: Seq<StarterView>,
    x: u128,
    name: Seq<char>,
    y: Option<u128>,
    p: Option<u128>,
) -> Seq<StarterView> {
    Seq::new(starters.len(), |j: int| relinked(starters[j], x, name, y, p))
}

/// The starter `s` with the submitted fields and the partner `p`.
pub open spec fn rewritten(s: StarterView, body: EditClubStarterBodyView, p: Option<u128>) -> StarterView {
    StarterView {
        id: s.id,
        club_id: s.club_id,
        firstname: body.firstname,
        lastname: body.lastname,
        birthdate: body.birthdate,
        single_sonderpokal: body.single_sonderpokal,
        single_male: body.single_male,
        single_female: body.single_female,
        pair_sonderpokal: body.pair_sonderpokal,
        pair: body.pair,
        partner_id: p,
        partner_name: body.partner_name,
    }
}

/// The acts after `x` and `p` have become a pair: the pair act of each is
/// gone, and the act of the new pair is there.
pub open spec fn repaired(acts: Seq<ActView>, x: u128, p: u128, pair_act: ActView) -> Seq<ActView> {
    unpaired(unpaired(acts, x), p).push(pair_act)
}

/// The acts without the pair act of `x`.
pub open spec fn unpaired(acts: Seq<ActView>, x: u128) -> Seq<ActView> {
    without(acts, first_index(acts, act_of(x, true)))
}

/// The acts after the single act of `x` has been brought in line with
/// whether `x` competes alone.
pub open spec fn single_adjusted(acts: Seq<ActView>, x: u128, alone: bool, single_act: ActView) -> Seq<
    ActView,
> {
    match first_index(acts, act_of(x, false)) {
        Some(k) => if alone {
            acts
        } else {
            acts.remove(k)
        },
        None => if alone {
            acts.push(single_act)
        } else {
            acts
        },
    }
}

/// The act of a new pair.
pub open spec fn pair_act_of(id: u128, now: i64, x: u128, p: u128) -> ActView {
    fresh_act(id, now, Seq::empty(), None, true, seq![x, p])
}

/// The act of a starter who competes alone.
pub open spec fn single_act_of(id: u128, now: i64, x: u128) -> ActView {
    fresh_act(id, now, Seq::empty(), None, false, seq![x])
}

/// The registry after the edit. Where the partner has changed, the links are
/// set anew, the pair act of the starter goes, and if there is a new partner,
/// the pair act of that partner goes too and the two get one of their own.
/// The row takes the submitted fields; the single act follows the flags.
pub open spec fn edited(
    reg: RegistryView,
    body: EditClubStarterBodyView,
    pair_act: u128,
    single_act: u128,
    now: i64,
) -> RegistryView {
    let x = body.starter_id;
    let i = reg.find_starter(x).unwrap();
    let row = reg.starters[i];
    let p = edit_target(reg, row, body);
    let links = if p != row.partner_id {
        relinked_all(reg.starters, x, full_name(body.firstname, body.lastname), row.partner_id, p)
    } else {
        reg.starters
    };
    let paired = if p != row.partner_id {
        match p {
            Some(pid) => repaired(reg.acts, x, pid, pair_act_of(pair_act, now, x, pid)),
            None => unpaired(reg.acts, x),
        }
    } else {
        reg.acts
    };
    RegistryView {
        starters: links.update(i, rewritten(links[i], body, p)),
        acts: single_adjusted(
            paired,
            x,
            body.single_male || body.single_female,
            single_act_of(single_act, now, x),
        ),
    }
}

fn same_text(a: &Option<String>, b: &Option<String>) -> (r: bool)
    ensures
        r == (text(*a) == text(*b)),
{
    match (a, b) {
        (Some(x), Some(y)) => *x == *y,
        (None, None) => true,
        _ => false,
    }
}

fn same_id(a: Option<u128>, b: Option<u128>) -> (r: bool)
    ensures
        r == (a == b),
{
    match (a, b) {
        (Some(x), Some(y)) => x == y,
        (None, None) => true,
        _ => false,
    }
}

/// First name, a space, last name.
pub fn join_name(firstname: &String, lastname: &String) -> (res: String)
    ensures
        res@ == full_name(firstname@, lastname@),
{
    let mut full = firstname.clone();
    full.append(" ");
    full.append(lastname.as_str());
    proof {
        reveal_strlit(" ");
        assert(" "@ =~= seq![' ']);
    }
    full
}

fn is_candidate(s: &Starter, club: u128, name: &String) -> (r: bool)
    ensures
        r == candidate(club, name@)(s@),
{
    if s.club_id != club || !s.pair {
        return false;
    }
    let full = join_name(&s.firstname, &s.lastname);
    full == *name
}

fn act_new(id: u128, now: i64, is_pair: bool, participants: Vec<u128>) -> (res: Act)
    ensures
        res@ == fresh_act(id, now, Seq::empty(), None, is_pair, participants@),
{
    Act {
        id,
        name: String::new(),
        description: None,
        is_pair,
        order: None,
        song_file: None,
        song_file_name: None,
        song_checked: false,
        created_at: now,
        started_at: None,
        ended_at: None,
        participants,
    }
}

impl Registry {
    /// The partner that a name stands for.
    pub fn resolve_by_name(&self, club: u128, name: &Option<String>) -> (res: Option<u128>)
        ensures
            res == resolve_by_name(self@, club, text(*name)),
    {
        let n = match name {
            Some(n) => n,
            None => {
                return None;
            },
        };
        let mut first: Option<usize> = None;
        let mut i: usize = 0;
        while i < self.starters.len() && first.is_none()
            invariant
                i <= self.starters.len(),
                match first {
                    Some(f) => first_index(self@.starters, candidate(club, n@)) == Some(f as int)
                        && f < self.starters@.len(),
                    None => first_index(self@.starters, candidate(club, n@)) == first_from(
                        self@.starters,
                        candidate(club, n@),
                        i as int,
                    ),
                },
            decreases self.starters.len() - i + (if first is None { 1int } else { 0 }),
        {
            if is_candidate(&self.starters[i], club, n) {
                first = Some(i);
            } else {
                i = i + 1;
            }
        }
        let f = match first {
            Some(f) => f,
            None => {
                return None;
            },
        };
        let mut last: Option<usize> = None;
        let mut k: usize = self.starters.len();
        while k > 0 && last.is_none()
            invariant
                k <= self.starters.len(),
                match last {
                    Some(l) => last_index(self@.starters, candidate(club, n@)) == Some(l as int),
                    None => last_index(self@.starters, candidate(club, n@)) == last_before(
                        self@.starters,
                        candidate(club, n@),
                        k as int,
                    ),
                },
            decreases k + (if last is None { 1int } else { 0 }),
        {
            if is_candidate(&self.starters[k - 1], club, n) {
                last = Some(k - 1);
            } else {
                k = k - 1;
            }
        }
        match last {
            Some(l) => if l == f {
                Some(self.starters[f].id)
            } else {
                None
            },
            None => None,
        }
    }

    /// Sets the links anew as `x` leaves `y` for `p`.
    fn relink(&mut self, x: u128, name: &String, y: Option<u128>, p: Option<u128>)
        ensures
            final(self)@.acts == old(self)@.acts,
            final(self)@.starters == relinked_all(old(self)@.starters, x, name@, y, p),
    {
        let mut j: usize = 0;
        while j < self.starters.len()
            invariant
                j <= self.starters.len(),
                self.starters@.len() == old(self).starters@.len(),
                self.acts == old(self).acts,
                forall|m: int|
                    0 <= m < j ==> (#[trigger] self.starters@[m])@ == relinked(
                        old(self).starters@[m]@,
                        x,
                        name@,
                        y,
                        p,
                    ),
                forall|m: int|
                    j <= m < self.starters@.len() ==> #[trigger] self.starters@[m] == old(self).starters@[m],
            decreases self.starters.len() - j,
        {
            let id = self.starters[j].id;
            if same_id(y, Some(id)) {
                self.starters[j].partner_id = None;
                self.starters[j].partner_name = None;
            }
            if p.is_some() && same_id(self.starters[j].partner_id, p) {
                self.starters[j].partner_id = None;
                self.starters[j].partner_name = None;
            }
            if same_id(p, Some(id)) {
                self.starters[j].partner_id = Some(x);
                self.starters[j].partner_name = Some(name.clone());
            }
            j = j + 1;
        }
        assert(self@.starters =~= relinked_all(old(self)@.starters, x, name@, y, p));
        assert(self@.acts =~= old(self)@.acts);
    }

    /// Gives the row at `i` the submitted fields and the partner `p`.
    fn rewrite(&mut self, i: usize, body: EditClubStarterBody, p: Option<u128>)
        requires
            i < old(self)@.starters.len(),
        ensures
            final(self)@.acts == old(self)@.acts,
            final(self)@.starters == old(self)@.starters.update(
                i as int,
                rewritten(old(self)@.starters[i as int], body@, p),
            ),
    {
        assert(self@.starters.len() == self.starters@.len());
        self.starters[i].firstname = body.firstname;
        self.starters[i].lastname = body.lastname;
        self.starters[i].birthdate = body.birthdate;
        self.starters[i].single_sonderpokal = body.single_sonderpokal;
        self.starters[i].single_male = body.single_male;
        self.starters[i].single_female = body.single_female;
        self.starters[i].pair_sonderpokal = body.pair_sonderpokal;
        self.starters[i].pair = body.pair;
        self.starters[i].partner_name = body.partner_name;
        self.starters[i].partner_id = p;
        assert(self@.starters =~= old(self)@.starters.update(
            i as int,
            rewritten(old(self)@.starters[i as int], body@, p),
        ));
        assert(self@.acts =~= old(self)@.acts);
    }

    /// Makes `x` and `p` a pair in the acts.
    /// Takes the pair act of `x` out.
    fn unpair(&mut self, x: u128)
        ensures
            final(self)@.starters == old(self)@.starters,
            final(self)@.acts == unpaired(old(self)@.acts, x),
    {
        let own = self.act_index_of(x, true);
        self.remove_act(own);
    }

    fn repair(&mut self, x: u128, p: u128, pair_act: u128, now: i64)
        ensures
            final(self)@.starters == old(self)@.starters,
            final(self)@.acts == repaired(old(self)@.acts, x, p, pair_act_of(pair_act, now, x, p)),
    {
        self.unpair(x);
        self.unpair(p);
        let mut participants: Vec<u128> = Vec::new();
        participants.push(x);
        participants.push(p);
        assert(participants@ =~= seq![x, p]);
        self.push_act(act_new(pair_act, now, true, participants));
    }

    /// Brings the single act of `x` in line with whether `x` competes alone.
    fn adjust_single(&mut self, x: u128, alone: bool, single_act: u128, now: i64)
        ensures
            final(self)@.starters == old(self)@.starters,
            final(self)@.acts == single_adjusted(
                old(self)@.acts,
                x,
                alone,
                single_act_of(single_act, now, x),
            ),
    {
        match self.act_index_of(x, false) {
            Some(k) => {
                if !alone {
                    self.remove_act_at(k);
                }
            },
            None => {
                if alone {
                    let mut participants: Vec<u128> = Vec::new();
                    participants.push(x);
                    assert(participants@ =~= seq![x]);
                    self.push_act(act_new(single_act, now, false, participants));
                }
            },
        }
    }
}

/// Edits a starter. The identifiers `pair_act` and `single_act` are for the
/// acts that the edit may have to make, `now` is the time of the edit.
///
/// Whenever the partner changes, the pair act of the starter is taken out.
///
/// Fails, and changes nothing, if the starter does not exist, if the partner
/// has changed and is the starter itself or no starter at all, or if an act
/// identifier is in use.
pub fn update_starter(
    db: &mut Registry,
    body: EditClubStarterBody,
    pair_act: u128,
    single_act: u128,
    now: i64,
) -> (res: Result<(), PairingError>)
    ensures
        match edit_defect(old(db)@, body@, pair_act, single_act) {
            Some(e) => res == Err::<(), PairingError>(e) && final(db)@ == old(db)@,
            None => res is Ok && final(db)@ == edited(old(db)@, body@, pair_act, single_act, now),
        },
{
    let x = body.starter_id;
    let i = match db.starter_index(x) {
        Some(i) => i,
        None => {
            return Err(PairingError::StarterNotFound);
        },
    };
    let explicit = if same_text(&db.starters[i].partner_name, &body.partner_name) && body.pair {
        body.partner_id
    } else {
        None
    };
    let p = match explicit {
        Some(p) => Some(p),
        None => db.resolve_by_name(db.starters[i].club_id, &body.partner_name),
    };
    let y = db.starters[i].partner_id;
    let changed = !same_id(p, y);
    assert(db@.starters[i as int] == db.starters@[i as int]@);
    assert(p == edit_target(db@, db@.starters[i as int], body@));
    if changed {
        if let Some(pid) = p {
            if pid == x {
                return Err(PairingError::SelfPartner);
            }
            if db.starter_index(pid).is_none() {
                return Err(PairingError::PartnerNotFound);
            }
        }
    }
    if pair_act == single_act || db.act_index(pair_act).is_some() || db.act_index(
        single_act,
    ).is_some() {
        return Err(PairingError::IdInUse);
    }
    let alone = body.single_male || body.single_female;
    if changed {
        let name = join_name(&body.firstname, &body.lastname);
        db.relink(x, &name, y, p);
        match p {
            Some(pid) => db.repair(x, pid, pair_act, now),
            None => db.unpair(x),
        }
    }
    db.rewrite(i, body, p);
    db.adjust_single(x, alone, single_act, now);
    Ok(())
}

/// The row of a new starter.
pub open spec fn new_row(body: AddClubStarterBodyView, id: u128, p: Option<u128>) -> StarterView {
    StarterView {
        id: id,
        club_id: body.club_id,
        firstname: body.firstname,
        lastname: body.lastname,
        birthdate: body.birthdate,
        single_sonderpokal: body.single_sonderpokal,
        single_male: body.single_male,
        single_female: body.single_female,
        pair_sonderpokal: body.pair_sonderpokal,
        pair: body.pair,
        partner_id: p,
        partner_name: body.partner_name,
    }
}

/// The partner that a creation resolves to.
pub open spec fn create_target(reg: RegistryView, body: AddClubStarterBodyView) -> Option<u128> {
    resolve(reg, body.club_id, body.partner_name, body.partner_id)
}

/// Why the creation fails, if it does.
pub open spec fn create_defect(
    reg: RegistryView,
    body: AddClubStarterBodyView,
    id: u128,
    pair_act: u128,
    single_act: u128,
) -> Option<PairingError> {
    let target = create_target(reg, body);
    if target == Some(id) {
        Some(PairingError::SelfPartner)
    } else if target is Some && reg.find_starter(target.unwrap()) is None {
        Some(PairingError::PartnerNotFound)
    } else if reg.find_starter(id) is Some || act_ids_in_use(reg, pair_act, single_act) {
        Some(PairingError::IdInUse)
    } else {
        None
    }
}

/// The registry after the creation. Where a partner is resolved, whoever had
/// that partner loses it, the pair act of that partner goes, and the two are
/// linked; the new starter gets a single act if it competes alone, and the
/// pair an act of its own.
pub open spec fn created(
    reg: RegistryView,
    body: AddClubStarterBodyView,
    id: u128,
    pair_act: u128,
    single_act: u128,
    now: i64,
) -> RegistryView {
    let p = create_target(reg, body);
    let links = if p is Some {
        relinked_all(reg.starters, id, full_name(body.firstname, body.lastname), None, p)
    } else {
        reg.starters
    };
    let singles = if body.single_male || body.single_female {
        reg.acts.push(single_act_of(single_act, now, id))
    } else {
        reg.acts
    };
    RegistryView {
        starters: links.push(new_row(body, id, p)),
        acts: match p {
            Some(pid) => unpaired(singles, pid).push(pair_act_of(pair_act, now, id, pid)),
            None => singles,
        },
    }
}

impl Registry {
    /// Appends a starter.
    fn push_starter(&mut self, starter: Starter)
        ensures
            final(self)@.acts == old(self)@.acts,
            final(self)@.starters == old(self)@.starters.push(starter@),
    {
        self.starters.push(starter);
        assert(self@.acts =~= old(self)@.acts);
        assert(self@.starters =~= old(self)@.starters.push(starter@));
    }
}

/// Creates a starter with the identifier `id`. The identifiers `pair_act` and
/// `single_act` are for the acts that the creation may have to make, `now` is
/// the time of the creation.
///
/// Fails, and changes nothing, if the partner is the new starter itself or no
/// starter at all, or if an identifier is in use.
pub fn create_starter(
    db: &mut Registry,
    body: AddClubStarterBody,
    id: u128,
    pair_act: u128,
    single_act: u128,
    now: i64,
) -> (res: Result<(), PairingError>)
    ensures
        match create_defect(old(db)@, body@, id, pair_act, single_act) {
            Some(e) => res == Err::<(), PairingError>(e) && final(db)@ == old(db)@,
            None => res is Ok && final(db)@ == created(
                old(db)@,
                body@,
                id,
                pair_act,
                single_act,
                now,
            ),
        },
{
    let p = match body.partner_id {
        Some(p) => Some(p),
        None => db.resolve_by_name(body.club_id, &body.partner_name),
    };
    if let Some(pid) = p {
        if pid == id {
            return Err(PairingError::SelfPartner);
        }
        if db.starter_index(pid).is_none() {
            return Err(PairingError::PartnerNotFound);
        }
    }
    if db.starter_index(id).is_some() || pair_act == single_act || db.act_index(pair_act).is_some()
        || db.act_index(single_act).is_some() {
        return Err(PairingError::IdInUse);
    }
    if p.is_some() {
        let name = join_name(&body.firstname, &body.lastname);
        db.relink(id, &name, None, p);
    }
    if body.single_male || body.single_female {
        let mut participants: Vec<u128> = Vec::new();
        participants.push(id);
        assert(participants@ =~= seq![id]);
        db.push_act(act_new(single_act, now, false, participants));
    }
    if let Some(pid) = p {
        db.unpair(pid);
        let mut participants: Vec<u128> = Vec::new();
        participants.push(id);
        participants.push(pid);
        assert(participants@ =~= seq![id, pid]);
        db.push_act(act_new(pair_act, now, true, participants));
    }
    db.push_starter(
        Starter {
            id,
            club_id: body.club_id,
            firstname: body.firstname,
            lastname: body.lastname,
            birthdate: body.birthdate,
            single_sonderpokal: body.single_sonderpokal,
            single_male: body.single_male,
            single_female: body.single_female,
            pair_sonderpokal: body.pair_sonderpokal,
            pair: body.pair,
            partner_id: p,
            partner_name: body.partner_name,
        },
    );
    Ok(())
}

/// How a request ended, without what it answered.
pub open spec fn ending<T>(r: Result<T, HttpError>) -> Result<(), HttpErrorView> {
    match r {
        Ok(_) => Ok(()),
        Err(e) => Err(e@),
    }
}

/// What an edit on behalf of a caller with the capabilities `caps` does:
/// without the capability to register starters it is forbidden and changes
/// nothing; with it, it is the edit.
pub open spec fn edit_outcome(
    before: RegistryView,
    after: RegistryView,
    end: Result<(), HttpErrorView>,
    caps: Capabilities,
    body: EditClubStarterBodyView,
    pair_act: u128,
    single_act: u128,
    now: i64,
) -> bool {
    if !caps.can_register_starter {
        end == Err::<(), HttpErrorView>(HttpErrorView::StatusCode(FORBIDDEN)) && after == before
    } else {
        match edit_defect(before, body, pair_act, single_act) {
            Some(e) => end == Err::<(), HttpErrorView>(e.spec_http()) && after == before,
            None => end is Ok && after == edited(before, body, pair_act, single_act, now),
        }
    }
}

/// Edits a starter on behalf of a caller; see `update_starter`.
pub fn edit_club_starter_with(
    db: &mut Registry,
    capabilities: &Capabilities,
    body: EditClubStarterBody,
    pair_act: u128,
    single_act: u128,
    now: i64,
) -> (res: Result<EditClubStarterResponse, HttpError>)
    ensures
        edit_outcome(
            old(db)@,
            final(db)@,
            ending(res),
            *capabilities,
            body@,
            pair_act,
            single_act,
            now,
        ),
{
    if !capabilities.can_register_starter {
        return Err(HttpError::StatusCode(FORBIDDEN));
    }
    match update_starter(db, body, pair_act, single_act, now) {
        Ok(()) => Ok(EditClubStarterResponse {  }),
        Err(e) => Err(e.into_http()),
    }
}

/// Edits a starter on behalf of a caller, with fresh random identifiers for
/// the acts and at the current time of the system clock.
pub fn edit_club_starter(
    db: &mut Registry,
    capabilities: &Capabilities,
    body: EditClubStarterBody,
) -> (res: Result<EditClubStarterResponse, HttpError>)
    ensures
        exists|pair_act: u128, single_act: u128, now: i64| #[trigger]
            edit_outcome(
                old(db)@,
                final(db)@,
                ending(res),
                *capabilities,
                body@,
                pair_act,
                single_act,
                now,
            ),
{
    let pair_act = random_id();
    let single_act = random_id();
    let now = unix_now();
    let ghost submitted = body@;
    let res = edit_club_starter_with(db, capabilities, body, pair_act, single_act, now);
    assert(edit_outcome(
        old(db)@,
        db@,
        ending(res),
        *capabilities,
        submitted,
        pair_act,
        single_act,
        now,
    ));
    res
}

/// What a creation on behalf of a caller with the capabilities `caps` does:
/// without the capability to register starters it is forbidden and changes
/// nothing; with it, it is the creation.
pub open spec fn add_outcome(
    before: RegistryView,
    after: RegistryView,
    end: Result<(), HttpErrorView>,
    caps: Capabilities,
    body: AddClubStarterBodyView,
    id: u128,
    pair_act: u128,
    single_act: u128,
    now: i64,
) -> bool {
    if !caps.can_register_starter {
        end == Err::<(), HttpErrorView>(HttpErrorView::StatusCode(FORBIDDEN)) && after == before
    } else {
        match create_defect(before, body, id, pair_act, single_act) {
            Some(e) => end == Err::<(), HttpErrorView>(e.spec_http()) && after == before,
            None => end is Ok && after == created(before, body, id, pair_act, single_act, now),
        }
    }
}

/// Creates a starter on behalf of a caller and answers with its identifier;
/// see `create_starter`.
pub fn add_club_starter_with(
    db: &mut Registry,
    capabilities: &Capabilities,
    body: AddClubStarterBody,
    id: u128,
    pair_act: u128,
    single_act: u128,
    now: i64,
) -> (res: Result<AddClubStarterResponse, HttpError>)
    ensures
        add_outcome(
            old(db)@,
            final(db)@,
            ending(res),
            *capabilities,
            body@,
            id,
            pair_act,
            single_act,
            now,
        ),
        res matches Ok(r) ==> r.starter_id == id,
{
    if !capabilities.can_register_starter {
        return Err(HttpError::StatusCode(FORBIDDEN));
    }
    match create_starter(db, body, id, pair_act, single_act, now) {
        Ok(()) => Ok(AddClubStarterResponse { starter_id: id }),
        Err(e) => Err(e.into_http()),
    }
}

/// Creates a starter on behalf of a caller, with a fresh time-ordered
/// identifier for the starter, fresh random identifiers for the acts and at
/// the current time of the system clock.
pub fn add_club_starter(
    db: &mut Registry,
    capabilities: &Capabilities,
    body: AddClubStarterBody,
) -> (res: Result<AddClubStarterResponse, HttpError>)
    ensures
        exists|id: u128, pair_act: u128, single_act: u128, now: i64|
            {
                &&& #[trigger] add_outcome(
                    old(db)@,
                    final(db)@,
                    ending(res),
                    *capabilities,
                    body@,
                    id,
                    pair_act,
                    single_act,
                    now,
                )
                &&& res matches Ok(r) ==> r.starter_id == id
            },
{
    let id = time_ordered_id();
    let pair_act = random_id();
    let single_act = random_id();
    let now = unix_now();
    let ghost submitted = body@;
    let res = add_club_starter_with(db, capabilities, body, id, pair_act, single_act, now);
    assert(add_outcome(
        old(db)@,
        db@,
        ending(res),
        *capabilities,
        submitted,
        id,
        pair_act,
        single_act,
        now,
    ));
    res
}

/// No two starters have the same identifier.
pub open spec fn unique_ids(reg: RegistryView) -> bool {
    forall|i: int, j: int|
        0 <= i < reg.starters.len() && 0 <= j < reg.starters.len() && (
        #[trigger] reg.starters[i]).id == (#[trigger] reg.starters[j]).id ==> i == j
}

/// Whoever is the partner of a starter has that starter for a partner.
pub open spec fn symmetric(reg: RegistryView) -> bool {
    forall|i: int, j: int|
        0 <= i < reg.starters.len() && 0 <= j < reg.starters.len() && (
        #[trigger] reg.starters[i]).partner_id == Some((#[trigger] reg.starters[j]).id)
            ==> reg.starters[j].partner_id == Some(reg.starters[i].id)
}

/// No starter is its own partner.
pub open spec fn no_self_partner(reg: RegistryView) -> bool {
    forall|i: int|
        0 <= i < reg.starters.len() ==> (#[trigger] reg.starters[i]).partner_id != Some(
            reg.starters[i].id,
        )
}

/// Every partner is a starter of the registry.
pub open spec fn partners_exist(reg: RegistryView) -> bool {
    forall|i: int|
        0 <= i < reg.starters.len() && (#[trigger] reg.starters[i]).partner_id is Some ==> any(
            reg.starters,
            starter_with_id(reg.starters[i].partner_id.unwrap()),
        )
}

/// The partner links are sound: identifiers are unique, every partner is a
/// starter, the links go both ways, and nobody is linked to itself.
pub open spec fn links_sound(reg: RegistryView) -> bool {
    unique_ids(reg) && partners_exist(reg) && symmetric(reg) && no_self_partner(reg)
}

/// The starters `a` and `b` are each other's partner.
pub open spec fn linked(reg: RegistryView, a: u128, b: u128) -> bool {
    exists|i: int, j: int|
        0 <= i < reg.starters.len() && 0 <= j < reg.starters.len() && (
        #[trigger] reg.starters[i]).id == a && (#[trigger] reg.starters[j]).id == b
            && reg.starters[i].partner_id == Some(b) && reg.starters[j].partner_id == Some(a)
}

/// An edit keeps sound links sound, and where it gives the starter a new
/// partner, the two are each other's partner right after it.
pub proof fn lemma_edit_keeps_links_sound(
    reg: RegistryView,
    body: EditClubStarterBodyView,
    pair_act: u128,
    single_act: u128,
    now: i64,
)
    requires
        links_sound(reg),
        edit_defect(reg, body, pair_act, single_act) is None,
    ensures
        links_sound(edited(reg, body, pair_act, single_act, now)),
        ({
            let row = reg.starters[reg.find_starter(body.starter_id).unwrap()];
            let p = edit_target(reg, row, body);
            p != row.partner_id && p is Some ==> linked(
                edited(reg, body, pair_act, single_act, now),
                body.starter_id,
                p.unwrap(),
            )
        }),
{
    let x = body.starter_id;
    lemma_first_index(reg.starters, starter_with_id(x));
    let i = reg.find_starter(x).unwrap();
    let row = reg.starters[i];
    let p = edit_target(reg, row, body);
    let after = edited(reg, body, pair_act, single_act, now);
    assert(after.starters.len() == reg.starters.len());
    assert forall|j: int| 0 <= j < reg.starters.len() implies (#[trigger] after.starters[j]).id
        == reg.starters[j].id by {}
    if p != row.partner_id {
        if p is Some {
            lemma_first_index(reg.starters, starter_with_id(p.unwrap()));
            let ip = reg.find_starter(p.unwrap()).unwrap();
            assert(after.starters[i].id == x && after.starters[ip].id == p.unwrap());
            assert(after.starters[i].partner_id == p);
            assert(after.starters[ip].partner_id == Some(x));
        }
        assert forall|a: int, b: int|
            0 <= a < after.starters.len() && 0 <= b < after.starters.len() && (
            #[trigger] after.starters[a]).partner_id == Some(
                (#[trigger] after.starters[b]).id,
            ) implies after.starters[b].partner_id == Some(after.starters[a].id) by {
            assert(reg.starters[a].id == after.starters[a].id);
            assert(reg.starters[b].id == after.starters[b].id);
            assert(reg.starters[i].id == x);
        }
        assert forall|a: int| 0 <= a < after.starters.len() implies (
        #[trigger] after.starters[a]).partner_id != Some(after.starters[a].id) by {
            assert(reg.starters[a].id == after.starters[a].id);
        }
    } else {
        assert forall|a: int, b: int|
            0 <= a < after.starters.len() && 0 <= b < after.starters.len() && (
            #[trigger] after.starters[a]).partner_id == Some(
                (#[trigger] after.starters[b]).id,
            ) implies after.starters[b].partner_id == Some(after.starters[a].id) by {
            assert(reg.starters[a].id == after.starters[a].id);
            assert(reg.starters[b].id == after.starters[b].id);
        }
        assert forall|a: int| 0 <= a < after.starters.len() implies (
        #[trigger] after.starters[a]).partner_id != Some(after.starters[a].id) by {
            assert(reg.starters[a].id == after.starters[a].id);
        }
    }
    assert(unique_ids(after)) by {
        assert forall|a: int, b: int|
            0 <= a < after.starters.len() && 0 <= b < after.starters.len() && (
            #[trigger] after.starters[a]).id == (#[trigger] after.starters[b]).id implies a
            == b by {
            assert(reg.starters[a].id == reg.starters[b].id);
        }
    }
    assert forall|a: int|
        0 <= a < after.starters.len() && (#[trigger] after.starters[a]).partner_id is Some implies any(
        after.starters,
        starter_with_id(after.starters[a].partner_id.unwrap()),
    ) by {
        let q = after.starters[a].partner_id.unwrap();
        assert(reg.starters[a].id == after.starters[a].id);
        if q == x {
            assert(starter_with_id(q)(after.starters[i]));
        } else if p == Some(q) && p != row.partner_id {
            let ip = reg.find_starter(q).unwrap();
            assert(starter_with_id(q)(after.starters[ip]));
        } else {
            if a == i {
                assert(reg.starters[i].partner_id == Some(q));
            } else {
                assert(reg.starters[a].partner_id == Some(q));
            }
            let w = choose|w: int|
                0 <= w < reg.starters.len() && starter_with_id(q)(#[trigger] reg.starters[w]);
            assert(starter_with_id(q)(after.starters[w]));
        }
    }
}

/// A creation keeps sound links sound, and where it resolves a partner, the
/// new starter and the partner are each other's partner right after it.
pub proof fn lemma_create_keeps_links_sound(
    reg: RegistryView,
    body: AddClubStarterBodyView,
    id: u128,
    pair_act: u128,
    single_act: u128,
    now: i64,
)
    requires
        links_sound(reg),
        create_defect(reg, body, id, pair_act, single_act) is None,
    ensures
        links_sound(created(reg, body, id, pair_act, single_act, now)),
        create_target(reg, body) matches Some(p) ==> linked(
            created(reg, body, id, pair_act, single_act, now),
            id,
            p,
        ),
{
    let p = create_target(reg, body);
    let after = created(reg, body, id, pair_act, single_act, now);
    let n = reg.starters.len() as int;
    lemma_first_index(reg.starters, starter_with_id(id));
    assert(after.starters.len() == n + 1);
    assert(after.starters[n] == new_row(body, id, p));
    assert forall|j: int| 0 <= j < n implies (#[trigger] after.starters[j]).id
        == reg.starters[j].id && after.starters[j].id != id by {
        assert(!starter_with_id(id)(reg.starters[j]));
    }
    if p is Some {
        lemma_first_index(reg.starters, starter_with_id(p.unwrap()));
        let ip = reg.find_starter(p.unwrap()).unwrap();
        assert(after.starters[ip].id == p.unwrap());
        assert(after.starters[ip].partner_id == Some(id));
        assert(after.starters[n].id == id);
    }
    assert forall|a: int, b: int|
        0 <= a < after.starters.len() && 0 <= b < after.starters.len() && (
        #[trigger] after.starters[a]).partner_id == Some(
            (#[trigger] after.starters[b]).id,
        ) implies after.starters[b].partner_id == Some(after.starters[a].id) by {
        if a < n {
            assert(reg.starters[a].id == after.starters[a].id);
            if reg.starters[a].partner_id is Some {
                let q = reg.starters[a].partner_id.unwrap();
                let w = choose|w: int|
                    0 <= w < reg.starters.len() && starter_with_id(q)(#[trigger] reg.starters[w]);
                assert(reg.starters[w].id != id);
            }
        }
        if b < n {
            assert(reg.starters[b].id == after.starters[b].id);
        }
    }
    assert forall|a: int| 0 <= a < after.starters.len() implies (
    #[trigger] after.starters[a]).partner_id != Some(after.starters[a].id) by {
        if a < n {
            assert(reg.starters[a].id == after.starters[a].id);
        }
    }
    assert(unique_ids(after)) by {
        assert forall|a: int, b: int|
            0 <= a < after.starters.len() && 0 <= b < after.starters.len() && (
            #[trigger] after.starters[a]).id == (#[trigger] after.starters[b]).id implies a
            == b by {
            if a < n && b < n {
                assert(reg.starters[a].id == reg.starters[b].id);
            }
        }
    }
    assert forall|a: int|
        0 <= a < after.starters.len() && (#[trigger] after.starters[a]).partner_id is Some implies any(
        after.starters,
        starter_with_id(after.starters[a].partner_id.unwrap()),
    ) by {
        let q = after.starters[a].partner_id.unwrap();
        if q == id {
            assert(starter_with_id(q)(after.starters[n]));
        } else if p == Some(q) {
            let ip = reg.find_starter(q).unwrap();
            assert(starter_with_id(q)(after.starters[ip]));
        } else {
            assert(a < n);
            assert(reg.starters[a].partner_id == Some(q));
            let w = choose|w: int|
                0 <= w < reg.starters.len() && starter_with_id(q)(#[trigger] reg.starters[w]);
            assert(starter_with_id(q)(after.starters[w]));
        }
    }
}

/// An edit that resolves the starter itself as its partner is refused, and
/// so is a creation that does; a refused operation changes nothing.
pub proof fn lemma_self_partner_refused(
    reg: RegistryView,
    edit: EditClubStarterBodyView,
    add: AddClubStarterBodyView,
    id: u128,
    pair_act: u128,
    single_act: u128,
)
    requires
        no_self_partner(reg),
    ensures
        reg.find_starter(edit.starter_id) matches Some(i) && edit_target(
            reg,
            reg.starters[i],
            edit,
        ) == Some(edit.starter_id) ==> edit_defect(reg, edit, pair_act, single_act) == Some(
            PairingError::SelfPartner,
        ),
        create_target(reg, add) == Some(id) ==> create_defect(
            reg,
            add,
            id,
            pair_act,
            single_act,
        ) == Some(PairingError::SelfPartner),
{
    lemma_first_index(reg.starters, starter_with_id(edit.starter_id));
}

} // verus!
