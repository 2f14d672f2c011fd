//! The starters of the clubs and the acts they take part in.

use crate::search::{first_from, first_index, position};
use crate::timeplan::text;
use vstd::prelude::*;

verus! {

/// A competitor. `partner_id` names the partner once both are registered;
/// `partner_name` is the partner's full name as it was typed in.
#[derive(Clone, Debug, PartialEq, Eq)]
pub struct Starter {
    pub id: u128,
    pub club_id: u128,
    pub firstname: String,
    pub lastname: String,
    pub birthdate: i64,
    pub single_sonderpokal: bool,
    pub single_male: bool,
    pub single_female: bool,
    pub pair_sonderpokal: bool,
    pub pair: bool,
    pub partner_id: Option<u128>,
    pub partner_name: Option<String>,
}

pub struct StarterView {
    pub id: u128,
    pub club_id: u128,
    pub firstname: Seq<char>,
    pub lastname: Seq<char>,
    pub birthdate: i64,
    pub single_sonderpokal: bool,
    pub single_male: bool,
    pub single_female: bool,
    pub pair_sonderpokal: bool,
    pub pair: bool,
    pub partner_id: Option<u128>,
    pub partner_name: Option<Seq<char>>,
}

impl View for Starter {
    type V = StarterView;

    open spec fn view(&self) -> StarterView {
        StarterView {
            id: self.id,
            club_id: self.club_id,
            firstname: self.firstname@,
            lastname: self.lastname@,
            birthdate: self.birthdate,
            single_sonderpokal: self.single_sonderpokal,
            single_male: self.single_male,
            single_female: self.single_female,
            pair_sonderpokal: self.pair_sonderpokal,
            pair: self.pair,
            partner_id: self.partner_id,
            partner_name: text(self.partner_name),
        }
    }
}

impl StarterView {
    /// First name, a space, last name.
    pub open spec fn full_name(self) -> Seq<char> {
        full_name(self.firstname, self.lastname)
    }

    /// Whether the starter competes alone.
    pub open spec fn competes_alone(self) -> bool {
        self.single_male || self.single_female
    }
}

/// First name, a space, last name.
pub open spec fn full_name(firstname: Seq<char>, lastname: Seq<char>) -> Seq<char> {
    firstname + seq![' '] + lastname
}

/// A performance of one starter or of a pair.
#[derive(Clone, Debug, PartialEq, Eq)]
pub struct Act {
    pub id: u128,
    pub name: String,
    pub description: Option<String>,
    pub is_pair: bool,
    pub order: Option<i64>,
    pub song_file: Option<String>,
    pub song_file_name: Option<String>,
    pub song_checked: bool,
    pub created_at: i64,
    pub started_at: Option<i64>,
    pub ended_at: Option<i64>,
    pub participants: Vec<u128>,
}

pub struct ActView {
    pub id: u128,
    pub name: Seq<char>,
    pub description: Option<Seq<char>>,
    pub is_pair: bool,
    pub order: Option<i64>,
    pub song_file: Option<Seq<char>>,
    pub song_file_name: Option<Seq<char>>,
    pub song_checked: bool,
    pub created_at: i64,
    pub started_at: Option<i64>,
    pub ended_at: Option<i64>,
    pub participants: Seq<u128>,
}

impl View for Act {
    type V = ActView;

    open spec fn view(&self) -> ActView {
        ActView {
            id: self.id,
            name: self.name@,
            description: text(self.description),
            is_pair: self.is_pair,
            order: self.order,
            song_file: text(self.song_file),
            song_file_name: text(self.song_file_name),
            song_checked: self.song_checked,
            created_at: self.created_at,
            started_at: self.started_at,
            ended_at: self.ended_at,
            participants: self.participants@,
        }
    }
}

/// The starters and the acts.
#[derive(Clone, Debug, PartialEq, Eq)]
pub struct Registry {
    pub starters: Vec<Starter>,
    pub acts: Vec<Act>,
}

pub struct RegistryView {
    pub starters: Seq<StarterView>,
    pub acts: Seq<ActView>,
}

impl View for Registry {
    type V = RegistryView;

    open spec fn view(&self) -> RegistryView {
        RegistryView {
            starters: Seq::new(self.starters@.len(), |i: int| self.starters@[i]@),
            acts: Seq::new(self.acts@.len(), |i: int| self.acts@[i]@),
        }
    }
}

/// A starter with the identifier `id`.
pub open spec fn starter_with_id(id: u128) -> spec_fn(StarterView) -> bool {
    |s: StarterView| s.id == id
}

/// An act with the identifier `id`.
pub open spec fn act_with_id(id: u128) -> spec_fn(ActView) -> bool {
    |a: ActView| a.id == id
}

/// An act of the given kind in which the starter takes part.
pub open spec fn act_of(starter_id: u128, is_pair: bool) -> spec_fn(ActView) -> bool {
    |a: ActView| a.is_pair == is_pair && a.participants.contains(starter_id)
}

impl RegistryView {
    /// Where the starter with this identifier stands.
    pub open spec fn find_starter(self, id: u128) -> Option<int> {
        first_index(self.starters, starter_with_id(id))
    }

    /// Where the act with this identifier stands.
    pub open spec fn find_act(self, id: u128) -> Option<int> {
        first_index(self.acts, act_with_id(id))
    }

    /// Where the first act of the given kind stands in which the starter takes
    /// part.
    pub open spec fn find_act_of(self, starter_id: u128, is_pair: bool) -> Option<int> {
        first_index(self.acts, act_of(starter_id, is_pair))
    }
}

/// Whether the identifier is among the given ones.
pub fn takes_part(participants: &Vec<u128>, starter_id: u128) -> (r: bool)
    ensures
        r == participants@.contains(starter_id),
{
    let mut i: usize = 0;
    while i < participants.len()
        invariant
            i <= participants.len(),
            forall|j: int| 0 <= j < i ==> participants@[j] != starter_id,
        decreases participants.len() - i,
    {
        if participants[i] == starter_id {
            return true;
        }
        i = i + 1;
    }
    false
}

/// An act as it is when it has just been made: without position, song or
/// timestamps.
pub open spec fn fresh_act(
    id: u128,
    now: i64,
    name: Seq<char>,
    description: Option<Seq<char>>,
    is_pair: bool,
    participants: Seq<u128>,
) -> ActView {
    ActView {
        id: id,
        name: name,
        description: description,
        is_pair: is_pair,
        order: None,
        song_file: None,
        song_file_name: None,
        song_checked: false,
        created_at: now,
        started_at: None,
        ended_at: None,
        participants: participants,
    }
}

/// The acts without the one at `k`, if `k` is given.
pub open spec fn without(acts: Seq<ActView>, k: Option<int>) -> Seq<ActView> {
    match k {
        Some(i) => acts.remove(i),
        None => acts,
    }
}

impl Registry {
    /// Appends an act.
    pub fn push_act(&mut self, act: Act)
        ensures
            final(self)@.starters == old(self)@.starters,
            final(self)@.acts == old(self)@.acts.push(act@),
    {
        self.acts.push(act);
        assert(self@.starters =~= old(self)@.starters);
        assert(self@.acts =~= old(self)@.acts.push(act@));
    }

    /// Takes the act at `k` out.
    pub fn remove_act_at(&mut self, k: usize)
        requires
            k < old(self).acts@.len(),
        ensures
            final(self)@.starters == old(self)@.starters,
            final(self)@.acts == old(self)@.acts.remove(k as int),
    {
        self.acts.remove(k);
        assert(self@.starters =~= old(self)@.starters);
        assert(self@.acts =~= old(self)@.acts.remove(k as int));
    }

    /// Takes the act at `k` out, if `k` is given.
    pub fn remove_act(&mut self, k: Option<usize>)
        requires
            k matches Some(i) ==> i < old(self).acts@.len(),
        ensures
            final(self)@.starters == old(self)@.starters,
            final(self)@.acts == without(old(self)@.acts, position(k)),
    {
        if let Some(i) = k {
            self.remove_act_at(i);
        }
    }

    /// Where the starter with this identifier stands.
    pub fn starter_index(&self, id: u128) -> (res: Option<usize>)
        ensures
            position(res) == self@.find_starter(id),
            res matches Some(i) ==> i < self.starters@.len() && self.starters@[i as int].id == id,
    {
        let mut i: usize = 0;
        while i < self.starters.len()
            invariant
                i <= self.starters.len(),
                self@.find_starter(id) == first_from(
                    self@.starters,
                    starter_with_id(id),
                    i as int,
                ),
            decreases self.starters.len() - i,
        {
            if self.starters[i].id == id {
                return Some(i);
            }
            i = i + 1;
        }
        None
    }

    /// Where the act with this identifier stands.
    pub fn act_index(&self, id: u128) -> (res: Option<usize>)
        ensures
            position(res) == self@.find_act(id),
            res matches Some(i) ==> i < self.acts@.len() && self.acts@[i as int].id == id,
    {
        let mut i: usize = 0;
        while i < self.acts.len()
            invariant
                i <= self.acts.len(),
                self@.find_act(id) == first_from(self@.acts, act_with_id(id), i as int),
            decreases self.acts.len() - i,
        {
            if self.acts[i].id == id {
                return Some(i);
            }
            i = i + 1;
        }
        None
    }

    /// Where the first act of the given kind stands in which the starter takes
    /// part.
    pub fn act_index_of(&self, starter_id: u128, is_pair: bool) -> (res: Option<usize>)
        ensures
            position(res) == self@.find_act_of(starter_id, is_pair),
            res matches Some(i) ==> i < self.acts@.len(),
    {
        let mut i: usize = 0;
        while i < self.acts.len()
            invariant
                i <= self.acts.len(),
                self@.find_act_of(starter_id, is_pair) == first_from(
                    self@.acts,
                    act_of(starter_id, is_pair),
                    i as int,
                ),
            decreases self.acts.len() - i,
        {
            if self.acts[i].is_pair == is_pair && takes_part(&self.acts[i].participants, starter_id) {
                return Some(i);
            }
            i = i + 1;
        }
        None
    }
}

} // verus!
