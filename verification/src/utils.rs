//! Password policy, and the making and unmaking of acts.

use crate::clock::unix_now;
use crate::ids::random_id;
use crate::registry::{
    act_of, fresh_act, starter_with_id, Act, ActView, Registry, RegistryView,
    StarterView,
};
use crate::search::{any, lemma_any_first_index, lemma_any_push};
use std::collections::HashSet;
use vstd::prelude::*;

verus! {

broadcast use vstd::std_specs::hash::group_hash_axioms;

/// Whether `char::is_uppercase` holds of `c`.
pub uninterp spec fn char_is_uppercase(c: char) -> bool;

/// Whether `char::is_lowercase` holds of `c`.
pub uninterp spec fn char_is_lowercase(c: char) -> bool;

/// Whether `char::is_numeric` holds of `c`.
pub uninterp spec fn char_is_numeric(c: char) -> bool;

/// Calls `char::is_uppercase`, a lookup in the Unicode tables of the standard
/// library; the result is named, nothing more is claimed of it.
#[verifier::external_body]
fn is_uppercase(c: char) -> (r: bool)
    ensures
        r == char_is_uppercase(c),
{
    c.is_uppercase()
}

/// Calls `char::is_lowercase`, a lookup in the Unicode tables of the standard
/// library; the result is named, nothing more is claimed of it.
#[verifier::external_body]
fn is_lowercase(c: char) -> (r: bool)
    ensures
        r == char_is_lowercase(c),
{
    c.is_lowercase()
}

/// Calls `char::is_numeric`, a lookup in the Unicode tables of the standard
/// library; the result is named, nothing more is claimed of it.
#[verifier::external_body]
fn is_numeric(c: char) -> (r: bool)
    ensures
        r == char_is_numeric(c),
{
    c.is_numeric()
}

/// The punctuation that counts as a special character in a password.
pub open spec fn is_special(c: char) -> bool {
    c == '!' || c == '"' || c == '§' || c == '$' || c == '%' || c == '&' || c == '/' || c == '('
        || c == ')' || c == '=' || c == '?' || c == '+' || c == '-' || c == '*' || c == '#' || c
        == '\'' || c == '_' || c == '~' || c == '.' || c == ',' || c == ':' || c == ';' || c == '<'
        || c == '>' || c == '|' || c == '\\' || c == ' ' || c == '{' || c == '[' || c == ']' || c
        == '}'
}

fn special(c: char) -> (r: bool)
    ensures
        r == is_special(c),
{
    c == '!' || c == '"' || c == '§' || c == '$' || c == '%' || c == '&' || c == '/' || c == '('
        || c == ')' || c == '=' || c == '?' || c == '+' || c == '-' || c == '*' || c == '#' || c
        == '\'' || c == '_' || c == '~' || c == '.' || c == ',' || c == ':' || c == ';' || c == '<'
        || c == '>' || c == '|' || c == '\\' || c == ' ' || c == '{' || c == '[' || c == ']' || c
        == '}'
}

/// Some character is upper case.
pub open spec fn has_uppercase(s: Seq<char>) -> bool {
    exists|i: int| 0 <= i < s.len() && char_is_uppercase(#[trigger] s[i])
}

/// Some character is lower case.
pub open spec fn has_lowercase(s: Seq<char>) -> bool {
    exists|i: int| 0 <= i < s.len() && char_is_lowercase(#[trigger] s[i])
}

/// Some character is numeric.
pub open spec fn has_numeric(s: Seq<char>) -> bool {
    exists|i: int| 0 <= i < s.len() && char_is_numeric(#[trigger] s[i])
}

/// Some character is a special character.
pub open spec fn has_special(s: Seq<char>) -> bool {
    exists|i: int| 0 <= i < s.len() && is_special(#[trigger] s[i])
}

/// One for true, zero for false.
pub open spec fn flag(b: bool) -> nat {
    if b {
        1
    } else {
        0
    }
}

/// How many of the four character classes occur in `s`.
pub open spec fn character_classes(s: Seq<char>) -> nat {
    flag(has_uppercase(s)) + flag(has_lowercase(s)) + flag(has_numeric(s)) + flag(has_special(s))
}

/// What a password that is too short is refused with.
pub open spec fn too_short_message() -> Seq<char> {
    "Passwort muss mindestens 8 Zeichen haben."@
}

/// What a password of too few character classes is refused with.
pub open spec fn too_few_classes_message() -> Seq<char> {
    "Passwort muss mindestens 3 der folgenden Kategorien enthalten: Kleinbuchstaben, Großbuchstaben, Zahlen, Sonderzeichen."@
}

/// What the policy says of a password: accepted, or the reason it is refused.
/// Length is counted in bytes of the UTF-8 encoding.
pub open spec fn password_verdict(password: &str) -> Result<(), Seq<char>> {
    if password.len() < 8 {
        Err(too_short_message())
    } else if character_classes(password@) < 3 {
        Err(too_few_classes_message())
    } else {
        Ok(())
    }
}

/// The verdict as the contract speaks of it.
pub open spec fn message_view(r: Result<(), String>) -> Result<(), Seq<char>> {
    match r {
        Ok(()) => Ok(()),
        Err(m) => Err(m@),
    }
}

/// Accepts a password of at least eight bytes that draws on at least three of
/// the classes upper case, lower case, numeric and special character.
pub fn check_password(password: &str) -> (res: Result<(), String>)
    ensures
        message_view(res) == password_verdict(password),
{
    if password.len() < 8 {
        return Err("Passwort muss mindestens 8 Zeichen haben.".to_owned());
    }
    let n = password.unicode_len();
    let mut upper = false;
    let mut lower = false;
    let mut numeric = false;
    let mut special_found = false;
    let mut i: usize = 0;
    while i < n
        invariant
            i <= n,
            n == password@.len(),
            upper == has_uppercase(password@.take(i as int)),
            lower == has_lowercase(password@.take(i as int)),
            numeric == has_numeric(password@.take(i as int)),
            special_found == has_special(password@.take(i as int)),
        decreases n - i,
    {
        let c = password.get_char(i);
        proof {
            let before = password@.take(i as int);
            let after = password@.take(i + 1);
            assert(after[i as int] == c);
            assert(forall|j: int| 0 <= j < i ==> before[j] == after[j]);
            if has_uppercase(before) {
                let j = choose|j: int| 0 <= j < before.len() && char_is_uppercase(#[trigger] before[j]);
                assert(char_is_uppercase(after[j]));
            }
            if has_lowercase(before) {
                let j = choose|j: int| 0 <= j < before.len() && char_is_lowercase(#[trigger] before[j]);
                assert(char_is_lowercase(after[j]));
            }
            if has_numeric(before) {
                let j = choose|j: int| 0 <= j < before.len() && char_is_numeric(#[trigger] before[j]);
                assert(char_is_numeric(after[j]));
            }
            if has_special(before) {
                let j = choose|j: int| 0 <= j < before.len() && is_special(#[trigger] before[j]);
                assert(is_special(after[j]));
            }
        }
        upper = upper || is_uppercase(c);
        lower = lower || is_lowercase(c);
        numeric = numeric || is_numeric(c);
        special_found = special_found || special(c);
        i = i + 1;
    }
    assert(password@.take(n as int) == password@);
    let mut categories: u8 = 0;
    if upper {
        categories = categories + 1;
    }
    if lower {
        categories = categories + 1;
    }
    if numeric {
        categories = categories + 1;
    }
    if special_found {
        categories = categories + 1;
    }
    if categories < 3 {
        return Err(
            "Passwort muss mindestens 3 der folgenden Kategorien enthalten: Kleinbuchstaben, Großbuchstaben, Zahlen, Sonderzeichen.".to_owned(),
        );
    }
    Ok(())
}

/// Why an act could not be made or unmade.
#[derive(Clone, Copy, Debug, PartialEq, Eq, Structural)]
pub enum ActError {
    /// No act has the identifier.
    NotFound,
    /// An act has the identifier already.
    IdInUse,
    /// A participant is no starter of the registry.
    UnknownStarter,
}

impl ActError {
    /// The text that tells of the failure.
    pub open spec fn spec_message(self) -> Seq<char> {
        match self {
            ActError::NotFound => "Kür nicht gefunden."@,
            ActError::IdInUse => "Fehler beim Hinzufügen der Kür."@,
            ActError::UnknownStarter => "Fehler beim Hinzufügen des Starters zur Kür."@,
        }
    }

    /// The text that tells of the failure.
    pub fn message(&self) -> (res: String)
        ensures
            res@ == self.spec_message(),
    {
        match self {
            ActError::NotFound => "Kür nicht gefunden.".to_owned(),
            ActError::IdInUse => "Fehler beim Hinzufügen der Kür.".to_owned(),
            ActError::UnknownStarter => "Fehler beim Hinzufügen des Starters zur Kür.".to_owned(),
        }
    }
}

/// The identifier of the first act of the given kind in which the starter
/// takes part.
pub open spec fn act_id_of(reg: RegistryView, starter_id: u128, is_pair: bool) -> Option<u128> {
    match reg.find_act_of(starter_id, is_pair) {
        Some(k) => Some(reg.acts[k].id),
        None => None,
    }
}

/// The identifier of the starter's single act, or of the starter's pair act.
pub fn get_act_id_for_starter_id(db: &Registry, starter_id: u128, is_pair: bool) -> (res: Option<
    u128,
>)
    ensures
        res == act_id_of(db@, starter_id, is_pair),
{
    match db.act_index_of(starter_id, is_pair) {
        Some(k) => Some(db.acts[k].id),
        None => None,
    }
}

/// Takes the act with the identifier out of the registry.
pub fn delete_act(db: &mut Registry, act_id: u128) -> (res: Result<(), ActError>)
    ensures
        match old(db)@.find_act(act_id) {
            Some(k) => {
                &&& res is Ok
                &&& final(db)@.acts == old(db)@.acts.remove(k)
                &&& final(db)@.starters == old(db)@.starters
            },
            None => res == Err::<(), ActError>(ActError::NotFound) && final(db)@ == old(db)@,
        },
{
    match db.act_index(act_id) {
        Some(k) => {
            db.remove_act_at(k);
            Ok(())
        },
        None => Err(ActError::NotFound),
    }
}

/// The characters of an optional text.
pub open spec fn optional_text(o: Option<&str>) -> Option<Seq<char>> {
    match o {
        Some(s) => Some(s@),
        None => None,
    }
}

/// A participant who is no starter of the registry.
pub open spec fn has_unknown_starter(reg: RegistryView, starters: Seq<u128>) -> bool {
    exists|k: int| 0 <= k < starters.len() && reg.find_starter(#[trigger] starters[k]) is None
}

/// Why the act cannot be made, if it cannot.
pub open spec fn act_defect(reg: RegistryView, id: u128, starters: Seq<u128>) -> Option<ActError> {
    if reg.find_act(id) is Some {
        Some(ActError::IdInUse)
    } else if has_unknown_starter(reg, starters) {
        Some(ActError::UnknownStarter)
    } else {
        None
    }
}

/// The registry `after` is the registry `before` with the act appended.
pub open spec fn made(before: RegistryView, after: RegistryView, act: ActView) -> bool {
    after.starters == before.starters && after.acts == before.acts.push(act)
}

/// Makes an act with the given identifier at the time `now` and appends it to
/// the registry. Fails, and changes nothing, if the identifier is in use or a
/// participant is unknown.
pub fn set_act_with(
    db: &mut Registry,
    id: u128,
    now: i64,
    name: &str,
    starters: &[u128],
    description: Option<&str>,
    is_pair: bool,
) -> (res: Result<u128, ActError>)
    ensures
        match act_defect(old(db)@, id, starters@) {
            Some(e) => res == Err::<u128, ActError>(e) && final(db)@ == old(db)@,
            None => res == Ok::<u128, ActError>(id) && final(db)@.starters == old(db)@.starters
                && final(db)@.acts == old(db)@.acts.push(
                fresh_act(id, now, name@, optional_text(description), is_pair, starters@),
            ),
        },
{
    if db.act_index(id).is_some() {
        return Err(ActError::IdInUse);
    }
    let mut participants: Vec<u128> = Vec::new();
    let mut k: usize = 0;
    while k < starters.len()
        invariant
            k <= starters.len(),
            db@ == old(db)@,
            db@.find_act(id) is None,
            participants@ == starters@.take(k as int),
            forall|m: int| 0 <= m < k ==> db@.find_starter(#[trigger] starters@[m]) is Some,
        decreases starters.len() - k,
    {
        if db.starter_index(starters[k]).is_none() {
            assert(db@.find_starter(starters@[k as int]) is None);
            return Err(ActError::UnknownStarter);
        }
        participants.push(starters[k]);
        assert(starters@.take(k + 1) =~= starters@.take(k as int).push(starters@[k as int]));
        k = k + 1;
    }
    assert(starters@.take(k as int) =~= starters@);
    let act = Act {
        id,
        name: name.to_owned(),
        description: match description {
            Some(text) => Some(text.to_owned()),
            None => None,
        },
        is_pair,
        order: None,
        song_file: None,
        song_file_name: None,
        song_checked: false,
        created_at: now,
        started_at: None,
        ended_at: None,
        participants,
    };
    db.push_act(act);
    Ok(id)
}

/// Makes an act with a fresh random identifier at the current time of the
/// system clock; see `set_act_with`.
pub fn set_act(
    db: &mut Registry,
    name: &str,
    starters: &[u128],
    description: Option<&str>,
    is_pair: bool,
) -> (res: Result<u128, ActError>)
    ensures
        match res {
            Ok(id) => act_defect(old(db)@, id, starters@) is None && exists|now: i64|
                #[trigger] made(
                    old(db)@,
                    final(db)@,
                    fresh_act(id, now, name@, optional_text(description), is_pair, starters@),
                ),
            Err(e) => final(db)@ == old(db)@ && (e == ActError::IdInUse || (e
                == ActError::UnknownStarter && has_unknown_starter(old(db)@, starters@))),
        },
{
    let id = random_id();
    let now = unix_now();
    let res = set_act_with(db, id, now, name, starters, description, is_pair);
    proof {
        if res is Ok {
            assert(made(
                old(db)@,
                db@,
                fresh_act(id, now, name@, optional_text(description), is_pair, starters@),
            ));
        }
    }
    res
}

/// Open to a pair and with a partner.
pub open spec fn paired_up(s: StarterView) -> bool {
    s.pair && s.partner_id is Some
}

/// The starters that the first `i` starters have covered: going through them
/// in order, a starter who is open to a pair, has a partner and is not covered
/// yet covers itself and its partner.
pub open spec fn covered_ids(starters: Seq<StarterView>, i: int) -> Set<u128>
    decreases i,
{
    if i <= 0 {
        Set::empty()
    } else {
        let before = covered_ids(starters, i - 1);
        let row = starters[i - 1];
        if paired_up(row) && !before.contains(row.id) {
            before.insert(row.id).insert(row.partner_id.unwrap())
        } else {
            before
        }
    }
}

/// The starter at `i` is covered by a starter listed before it.
pub open spec fn covered_before(starters: Seq<StarterView>, i: int) -> bool {
    covered_ids(starters, i).contains(starters[i].id)
}

/// No act is missing: every starter who competes alone has a single act, and
/// every starter who is open to a pair and has a partner has a pair act or is
/// covered.
pub open spec fn nothing_missing(reg: RegistryView) -> bool {
    &&& forall|i: int|
        0 <= i < reg.starters.len() && (#[trigger] reg.starters[i]).competes_alone() ==> any(
            reg.acts,
            act_of(reg.starters[i].id, false),
        )
    &&& forall|i: int|
        0 <= i < reg.starters.len() && paired_up(#[trigger] reg.starters[i]) ==> any(
            reg.acts,
            act_of(reg.starters[i].id, true),
        ) || covered_before(reg.starters, i)
}

/// A starter who is open to a pair has a partner who is no starter.
pub open spec fn partner_unknown(reg: RegistryView) -> bool {
    exists|i: int|
        0 <= i < reg.starters.len() && paired_up(#[trigger] reg.starters[i]) && reg.find_starter(
            reg.starters[i].partner_id.unwrap(),
        ) is None
}

/// The act is as it is when it has just been made, and it is the single act
/// of a starter who competes alone, or the pair act of a starter with its
/// partner.
pub open spec fn made_for(starters: Seq<StarterView>, act: ActView) -> bool {
    &&& act == fresh_act(act.id, act.created_at, Seq::empty(), None, act.is_pair, act.participants)
    &&& exists|i: int|
        0 <= i < starters.len() && if act.is_pair {
            paired_up(#[trigger] starters[i]) && act.participants == seq![
                starters[i].id,
                starters[i].partner_id.unwrap(),
            ]
        } else {
            starters[i].competes_alone() && act.participants == seq![starters[i].id]
        }
}

/// The starter for whom the act at `k` was made takes part in no act of that
/// kind that stands before it.
pub open spec fn first_of_its_kind(acts: Seq<ActView>, k: int) -> bool {
    !any(acts.take(k), act_of(acts[k].participants[0], acts[k].is_pair))
}

proof fn lemma_any_in_prefix(acts: Seq<ActView>, n: int, q: spec_fn(ActView) -> bool)
    requires
        0 <= n <= acts.len(),
        any(acts.take(n), q),
    ensures
        any(acts, q),
{
    let m = choose|m: int| 0 <= m < acts.take(n).len() && q(#[trigger] acts.take(n)[m]);
    assert(q(acts[m]));
}

/// How far a run has come: the acts as they stand, and the failure that has
/// ended it, if one has.
pub struct Run {
    pub acts: Seq<ActView>,
    pub failed: Option<ActError>,
}

/// The run after the attempt to make one act, if the act is due: a run that
/// has failed stays as it is, an act that cannot be made ends the run, and
/// else the act is appended.
pub open spec fn attempt(
    starters: Seq<StarterView>,
    run: Run,
    due: bool,
    id: u128,
    now: i64,
    is_pair: bool,
    cast: Seq<u128>,
) -> Run {
    if run.failed is Some || !due {
        run
    } else {
        match act_defect(RegistryView { starters: starters, acts: run.acts }, id, cast) {
            Some(e) => Run { acts: run.acts, failed: Some(e) },
            None => Run {
                acts: run.acts.push(fresh_act(id, now, Seq::empty(), None, is_pair, cast)),
                failed: None,
            },
        }
    }
}

/// The run after the first `i` starters have been looked at for single acts:
/// a starter who competes alone and has no single act gets one, with the
/// identifier that stands at its place in `ids`.
pub open spec fn singles_run(
    starters: Seq<StarterView>,
    acts: Seq<ActView>,
    ids: Seq<u128>,
    now: i64,
    i: int,
) -> Run
    decreases i,
{
    if i <= 0 {
        Run { acts: acts, failed: None }
    } else {
        let run = singles_run(starters, acts, ids, now, i - 1);
        let row = starters[i - 1];
        attempt(
            starters,
            run,
            row.competes_alone() && !any(run.acts, act_of(row.id, false)),
            ids[i - 1],
            now,
            false,
            seq![row.id],
        )
    }
}

/// The run `start` after the first `i` starters have been looked at for pair
/// acts: a starter who is open to a pair, has a partner, is not covered and
/// has no pair act gets one with its partner, with the identifier that stands
/// at its place in `ids`.
pub open spec fn pairs_run(
    starters: Seq<StarterView>,
    start: Run,
    ids: Seq<u128>,
    now: i64,
    i: int,
) -> Run
    decreases i,
{
    if i <= 0 {
        start
    } else {
        let run = pairs_run(starters, start, ids, now, i - 1);
        let row = starters[i - 1];
        attempt(
            starters,
            run,
            paired_up(row) && !covered_ids(starters, i - 1).contains(row.id) && !any(
                run.acts,
                act_of(row.id, true),
            ),
            ids[i - 1],
            now,
            true,
            seq![row.id, row.partner_id.unwrap()],
        )
    }
}

/// The whole run: the single acts first, then the pair acts.
pub open spec fn initialized(
    reg: RegistryView,
    single_ids: Seq<u128>,
    pair_ids: Seq<u128>,
    now: i64,
) -> Run {
    let n = reg.starters.len() as int;
    pairs_run(
        reg.starters,
        singles_run(reg.starters, reg.acts, single_ids, now, n),
        pair_ids,
        now,
        n,
    )
}

/// How a run ends.
pub open spec fn verdict(run: Run) -> Result<(), ActError> {
    match run.failed {
        Some(e) => Err(e),
        None => Ok(()),
    }
}

proof fn lemma_singles_stay_failed(
    starters: Seq<StarterView>,
    acts: Seq<ActView>,
    ids: Seq<u128>,
    now: i64,
    i: int,
    j: int,
)
    requires
        0 <= i <= j,
        singles_run(starters, acts, ids, now, i).failed is Some,
    ensures
        singles_run(starters, acts, ids, now, j) == singles_run(starters, acts, ids, now, i),
    decreases j - i,
{
    if i < j {
        lemma_singles_stay_failed(starters, acts, ids, now, i, j - 1);
    }
}

proof fn lemma_pairs_stay_failed(
    starters: Seq<StarterView>,
    start: Run,
    ids: Seq<u128>,
    now: i64,
    i: int,
    j: int,
)
    requires
        0 <= i <= j,
        pairs_run(starters, start, ids, now, i).failed is Some,
    ensures
        pairs_run(starters, start, ids, now, j) == pairs_run(starters, start, ids, now, i),
    decreases j - i,
{
    if i < j {
        lemma_pairs_stay_failed(starters, start, ids, now, i, j - 1);
    }
}

/// Makes the acts that are missing, at the time `now` and with the given
/// identifiers: a single act for every starter who competes alone and has
/// none, and a pair act for every starter who is open to a pair, has a partner
/// and no pair act, unless a starter listed before has covered it. The act
/// made for the starter at `i` gets the identifier at `i` of `single_ids` or
/// of `pair_ids`. Acts are only ever appended, and only for a starter who has
/// no act of that kind; the first act that cannot be made ends the run.
///
/// Where no act is missing the run ends well and changes nothing; a run that
/// ends well leaves no act missing.
pub fn initialize_acts_with(
    db: &mut Registry,
    single_ids: &Vec<u128>,
    pair_ids: &Vec<u128>,
    now: i64,
) -> (res: Result<(), ActError>)
    requires
        single_ids@.len() == old(db)@.starters.len(),
        pair_ids@.len() == old(db)@.starters.len(),
    ensures
        final(db)@.acts == initialized(old(db)@, single_ids@, pair_ids@, now).acts,
        res == verdict(initialized(old(db)@, single_ids@, pair_ids@, now)),
        final(db)@.starters == old(db)@.starters,
        old(db)@.acts.len() <= final(db)@.acts.len(),
        final(db)@.acts.take(old(db)@.acts.len() as int) == old(db)@.acts,
        forall|k: int|
            old(db)@.acts.len() <= k < final(db)@.acts.len() ==> made_for(
                old(db)@.starters,
                #[trigger] final(db)@.acts[k],
            ) && first_of_its_kind(final(db)@.acts, k),
        nothing_missing(old(db)@) ==> res is Ok && final(db)@ == old(db)@,
        res is Ok ==> nothing_missing(final(db)@),
        res matches Err(e) ==> e == ActError::IdInUse || (e == ActError::UnknownStarter
            && partner_unknown(old(db)@)),
{
    let ghost before = db@;
    let ghost n0 = db@.acts.len() as int;
    let ghost mut touched = false;
    proof {
        reveal_strlit("");
        assert(""@ =~= Seq::<char>::empty());
        assert(db@.acts.take(n0) =~= before.acts);
    }
    let n = db.starters.len();
    let mut i: usize = 0;
    while i < n
        invariant
            i <= n,
            n == db.starters@.len(),
            before == old(db)@,
            n0 == before.acts.len(),
            ""@ == Seq::<char>::empty(),
            db@.starters == before.starters,
            n0 <= db@.acts.len(),
            db@.acts.take(n0) == before.acts,
            touched ==> !nothing_missing(before),
            !touched ==> db@.acts == before.acts,
            single_ids@.len() == n,
            pair_ids@.len() == n,
            singles_run(before.starters, before.acts, single_ids@, now, i as int) == (Run {
                acts: db@.acts,
                failed: None,
            }),
            forall|k: int|
                n0 <= k < db@.acts.len() ==> made_for(before.starters, #[trigger] db@.acts[k])
                    && first_of_its_kind(db@.acts, k),
            forall|m: int|
                0 <= m < i && (#[trigger] before.starters[m]).competes_alone() ==> any(
                    db@.acts,
                    act_of(before.starters[m].id, false),
                ),
        decreases n - i,
    {
        let id = db.starters[i].id;
        let alone = db.starters[i].single_male || db.starters[i].single_female;
        assert(db@.starters[i as int] == db.starters@[i as int]@);
        if alone {
            proof {
                lemma_any_first_index(db@.acts, act_of(id, false));
            }
            if db.act_index_of(id, false).is_none() {
                let mut cast: Vec<u128> = Vec::new();
                cast.push(id);
                assert(cast@ =~= seq![id]);
                let ghost acts_before = db@.acts;
                proof {
                    // an act is missing
                    if any(before.acts, act_of(id, false)) {
                        lemma_any_in_prefix(acts_before, n0, act_of(id, false));
                    }
                    assert(before.starters[i as int].competes_alone());
                    touched = true;
                    // the starter is known
                    assert(starter_with_id(id)(db@.starters[i as int]));
                    lemma_any_first_index(db@.starters, starter_with_id(id));
                    assert(!has_unknown_starter(db@, cast@)) by {
                        if has_unknown_starter(db@, cast@) {
                            let k = choose|k: int|
                                0 <= k < cast@.len() && db@.find_starter(#[trigger] cast@[k]) is None;
                            assert(cast@[k] == id);
                        }
                    }
                }
                let act_id = single_ids[i];
                assert(db@ == (RegistryView { starters: before.starters, acts: acts_before }));
                match set_act_with(db, act_id, now, "", cast.as_slice(), None, false) {
                    Ok(_) => {
                        proof {
                            let v = fresh_act(act_id, now, ""@, None, false, cast@);
                            assert(db@.acts == acts_before.push(v));
                            assert(db@.acts.take(n0) =~= acts_before.take(n0));
                            assert(made_for(before.starters, v)) by {
                                assert(before.starters[i as int].competes_alone());
                            }
                            assert(v.participants[0] == id);
                            assert(act_of(id, false)(v));
                            assert(db@.acts.take(acts_before.len() as int) =~= acts_before);
                            assert forall|m: int|
                                0 <= m <= i && (
                                #[trigger] before.starters[m]).competes_alone() implies any(
                                db@.acts,
                                act_of(before.starters[m].id, false),
                            ) by {
                                lemma_any_push(acts_before, v, act_of(before.starters[m].id, false));
                            }
                            assert forall|k: int| n0 <= k < db@.acts.len() implies made_for(
                                before.starters,
                                #[trigger] db@.acts[k],
                            ) && first_of_its_kind(db@.acts, k) by {
                                if k < acts_before.len() {
                                    assert(db@.acts[k] == acts_before[k]);
                                    assert(db@.acts.take(k) =~= acts_before.take(k));
                                }
                            }
                        }
                    },
                    Err(e) => {
                        proof {
                            lemma_singles_stay_failed(
                                before.starters,
                                before.acts,
                                single_ids@,
                                now,
                                i + 1,
                                n as int,
                            );
                            lemma_pairs_stay_failed(
                                before.starters,
                                singles_run(before.starters, before.acts, single_ids@, now, n as int),
                                pair_ids@,
                                now,
                                0,
                                n as int,
                            );
                        }
                        return Err(e);
                    },
                }
            }
        }
        i = i + 1;
    }
    let ghost start = singles_run(before.starters, before.acts, single_ids@, now, n as int);
    let mut covered: HashSet<u128> = HashSet::new();
    let mut i: usize = 0;
    while i < n
        invariant
            i <= n,
            n == db.starters@.len(),
            before == old(db)@,
            n0 == before.acts.len(),
            ""@ == Seq::<char>::empty(),
            db@.starters == before.starters,
            n0 <= db@.acts.len(),
            db@.acts.take(n0) == before.acts,
            touched ==> !nothing_missing(before),
            !touched ==> db@.acts == before.acts,
            forall|k: int|
                n0 <= k < db@.acts.len() ==> made_for(before.starters, #[trigger] db@.acts[k])
                    && first_of_its_kind(db@.acts, k),
            forall|m: int|
                0 <= m < n && (#[trigger] before.starters[m]).competes_alone() ==> any(
                    db@.acts,
                    act_of(before.starters[m].id, false),
                ),
            forall|m: int|
                0 <= m < i && paired_up(#[trigger] before.starters[m]) ==> any(
                    db@.acts,
                    act_of(before.starters[m].id, true),
                ) || covered_before(before.starters, m),
            covered@ == covered_ids(before.starters, i as int),
            single_ids@.len() == n,
            pair_ids@.len() == n,
            start == singles_run(before.starters, before.acts, single_ids@, now, n as int),
            pairs_run(before.starters, start, pair_ids@, now, i as int) == (Run {
                acts: db@.acts,
                failed: None,
            }),
        decreases n - i,
    {
        let id = db.starters[i].id;
        let open_to_pair = db.starters[i].pair;
        let partner = db.starters[i].partner_id;
        assert(db@.starters[i as int] == db.starters@[i as int]@);
        let ghost ids = covered_ids(before.starters, i as int);
        if let (true, Some(p)) = (open_to_pair, partner) {
            assert(paired_up(before.starters[i as int]));
            if covered.contains(&id) {
                assert(ids.contains(id));
                assert(covered_before(before.starters, i as int));
            } else {
                assert(!ids.contains(id));
                proof {
                    lemma_any_first_index(db@.acts, act_of(id, true));
                }
                if db.act_index_of(id, true).is_none() {
                    let mut cast: Vec<u128> = Vec::new();
                    cast.push(id);
                    cast.push(p);
                    assert(cast@ =~= seq![id, p]);
                    let ghost acts_before = db@.acts;
                    proof {
                        // an act is missing
                        if any(before.acts, act_of(id, true)) {
                            lemma_any_in_prefix(acts_before, n0, act_of(id, true));
                        }
                        assert(!covered_before(before.starters, i as int));
                        touched = true;
                        // the starter is known
                        assert(starter_with_id(id)(db@.starters[i as int]));
                        lemma_any_first_index(db@.starters, starter_with_id(id));
                        if has_unknown_starter(db@, cast@) {
                            let k = choose|k: int|
                                0 <= k < cast@.len() && db@.find_starter(#[trigger] cast@[k]) is None;
                            assert(cast@[k] == id || cast@[k] == p);
                            assert(before.find_starter(p) is None);
                            assert(partner_unknown(before));
                        }
                    }
                    let act_id = pair_ids[i];
                    assert(db@ == (RegistryView { starters: before.starters, acts: acts_before }));
                    match set_act_with(db, act_id, now, "", cast.as_slice(), None, true) {
                        Ok(_) => {
                            proof {
                                let v = fresh_act(act_id, now, ""@, None, true, cast@);
                                assert(db@.acts == acts_before.push(v));
                                assert(db@.acts.take(n0) =~= acts_before.take(n0));
                                assert(made_for(before.starters, v)) by {
                                    assert(paired_up(before.starters[i as int]));
                                }
                                assert(v.participants[0] == id);
                                assert(act_of(id, true)(v));
                                assert(db@.acts.take(acts_before.len() as int) =~= acts_before);
                                lemma_any_push(acts_before, v, act_of(id, true));
                                assert forall|m: int|
                                    0 <= m < n && (
                                    #[trigger] before.starters[m]).competes_alone() implies any(
                                    db@.acts,
                                    act_of(before.starters[m].id, false),
                                ) by {
                                    lemma_any_push(
                                        acts_before,
                                        v,
                                        act_of(before.starters[m].id, false),
                                    );
                                }
                                assert forall|m: int|
                                    0 <= m < i && paired_up(
                                        #[trigger] before.starters[m],
                                    ) implies any(db@.acts, act_of(before.starters[m].id, true))
                                    || covered_before(before.starters, m) by {
                                    lemma_any_push(
                                        acts_before,
                                        v,
                                        act_of(before.starters[m].id, true),
                                    );
                                }
                                assert forall|k: int| n0 <= k < db@.acts.len() implies made_for(
                                    before.starters,
                                    #[trigger] db@.acts[k],
                                ) && first_of_its_kind(db@.acts, k) by {
                                    if k < acts_before.len() {
                                        assert(db@.acts[k] == acts_before[k]);
                                        assert(db@.acts.take(k) =~= acts_before.take(k));
                                    }
                                }
                            }
                        },
                        Err(e) => {
                            proof {
                                lemma_pairs_stay_failed(
                                    before.starters,
                                    start,
                                    pair_ids@,
                                    now,
                                    i + 1,
                                    n as int,
                                );
                            }
                            return Err(e);
                        },
                    }
                }
                covered.insert(id);
                covered.insert(p);
                assert(covered@ == covered_ids(before.starters, i + 1));
            }
        }
        proof {
            if !(open_to_pair && partner is Some) {
                assert(!paired_up(before.starters[i as int]));
            }
        }
        i = i + 1;
    }
    proof {
        if !touched {
            assert(db@.acts == before.acts);
        }
    }
    Ok(())
}

/// What a run with the given identifiers at the time `now` makes of the
/// registry `before`.
pub open spec fn ran(
    before: RegistryView,
    after: RegistryView,
    res: Result<(), ActError>,
    single_ids: Seq<u128>,
    pair_ids: Seq<u128>,
    now: i64,
) -> bool {
    &&& single_ids.len() == before.starters.len()
    &&& pair_ids.len() == before.starters.len()
    &&& after.starters == before.starters
    &&& after.acts == initialized(before, single_ids, pair_ids, now).acts
    &&& res == verdict(initialized(before, single_ids, pair_ids, now))
}

fn draw(n: usize) -> (ids: Vec<u128>)
    ensures
        ids@.len() == n,
{
    let mut ids: Vec<u128> = Vec::new();
    let mut i: usize = 0;
    while i < n
        invariant
            i <= n,
            ids@.len() == i,
        decreases n - i,
    {
        ids.push(random_id());
        i = i + 1;
    }
    ids
}

/// Makes the acts that are missing, each with a fresh random identifier and
/// at the current time of the system clock; see `initialize_acts_with`.
pub fn initialize_acts(db: &mut Registry) -> (res: Result<(), ActError>)
    ensures
        exists|single_ids: Seq<u128>, pair_ids: Seq<u128>, now: i64| #[trigger]
            ran(old(db)@, final(db)@, res, single_ids, pair_ids, now),
        final(db)@.starters == old(db)@.starters,
        old(db)@.acts.len() <= final(db)@.acts.len(),
        final(db)@.acts.take(old(db)@.acts.len() as int) == old(db)@.acts,
        forall|k: int|
            old(db)@.acts.len() <= k < final(db)@.acts.len() ==> made_for(
                old(db)@.starters,
                #[trigger] final(db)@.acts[k],
            ) && first_of_its_kind(final(db)@.acts, k),
        nothing_missing(old(db)@) ==> res is Ok && final(db)@ == old(db)@,
        res is Ok ==> nothing_missing(final(db)@),
        res matches Err(e) ==> e == ActError::IdInUse || (e == ActError::UnknownStarter
            && partner_unknown(old(db)@)),
{
    let n = db.starters.len();
    let single_ids = draw(n);
    let pair_ids = draw(n);
    let now = unix_now();
    let res = initialize_acts_with(db, &single_ids, &pair_ids, now);
    assert(ran(old(db)@, db@, res, single_ids@, pair_ids@, now));
    res
}

} // verus!
