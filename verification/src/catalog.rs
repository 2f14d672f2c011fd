//! The category catalog: adding, editing and deleting categories.
//!
//! The timeplan refers to a category by its name, so a renamed category takes
//! its timeplan rows along, and a deleted one takes them with it. The acts of
//! a schedule are not touched: which category an act competes in follows from
//! the catalog and has to be read anew after a change.

use crate::auth::Auth;
use crate::http_server::{HttpError, HttpErrorView, FORBIDDEN, NOT_FOUND};
use crate::predict::has_name;
use crate::search::{any, first_from, first_index, lemma_any_first_index};
use crate::timeplan::{
    refers_to, text, Category, CategoryView, Schedule, ScheduleView, TimeplanRowView,
};
use vstd::prelude::*;

verus! {

/// What is submitted to add a category.
#[derive(Clone, Debug, PartialEq, Eq)]
pub struct AddCategoryBody {
    pub name: String,
    pub description: Option<String>,
    pub from_birthday: String,
    pub to_birthday: String,
    pub is_pair: bool,
    pub is_sonderpokal: bool,
    pub is_single_male: bool,
    pub einfahrzeit_seconds: i32,
    pub act_duration_seconds: i32,
    pub judge_duration_seconds: i32,
}

impl AddCategoryBody {
    /// The category that is submitted. It has no position yet.
    pub open spec fn category(&self) -> CategoryView {
        CategoryView {
            name: self.name@,
            description: text(self.description),
            from_birthday: self.from_birthday@,
            to_birthday: self.to_birthday@,
            is_pair: self.is_pair,
            is_sonderpokal: self.is_sonderpokal,
            is_single_male: self.is_single_male,
            order: None,
            einfahrzeit_seconds: self.einfahrzeit_seconds as i64,
            act_duration_seconds: self.act_duration_seconds as i64,
            judge_duration_seconds: self.judge_duration_seconds as i64,
        }
    }
}

/// The answer to an added category.
#[derive(Clone, Debug, PartialEq, Eq)]
pub struct AddCategoryResponse {}

/// What is submitted to edit the category `name`.
#[derive(Clone, Debug, PartialEq, Eq)]
pub struct EditCategoryBody {
    pub name: String,
    pub new_name: String,
    pub description: Option<String>,
    pub from_birthday: String,
    pub to_birthday: String,
    pub is_pair: bool,
    pub is_sonderpokal: bool,
    pub is_single_male: bool,
    pub einfahrzeit_seconds: i32,
    pub act_duration_seconds: i32,
    pub judge_duration_seconds: i32,
}

impl EditCategoryBody {
    /// The category `c` with the submitted fields. Its position stays.
    pub open spec fn applied_to(&self, c: CategoryView) -> CategoryView {
        CategoryView {
            name: self.new_name@,
            description: text(self.description),
            from_birthday: self.from_birthday@,
            to_birthday: self.to_birthday@,
            is_pair: self.is_pair,
            is_sonderpokal: self.is_sonderpokal,
            is_single_male: self.is_single_male,
            order: c.order,
            einfahrzeit_seconds: self.einfahrzeit_seconds as i64,
            act_duration_seconds: self.act_duration_seconds as i64,
            judge_duration_seconds: self.judge_duration_seconds as i64,
        }
    }

    /// The edit would leave two categories of one name.
    pub open spec fn collides(&self, s: ScheduleView) -> bool {
        &&& self.new_name@ != self.name@
        &&& any(s.categories, has_name(self.name@))
        &&& any(s.categories, has_name(self.new_name@))
    }

    /// The catalog after the edit.
    pub open spec fn edited_categories(&self, cats: Seq<CategoryView>) -> Seq<CategoryView> {
        Seq::new(
            cats.len(),
            |i: int|
                if cats[i].name == self.name@ {
                    self.applied_to(cats[i])
                } else {
                    cats[i]
                },
        )
    }
}

/// The answer to an edited category.
#[derive(Clone, Debug, PartialEq, Eq)]
pub struct EditCategoryResponse {}

/// What is submitted to delete a category.
#[derive(Clone, Debug, PartialEq, Eq)]
pub struct DeleteCategoryBody {
    pub name: String,
}

/// The answer to a deleted category.
#[derive(Clone, Debug, PartialEq, Eq)]
pub struct DeleteCategoryResponse {}

/// The timeplan rows with every reference to `name` turned into one to
/// `new_name`.
pub open spec fn renamed(entries: Seq<TimeplanRowView>, name: Seq<char>, new_name: Seq<char>) -> Seq<
    TimeplanRowView,
> {
    Seq::new(
        entries.len(),
        |i: int|
            if entries[i].category == Some(name) {
                TimeplanRowView { category: Some(new_name), ..entries[i] }
            } else {
                entries[i]
            },
    )
}

/// A timeplan row that does not refer to the category `name`.
pub open spec fn refers_not_to(name: Seq<char>) -> spec_fn(TimeplanRowView) -> bool {
    |r: TimeplanRowView| r.category != Some(name)
}

/// A category of another name than `name`.
pub open spec fn named_otherwise(name: Seq<char>) -> spec_fn(CategoryView) -> bool {
    |c: CategoryView| c.name != name
}

/// The failure of a catalog that would hold two categories of one name.
pub open spec fn name_taken() -> HttpErrorView {
    HttpErrorView::ErrorMessages("Category name is taken"@)
}

/// The failure of a caller who is not allowed.
pub open spec fn forbidden() -> HttpErrorView {
    HttpErrorView::StatusCode(FORBIDDEN)
}

fn category_exists(s: &Schedule, name: &String) -> (r: bool)
    ensures
        r == any(s@.categories, has_name(name@)),
{
    proof {
        lemma_any_first_index(s@.categories, has_name(name@));
    }
    let mut i: usize = 0;
    while i < s.categories.len()
        invariant
            i <= s.categories.len(),
            first_index(s@.categories, has_name(name@)) == first_from(
                s@.categories,
                has_name(name@),
                i as int,
            ),
        decreases s.categories.len() - i,
    {
        if s.categories[i].name == *name {
            return true;
        }
        i = i + 1;
    }
    false
}

fn clone_text(o: &Option<String>) -> (r: Option<String>)
    ensures
        text(r) == text(*o),
{
    match o {
        Some(t) => Some(t.clone()),
        None => None,
    }
}

/// Adds a category to the catalog. Only an administrator may; a category
/// whose name is taken is refused. A refusal changes nothing.
pub fn add_category(s: &mut Schedule, auth: &Auth, body: AddCategoryBody) -> (res: Result<
    AddCategoryResponse,
    HttpError,
>)
    ensures
        !auth.is_admin ==> res is Err && res.unwrap_err()@ == forbidden() && final(s)@ == old(s)@,
        auth.is_admin && any(old(s)@.categories, has_name(body.name@)) ==> res is Err
            && res.unwrap_err()@ == name_taken() && final(s)@ == old(s)@,
        auth.is_admin && !any(old(s)@.categories, has_name(body.name@)) ==> res is Ok && final(s)@ == (ScheduleView {
            categories: old(s)@.categories.push(body.category()),
            ..old(s)@
        }),
{
    if !auth.is_admin() {
        return Err(HttpError::StatusCode(FORBIDDEN));
    }
    if category_exists(s, &body.name) {
        return Err(HttpError::ErrorMessages("Category name is taken".to_owned()));
    }
    let ghost added = body.category();
    let category = Category {
        name: body.name,
        description: body.description,
        from_birthday: body.from_birthday,
        to_birthday: body.to_birthday,
        is_pair: body.is_pair,
        is_sonderpokal: body.is_sonderpokal,
        is_single_male: body.is_single_male,
        order: None,
        einfahrzeit_seconds: body.einfahrzeit_seconds as i64,
        act_duration_seconds: body.act_duration_seconds as i64,
        judge_duration_seconds: body.judge_duration_seconds as i64,
    };
    assert(category@ == added);
    s.categories.push(category);
    assert(s@.categories =~= old(s)@.categories.push(added));
    assert(s@.entries =~= old(s)@.entries);
    assert(s@.acts =~= old(s)@.acts);
    Ok(AddCategoryResponse {  })
}

/// Edits the category `body.name`: it takes the submitted fields, keeps its
/// position, and the timeplan rows that refer to it follow its new name.
/// Only an administrator may; an edit that would leave two categories of one
/// name is refused. A refusal changes nothing. Editing a category that the
/// catalog does not hold changes the timeplan rows alone.
pub fn edit_category(s: &mut Schedule, auth: &Auth, body: EditCategoryBody) -> (res: Result<
    EditCategoryResponse,
    HttpError,
>)
    ensures
        !auth.is_admin ==> res is Err && res.unwrap_err()@ == forbidden() && final(s)@ == old(s)@,
        auth.is_admin && body.collides(old(s)@) ==> res is Err && res.unwrap_err()@
            == name_taken() && final(s)@ == old(s)@,
        auth.is_admin && !body.collides(old(s)@) ==> res is Ok && final(s)@ == (ScheduleView {
            entries: renamed(old(s)@.entries, body.name@, body.new_name@),
            categories: body.edited_categories(old(s)@.categories),
            acts: old(s)@.acts,
        }),
{
    if !auth.is_admin() {
        return Err(HttpError::StatusCode(FORBIDDEN));
    }
    if body.new_name != body.name && category_exists(s, &body.name) && category_exists(
        s,
        &body.new_name,
    ) {
        return Err(HttpError::ErrorMessages("Category name is taken".to_owned()));
    }
    let mut i: usize = 0;
    while i < s.entries.len()
        invariant
            i <= s.entries.len(),
            s.entries@.len() == old(s).entries@.len(),
            s.categories == old(s).categories,
            s.acts == old(s).acts,
            forall|m: int|
                0 <= m < i ==> (#[trigger] s.entries@[m])@ == renamed(
                    old(s)@.entries,
                    body.name@,
                    body.new_name@,
                )[m],
            forall|m: int|
                i <= m < s.entries@.len() ==> #[trigger] s.entries@[m] == old(s).entries@[m],
        decreases s.entries.len() - i,
    {
        if refers_to(&s.entries[i].category, &body.name) {
            s.entries[i].category = Some(body.new_name.clone());
        }
        i = i + 1;
    }
    let mut k: usize = 0;
    while k < s.categories.len()
        invariant
            k <= s.categories.len(),
            s.categories@.len() == old(s).categories@.len(),
            s@.entries =~= renamed(old(s)@.entries, body.name@, body.new_name@),
            s.acts == old(s).acts,
            forall|m: int|
                0 <= m < k ==> (#[trigger] s.categories@[m])@ == body.edited_categories(
                    old(s)@.categories,
                )[m],
            forall|m: int|
                k <= m < s.categories@.len() ==> #[trigger] s.categories@[m] == old(s).categories@[m],
        decreases s.categories.len() - k,
    {
        if s.categories[k].name == body.name {
            s.categories[k].name = body.new_name.clone();
            s.categories[k].description = clone_text(&body.description);
            s.categories[k].from_birthday = body.from_birthday.clone();
            s.categories[k].to_birthday = body.to_birthday.clone();
            s.categories[k].is_pair = body.is_pair;
            s.categories[k].is_sonderpokal = body.is_sonderpokal;
            s.categories[k].is_single_male = body.is_single_male;
            s.categories[k].einfahrzeit_seconds = body.einfahrzeit_seconds as i64;
            s.categories[k].act_duration_seconds = body.act_duration_seconds as i64;
            s.categories[k].judge_duration_seconds = body.judge_duration_seconds as i64;
        }
        k = k + 1;
    }
    assert(s@.categories =~= body.edited_categories(old(s)@.categories));
    assert(s@.acts =~= old(s)@.acts);
    Ok(EditCategoryResponse {  })
}

/// Deletes a category and the timeplan rows that refer to it. Only an
/// administrator may; a category that the catalog does not hold is not
/// found. A refusal changes nothing.
pub fn delete_category(s: &mut Schedule, auth: &Auth, body: DeleteCategoryBody) -> (res: Result<
    DeleteCategoryResponse,
    HttpError,
>)
    ensures
        !auth.is_admin ==> res is Err && res.unwrap_err()@ == forbidden() && final(s)@ == old(s)@,
        auth.is_admin && !any(old(s)@.categories, has_name(body.name@)) ==> res is Err
            && res.unwrap_err()@ == HttpErrorView::StatusCode(NOT_FOUND) && final(s)@ == old(s)@,
        auth.is_admin && any(old(s)@.categories, has_name(body.name@)) ==> res is Ok && final(s)@
            == (ScheduleView {
            entries: old(s)@.entries.filter(refers_not_to(body.name@)),
            categories: old(s)@.categories.filter(named_otherwise(body.name@)),
            acts: old(s)@.acts,
        }),
{
    if !auth.is_admin() {
        return Err(HttpError::StatusCode(FORBIDDEN));
    }
    if !category_exists(s, &body.name) {
        return Err(HttpError::StatusCode(NOT_FOUND));
    }
    let ghost before = s@;
    let ghost keep_row = refers_not_to(body.name@);
    let ghost keep_category = named_otherwise(body.name@);
    let mut i: usize = 0;
    let ghost mut j: int = 0;
    proof {
        reveal(Seq::filter);
        assert(before.entries.take(0).filter(keep_row) =~= Seq::empty());
        assert(s@.entries.take(0) =~= Seq::empty());
        assert(s@.entries.skip(0) =~= before.entries.skip(0));
    }
    while i < s.entries.len()
        invariant
            i <= s.entries.len(),
            0 <= j <= before.entries.len(),
            s.entries.len() - i == before.entries.len() - j,
            before == old(s)@,
            s.categories == old(s).categories,
            s.acts == old(s).acts,
            keep_row == refers_not_to(body.name@),
            s@.entries.take(i as int) =~= before.entries.take(j).filter(keep_row),
            s@.entries.skip(i as int) =~= before.entries.skip(j),
        decreases s.entries.len() - i,
    {
        proof {
            reveal(Seq::filter);
            assert(s@.entries[i as int] == s@.entries.skip(i as int)[0]);
            assert(before.entries.take(j + 1).drop_last() =~= before.entries.take(j));
            assert(before.entries.take(j + 1).last() == before.entries[j]);
        }
        let ghost current = s@.entries;
        if refers_to(&s.entries[i].category, &body.name) {
            s.entries.remove(i);
            proof {
                assert(s@.entries =~= current.remove(i as int));
                assert(s@.entries.take(i as int) =~= current.take(i as int));
                assert(s@.entries.skip(i as int) =~= current.skip(i as int).skip(1));
                assert(before.entries.skip(j).skip(1) =~= before.entries.skip(j + 1));
            }
        } else {
            proof {
                assert(s@.entries.take(i + 1) =~= s@.entries.take(i as int).push(
                    s@.entries[i as int],
                ));
                assert(s@.entries.skip(i + 1) =~= s@.entries.skip(i as int).skip(1));
                assert(before.entries.skip(j).skip(1) =~= before.entries.skip(j + 1));
            }
            i = i + 1;
        }
        proof {
            j = j + 1;
        }
    }
    proof {
        assert(s@.entries.take(i as int) =~= s@.entries);
        assert(before.entries.take(j) =~= before.entries);
    }
    let mut k: usize = 0;
    let ghost mut m: int = 0;
    proof {
        reveal(Seq::filter);
        assert(before.categories.take(0).filter(keep_category) =~= Seq::empty());
        assert(s@.categories.take(0) =~= Seq::empty());
        assert(s@.categories.skip(0) =~= before.categories.skip(0));
    }
    while k < s.categories.len()
        invariant
            k <= s.categories.len(),
            0 <= m <= before.categories.len(),
            s.categories.len() - k == before.categories.len() - m,
            before == old(s)@,
            s@.entries =~= before.entries.filter(refers_not_to(body.name@)),
            s.acts == old(s).acts,
            keep_category == named_otherwise(body.name@),
            s@.categories.take(k as int) =~= before.categories.take(m).filter(keep_category),
            s@.categories.skip(k as int) =~= before.categories.skip(m),
        decreases s.categories.len() - k,
    {
        proof {
            reveal(Seq::filter);
            assert(s@.categories[k as int] == s@.categories.skip(k as int)[0]);
            assert(before.categories.take(m + 1).drop_last() =~= before.categories.take(m));
            assert(before.categories.take(m + 1).last() == before.categories[m]);
        }
        let ghost current = s@.categories;
        if s.categories[k].name == body.name {
            s.categories.remove(k);
            proof {
                assert(s@.categories =~= current.remove(k as int));
                assert(s@.categories.take(k as int) =~= current.take(k as int));
                assert(s@.categories.skip(k as int) =~= current.skip(k as int).skip(1));
                assert(before.categories.skip(m).skip(1) =~= before.categories.skip(m + 1));
            }
        } else {
            proof {
                assert(s@.categories.take(k + 1) =~= s@.categories.take(k as int).push(
                    s@.categories[k as int],
                ));
                assert(s@.categories.skip(k + 1) =~= s@.categories.skip(k as int).skip(1));
                assert(before.categories.skip(m).skip(1) =~= before.categories.skip(m + 1));
            }
            k = k + 1;
        }
        proof {
            m = m + 1;
        }
    }
    proof {
        assert(s@.categories.take(k as int) =~= s@.categories);
        assert(before.categories.take(m) =~= before.categories);
        assert(s@.acts =~= old(s)@.acts);
    }
    Ok(DeleteCategoryResponse {  })
}

} // verus!
