//! The in-memory registry of known recipes, keyed by recipe id.
use vstd::prelude::*;

use crate::error::AppError;
use crate::recipe::schema::{same_recipe, Recipe};
use crate::task::graph::{last_index_of, lemma_last_index_of};
use crate::text::str_eq;

verus! {

/// The ids of a list of recipes, in order.
pub open spec fn recipe_ids(rs: Seq<Recipe>) -> Seq<Seq<char>> {
    rs.map_values(|r: Recipe| r.id@)
}

/// In-memory registry of all known recipes. No two recipes share an id.
pub struct RecipeRegistry {
    recipes: Vec<Recipe>,
}

impl View for RecipeRegistry {
    type V = Map<Seq<char>, Recipe>;

    /// The registered recipes by id.
    closed spec fn view(&self) -> Map<Seq<char>, Recipe> {
        Map::new(
            |k: Seq<char>| recipe_ids(self.recipes@).contains(k),
            |k: Seq<char>| self.recipes@[last_index_of(recipe_ids(self.recipes@), k)],
        )
    }
}

impl RecipeRegistry {
    /// No two recipes share an id.
    pub closed spec fn well_formed(self) -> bool {
        recipe_ids(self.recipes@).no_duplicates()
    }

    proof fn lemma_view_at(self, i: int)
        requires
            self.well_formed(),
            0 <= i < self.recipes@.len(),
        ensures
            self@.contains_key(self.recipes@[i].id@),
            self@[self.recipes@[i].id@] == self.recipes@[i],
    {
        let k = self.recipes@[i].id@;
        assert(recipe_ids(self.recipes@)[i] == k);
        assert(recipe_ids(self.recipes@).contains(k));
        lemma_last_index_of(recipe_ids(self.recipes@), k);
        let j = last_index_of(recipe_ids(self.recipes@), k);
        assert(recipe_ids(self.recipes@)[j] == k);
        assert(j == i);
    }

    proof fn lemma_view_key(self, k: Seq<char>)
        requires
            self@.contains_key(k),
        ensures
            exists|i: int| 0 <= i < self.recipes@.len() && self.recipes@[i].id@ == k,
    {
        let i = choose|i: int| 0 <= i < recipe_ids(self.recipes@).len() && recipe_ids(self.recipes@)[i] == k;
        assert(self.recipes@[i].id@ == k);
    }

    /// An empty registry.
    pub fn new() -> (r: RecipeRegistry)
        ensures
            r.well_formed(),
            r@ == Map::<Seq<char>, Recipe>::empty(),
    {
        let r = RecipeRegistry { recipes: Vec::new() };
        assert(r@ =~= Map::<Seq<char>, Recipe>::empty());
        r
    }

    fn index_of(&self, id: &str) -> (r: Option<usize>)
        requires
            self.well_formed(),
        ensures
            match r {
                Some(i) => i < self.recipes@.len() && self.recipes@[i as int].id@ == id@,
                None => !self@.contains_key(id@),
            },
    {
        let mut i: usize = 0;
        while i < self.recipes.len()
            invariant
                i <= self.recipes@.len(),
                forall|k: int| 0 <= k < i ==> self.recipes@[k].id@ != id@,
            decreases self.recipes@.len() - i,
        {
            if str_eq(self.recipes[i].id.as_str(), id) {
                return Some(i);
            }
            i = i + 1;
        }
        proof {
            if self@.contains_key(id@) {
                self.lemma_view_key(id@);
            }
        }
        None
    }

    /// All registered recipes, each once, as copies.
    pub fn list(&self) -> (r: Vec<Recipe>)
        requires
            self.well_formed(),
        ensures
            recipe_ids(r@).no_duplicates(),
            forall|k: Seq<char>| recipe_ids(r@).contains(k) <==> self@.contains_key(k),
            forall|i: int| 0 <= i < r@.len() ==> same_recipe(#[trigger] r@[i], self@[r@[i].id@]),
    {
        let mut r: Vec<Recipe> = Vec::new();
        let mut i: usize = 0;
        while i < self.recipes.len()
            invariant
                i <= self.recipes@.len(),
                self.well_formed(),
                r@.len() == i,
                forall|k: int| 0 <= k < i ==> same_recipe(#[trigger] r@[k], self.recipes@[k]),
            decreases self.recipes@.len() - i,
        {
            r.push(self.recipes[i].clone());
            i = i + 1;
        }
        proof {
            assert(recipe_ids(r@) =~= recipe_ids(self.recipes@));
            assert forall|k: int| 0 <= k < r@.len() implies same_recipe(#[trigger] r@[k], self@[r@[k].id@]) by {
                self.lemma_view_at(k);
            }
            assert forall|k: Seq<char>| recipe_ids(r@).contains(k) <==> self@.contains_key(k) by {}
        }
        r
    }

    /// The recipe with the given id.
    pub fn get(&self, id: &str) -> (r: Option<&Recipe>)
        requires
            self.well_formed(),
        ensures
            match r {
                Some(x) => self@.contains_key(id@) && *x == self@[id@],
                None => !self@.contains_key(id@),
            },
    {
        match self.index_of(id) {
            Some(i) => {
                proof {
                    self.lemma_view_at(i as int);
                }
                Some(&self.recipes[i])
            },
            None => None,
        }
    }

    /// Add a recipe, or replace the one with the same id.
    pub fn save(&mut self, recipe: Recipe)
        requires
            old(self).well_formed(),
        ensures
            final(self).well_formed(),
            final(self)@ == old(self)@.insert(recipe.id@, recipe),
    {
        let ghost before = *self;
        let ghost key = recipe.id@;
        match self.index_of(recipe.id.as_str()) {
            Some(i) => {
                self.recipes.set(i, recipe);
                proof {
                    assert(self.recipes@ == before.recipes@.update(i as int, recipe));
                    assert(recipe_ids(self.recipes@) =~= recipe_ids(before.recipes@));
                    assert(self@ =~= before@.insert(key, self.recipes@[i as int])) by {
                        assert forall|k: Seq<char>| self@.contains_key(k) implies self@[k] == before@.insert(
                            key,
                            self.recipes@[i as int],
                        )[k] by {
                            self.lemma_view_key(k);
                            let j = choose|j: int| 0 <= j < self.recipes@.len() && self.recipes@[j].id@ == k;
                            self.lemma_view_at(j);
                            if j != i {
                                assert(recipe_ids(self.recipes@)[j] != recipe_ids(self.recipes@)[i as int]);
                                assert(self.recipes@[j] == before.recipes@[j]);
                                before.lemma_view_at(j);
                            }
                        }
                        assert forall|k: Seq<char>| before@.insert(key, self.recipes@[i as int]).contains_key(k) implies self@.contains_key(k) by {
                            if k != key {
                                before.lemma_view_key(k);
                                let j = choose|j: int| 0 <= j < before.recipes@.len() && before.recipes@[j].id@ == k;
                                assert(recipe_ids(self.recipes@)[j] == k);
                            } else {
                                assert(recipe_ids(self.recipes@)[i as int] == k);
                            }
                        }
                    }
                }
            },
            None => {
                self.recipes.push(recipe);
                proof {
                    let n = before.recipes@.len();
                    assert(recipe_ids(self.recipes@) =~= recipe_ids(before.recipes@).push(key));
                    assert(recipe_ids(self.recipes@).no_duplicates()) by {
                        assert forall|a: int, b: int| 0 <= a < b < recipe_ids(self.recipes@).len() implies recipe_ids(self.recipes@)[a]
                            != recipe_ids(self.recipes@)[b] by {
                            if b == n {
                                before.lemma_view_at(a);
                            }
                        }
                    }
                    assert(self@ =~= before@.insert(key, self.recipes@[n as int])) by {
                        assert forall|k: Seq<char>| self@.contains_key(k) implies self@[k] == before@.insert(
                            key,
                            self.recipes@[n as int],
                        )[k] by {
                            self.lemma_view_key(k);
                            let j = choose|j: int| 0 <= j < self.recipes@.len() && self.recipes@[j].id@ == k;
                            self.lemma_view_at(j);
                            if j != n {
                                before.lemma_view_at(j);
                            }
                        }
                        assert forall|k: Seq<char>| before@.insert(key, self.recipes@[n as int]).contains_key(k) implies self@.contains_key(k) by {
                            if k != key {
                                before.lemma_view_key(k);
                                let j = choose|j: int| 0 <= j < before.recipes@.len() && before.recipes@[j].id@ == k;
                                assert(recipe_ids(self.recipes@)[j] == k);
                            } else {
                                assert(recipe_ids(self.recipes@)[n as int] == k);
                            }
                        }
                    }
                }
            },
        }
    }

    /// Remove the recipe with the given id; it is an error when there is
    /// none.
    pub fn delete(&mut self, id: &str) -> (r: Result<(), AppError>)
        requires
            old(self).well_formed(),
        ensures
            final(self).well_formed(),
            old(self)@.contains_key(id@) ==> r is Ok && final(self)@ == old(self)@.remove(id@),
            !old(self)@.contains_key(id@) ==> final(self)@ == old(self)@ && (r matches Err(
                AppError::RecipeNotFound { recipe_id },
            ) && recipe_id@ == id@),
    {
        let ghost before = *self;
        match self.index_of(id) {
            Some(i) => {
                proof {
                    before.lemma_view_at(i as int);
                }
                self.recipes.remove(i);
                proof {
                    let ids0 = recipe_ids(before.recipes@);
                    assert(recipe_ids(self.recipes@) =~= ids0.remove(i as int));
                    assert(recipe_ids(self.recipes@).no_duplicates()) by {
                        assert forall|a: int, b: int| 0 <= a < b < recipe_ids(self.recipes@).len() implies recipe_ids(self.recipes@)[a]
                            != recipe_ids(self.recipes@)[b] by {
                            let a0 = if a < i { a } else { a + 1 };
                            let b0 = if b < i { b } else { b + 1 };
                            assert(recipe_ids(self.recipes@)[a] == ids0[a0]);
                            assert(recipe_ids(self.recipes@)[b] == ids0[b0]);
                        }
                    }
                    assert(self@ =~= before@.remove(id@)) by {
                        assert forall|k: Seq<char>| self@.contains_key(k) implies before@.remove(id@).contains_key(k) && self@[k] == before@[k] by {
                            self.lemma_view_key(k);
                            let j = choose|j: int| 0 <= j < self.recipes@.len() && self.recipes@[j].id@ == k;
                            self.lemma_view_at(j);
                            let j0 = if j < i { j } else { j + 1 };
                            assert(self.recipes@[j] == before.recipes@[j0]);
                            before.lemma_view_at(j0);
                            assert(ids0[j0] != ids0[i as int]);
                        }
                        assert forall|k: Seq<char>| before@.remove(id@).contains_key(k) implies self@.contains_key(k) by {
                            before.lemma_view_key(k);
                            let j = choose|j: int| 0 <= j < before.recipes@.len() && before.recipes@[j].id@ == k;
                            assert(j != i);
                            let j1 = if j < i { j } else { j - 1 };
                            assert(recipe_ids(self.recipes@)[j1] == k);
                        }
                    }
                }
                Ok(())
            },
            None => Err(AppError::RecipeNotFound { recipe_id: id.to_owned() }),
        }
    }
}

/// After `save`, the registry gives back the saved recipe for its id, and
/// every other id keeps its recipe.
pub proof fn law_get_after_save(
    before: Map<Seq<char>, Recipe>,
    after: Map<Seq<char>, Recipe>,
    recipe: Recipe,
    other: Seq<char>,
)
    requires
        after == before.insert(recipe.id@, recipe),
    ensures
        after.contains_key(recipe.id@) && after[recipe.id@] == recipe,
        other != recipe.id@ ==> (after.contains_key(other) == before.contains_key(other) && after[other] == before[other]),
{
}

/// After a successful `delete`, the registry no longer has the id, and
/// every other id keeps its recipe.
pub proof fn law_get_after_delete(
    before: Map<Seq<char>, Recipe>,
    after: Map<Seq<char>, Recipe>,
    id: Seq<char>,
    other: Seq<char>,
)
    requires
        after == before.remove(id),
    ensures
        !after.contains_key(id),
        other != id ==> (after.contains_key(other) == before.contains_key(other) && after[other] == before[other]),
{
}

} // verus!
