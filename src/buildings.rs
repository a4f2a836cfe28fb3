//! Buildings and the recipes they produce by.

use vstd::prelude::*;
use crate::geometry::Ticks;
use crate::template::CreatureID;

verus! {

/// What a recipe yields.
#[derive(Clone, Copy, Debug, PartialEq, Eq, Structural)]
pub enum Production {
    CreatureP(CreatureID),
}

/// A recipe: what it yields and how long that takes.
#[derive(Clone, Copy, Debug, PartialEq, Eq, Structural)]
pub struct Recipe {
    pub produces: Production,
    pub duration: Ticks,
}

pub type RecipeBook = Recipe;

/// A building and the recipe it works from.
#[derive(Clone, Copy, Debug, PartialEq, Eq, Structural)]
pub struct Building {
    pub recipe_book: RecipeBook,
}

/// Ticks the starting recipe takes.
pub const SPAWN_DURATION: Ticks = 200;

impl Building {
    pub fn new(recipe_book: RecipeBook) -> (r: Building)
        ensures
            r == (Building { recipe_book }),
    {
        Building { recipe_book: recipe_book }
    }
}

impl Recipe {
    pub fn new(production: Production, duration: Ticks) -> (r: Recipe)
        ensures
            r == (Recipe { produces: production, duration }),
    {
        Recipe { produces: production, duration: duration }
    }
}

/// The starting recipe book: a creature of kind 1 every 200 ticks.
pub fn init_recipes() -> (r: RecipeBook)
    ensures
        r == (Recipe { produces: Production::CreatureP(1), duration: SPAWN_DURATION }),
{
    Recipe::new(Production::CreatureP(1), SPAWN_DURATION)
}

/// A building working from the starting recipe book.
pub fn init_buildings() -> (r: Building)
    ensures
        r == (Building { recipe_book: Recipe { produces: Production::CreatureP(1), duration: SPAWN_DURATION } }),
{
    Building::new(init_recipes())
}

} // verus!
