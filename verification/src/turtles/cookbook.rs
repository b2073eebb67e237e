//! Recipes and the book that collects them.

use vstd::prelude::*;
use crate::turtles::genetics::Flavor;

verus! {

#[derive(Debug)]
pub struct Recipe {
    name: String,
    flavor: Flavor,
}

impl View for Recipe {
    type V = (Seq<char>, Flavor);

    /// The name and the flavor of the recipe.
    closed spec fn view(&self) -> (Seq<char>, Flavor) {
        (self.name@, self.flavor)
    }
}

impl Recipe {
    pub fn new(name: String, flavor: Flavor) -> (recipe: Recipe)
        ensures
            recipe@ == (name@, flavor),
    {
        Recipe { name, flavor }
    }

    pub fn flavor(&self) -> (flavor: Flavor)
        ensures
            flavor == self@.1,
    {
        self.flavor
    }

    pub fn name(&self) -> (name: &String)
        ensures
            name@ == self@.0,
    {
        &self.name
    }
}

#[derive(Debug)]
pub struct Cookbook {
    recipes: Vec<Recipe>,
}

impl View for Cookbook {
    type V = Seq<(Seq<char>, Flavor)>;

    /// The recipes of the book, in order.
    closed spec fn view(&self) -> Seq<(Seq<char>, Flavor)> {
        self.recipes@.map_values(|recipe: Recipe| recipe@)
    }
}

impl Cookbook {
    /// The book of the four standard recipes.
    pub fn new() -> (book: Cookbook)
        ensures
            book@ == seq![
                ("pizza"@, Flavor::Salty),
                ("ice cream"@, Flavor::Sweet),
                ("mushrooms"@, Flavor::Umami),
                ("lemon"@, Flavor::Sour),
            ],
    {
        let pizza = Recipe::new("pizza".to_owned(), Flavor::Salty);
        let ice_cream = Recipe::new("ice cream".to_owned(), Flavor::Sweet);
        let mushroom = Recipe::new("mushrooms".to_owned(), Flavor::Umami);
        let lemon = Recipe::new("lemon".to_owned(), Flavor::Sour);
        let mut recipes: Vec<Recipe> = Vec::new();
        recipes.push(pizza);
        recipes.push(ice_cream);
        recipes.push(mushroom);
        recipes.push(lemon);
        let book = Cookbook { recipes };
        assert(book@ =~= seq![
            ("pizza"@, Flavor::Salty),
            ("ice cream"@, Flavor::Sweet),
            ("mushrooms"@, Flavor::Umami),
            ("lemon"@, Flavor::Sour),
        ]);
        book
    }

    /// The recipes of the book, in order.
    pub fn recipes(&self) -> (recipes: &Vec<Recipe>)
        ensures
            recipes@.len() == self@.len(),
            forall|i: int| 0 <= i < recipes@.len() ==> (#[trigger] recipes@[i])@ == self@[i],
    {
        &self.recipes
    }
}

} // verus!
