//! The commands a client can give.
use vstd::prelude::*;

use crate::cbor::{Cbor, CborValue};
use crate::client::{build_get_recipe, build_list_recipes, build_order, recipe_command};

verus! {

/// A client command.
pub enum ClientCommand {
    /// Order the recipe `recipe` (such as `Minimal`).
    Order { recipe: String },
    /// List the recipes the peer offers.
    ListRecipes,
    /// Get the recipe `recipe`.
    GetRecipe { recipe: String },
}

impl ClientCommand {
    /// The CBOR message that carries the command.
    pub fn request(&self) -> (res: CborValue)
        ensures
            res@ == match self {
                ClientCommand::Order { recipe } => recipe_command("order"@, recipe@),
                ClientCommand::ListRecipes => Cbor::Mapping(
                    seq![(Cbor::Text("list_recipes"@), Cbor::Mapping(seq![]))],
                ),
                ClientCommand::GetRecipe { recipe } => recipe_command("get_recipe"@, recipe@),
            },
    {
        match self {
            ClientCommand::Order { recipe } => build_order(recipe.as_str()),
            ClientCommand::ListRecipes => build_list_recipes(),
            ClientCommand::GetRecipe { recipe } => build_get_recipe(recipe.as_str()),
        }
    }
}

} // verus!
