use openclaw::recipe::registry::RecipeRegistry;
use openclaw::recipe::schema::{Recipe, RecipeMetadata};

fn recipe(id: &str, name: &str) -> Recipe {
    Recipe {
        version: "1".to_string(),
        id: id.to_string(),
        name: name.to_string(),
        description: None,
        author: None,
        tags: Vec::new(),
        platforms: Vec::new(),
        env_requirements: Vec::new(),
        steps: Vec::new(),
        vars: Vec::new(),
        metadata: RecipeMetadata::default(),
    }
}

#[test]
fn save_get_delete_round_trip() {
    let mut reg = RecipeRegistry::new();
    assert!(reg.list().is_empty());
    reg.save(recipe("a", "A"));
    reg.save(recipe("b", "B"));
    assert_eq!(reg.get("a").unwrap().name, "A");
    assert_eq!(reg.list().len(), 2);
    reg.save(recipe("a", "A2"));
    assert_eq!(reg.list().len(), 2);
    assert_eq!(reg.get("a").unwrap().name, "A2");
    assert!(reg.delete("a").is_ok());
    assert!(reg.get("a").is_none());
    assert_eq!(reg.get("b").unwrap().name, "B");
}

#[test]
fn deleting_an_unknown_recipe_is_an_error() {
    let mut reg = RecipeRegistry::new();
    reg.save(recipe("a", "A"));
    match reg.delete("zzz") {
        Err(e) => assert_eq!(e.to_string(), "Recipe not found: zzz"),
        Ok(()) => panic!("expected an error"),
    }
    assert_eq!(reg.list().len(), 1);
}
