use pizza_factory::recipe::{flatten_actions, parse_recipes, recipe_to_formula, Action, Recipe, Step};

fn params(a: &Action) -> Vec<(String, String)> {
    a.params.clone()
}

#[test]
fn action_with_params_and_repeat() {
    let a = Action::from_str("AddCheese(amount=2)^3").unwrap();
    assert_eq!(a.name, "AddCheese");
    assert_eq!(params(&a), vec![("amount".to_string(), "2".to_string())]);
    assert_eq!(a.repeat, 3);
}

#[test]
fn action_plain_name_is_trimmed() {
    let a = Action::from_str("  MakeDough  ").unwrap();
    assert_eq!(a.name, "MakeDough");
    assert!(a.params.is_empty());
    assert_eq!(a.repeat, 1);
}

#[test]
fn action_params_trimmed_and_last_key_wins() {
    let a = Action::from_str("Bake( duration = 5 , temp=200, duration=7, junk )").unwrap();
    assert_eq!(a.name, "Bake");
    assert_eq!(
        params(&a),
        vec![
            ("duration".to_string(), "7".to_string()),
            ("temp".to_string(), "200".to_string()),
        ]
    );
}

#[test]
fn action_repeat_errors() {
    assert_eq!(Action::from_str("X^").err().unwrap(), "cannot parse integer from empty string");
    assert_eq!(Action::from_str("X^3a").err().unwrap(), "invalid digit found in string");
    assert_eq!(Action::from_str("X^-1").err().unwrap(), "invalid digit found in string");
    assert_eq!(Action::from_str("X^+").err().unwrap(), "invalid digit found in string");
    assert_eq!(
        Action::from_str("X^4294967296").err().unwrap(),
        "number too large to fit in target type"
    );
    assert_eq!(Action::from_str("X^+4294967295").unwrap().repeat, 4294967295);
}

#[test]
fn recipe_margherita_from_readme() {
    let text = "Margherita =\n    MakeDough\n    -> AddBase(base_type=tomato)\n    -> [AddCheese(amount=2), AddBasil(leaves=3)]\n    -> Bake(duration=5)\n    -> AddOliveOil";
    let r = Recipe::from_str(text).unwrap();
    assert_eq!(r.name, "Margherita");
    assert_eq!(r.steps.len(), 5);
    match &r.steps[0] {
        Step::Single(a) => assert_eq!(a.name, "MakeDough"),
        _ => panic!("expected a single step"),
    }
    match &r.steps[1] {
        Step::Single(a) => {
            assert_eq!(a.name, "AddBase");
            assert_eq!(params(a), vec![("base_type".to_string(), "tomato".to_string())]);
        }
        _ => panic!("expected a single step"),
    }
    match &r.steps[2] {
        Step::Parallel(v) => {
            assert_eq!(v.len(), 2);
            assert_eq!(v[0].name, "AddCheese");
            assert_eq!(v[1].name, "AddBasil");
            assert_eq!(params(&v[1]), vec![("leaves".to_string(), "3".to_string())]);
        }
        _ => panic!("expected a parallel step"),
    }
    match &r.steps[4] {
        Step::Single(a) => assert_eq!(a.name, "AddOliveOil"),
        _ => panic!("expected a single step"),
    }
    assert_eq!(
        recipe_to_formula(&r),
        "MakeDough -> AddBase(base_type=tomato) -> [AddCheese(amount=2), AddBasil(leaves=3)] -> Bake(duration=5) -> AddOliveOil"
    );
}

#[test]
fn recipe_without_equals_is_refused() {
    assert_eq!(Recipe::from_str("Margherita MakeDough").err().unwrap(), "pas de '='");
}

#[test]
fn recipe_bad_repeat_in_group_is_refused() {
    assert_eq!(
        Recipe::from_str("R = A -> [B, C^x]").err().unwrap(),
        "invalid digit found in string"
    );
}

#[test]
fn recipe_empty_steps_are_skipped() {
    let r = Recipe::from_str("R = -> A ->  -> B").unwrap();
    assert_eq!(r.steps.len(), 2);
}

#[test]
fn recipes_file_blocks_and_replacement() {
    let content = "A = X -> Y\n\nB = Z\n\n\n\nA = W^2\n";
    let book = parse_recipes(content).unwrap();
    assert_eq!(book.len(), 2);
    assert_eq!(book.names(), vec!["A".to_string(), "B".to_string()]);
    let a = book.get(&"A".to_string()).unwrap();
    assert_eq!(recipe_to_formula(a), "W^2");
    assert!(book.get(&"C".to_string()).is_none());
}

#[test]
fn recipes_file_error_is_first_error() {
    let content = "A = X\n\nno equals here\n\nB = Y^z";
    assert_eq!(parse_recipes(content).err().unwrap(), "pas de '='");
}

#[test]
fn flatten_repeats_actions_in_order() {
    let r = Recipe::from_str("R = A^2 -> [B, C^0, D] -> E").unwrap();
    let names: Vec<String> = flatten_actions(&r).into_iter().map(|a| a.name).collect();
    assert_eq!(names, vec!["A", "A", "B", "D", "E"]);
}

#[test]
fn formula_writes_params_and_repeat() {
    let r = Recipe::from_str("R = Bake(t=1, u=2)^3 -> [X, Y(k=v)]").unwrap();
    assert_eq!(recipe_to_formula(&r), "Bake(t=1, u=2)^3 -> [X, Y(k=v)]");
}

fn same_recipe(a: &Recipe, b: &Recipe) -> bool {
    if a.name != b.name || a.steps.len() != b.steps.len() {
        return false;
    }
    a.steps.iter().zip(b.steps.iter()).all(|(x, y)| match (x, y) {
        (Step::Single(p), Step::Single(q)) => same_action(p, q),
        (Step::Parallel(v), Step::Parallel(w)) => {
            v.len() == w.len() && v.iter().zip(w.iter()).all(|(p, q)| same_action(p, q))
        }
        _ => false,
    })
}

fn same_action(a: &Action, b: &Action) -> bool {
    a.name == b.name && a.repeat == b.repeat && params(a) == params(b)
}

#[test]
fn formula_line_reads_back_as_the_recipe() {
    let r = Recipe::from_str("Calzone = Dough(size=large, kind=thin) -> [Cheese(g=50), Ham^2] -> Fold^0 -> Bake^12")
        .unwrap();
    let line = format!("{} = {}", r.name, recipe_to_formula(&r));
    assert_eq!(line, "Calzone = Dough(size=large, kind=thin) -> [Cheese(g=50), Ham^2] -> Fold^0 -> Bake^12");
    let back = Recipe::from_str(&line).unwrap();
    assert!(same_recipe(&r, &back));
}

#[test]
fn formula_line_of_recipe_without_steps_reads_back() {
    let r = Recipe::from_str("Empty = ").unwrap();
    assert_eq!(recipe_to_formula(&r), "");
    let back = Recipe::from_str(&format!("{} = {}", r.name, recipe_to_formula(&r))).unwrap();
    assert!(same_recipe(&r, &back));
}
