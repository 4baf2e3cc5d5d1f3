use cooklang::ir::{Amount, AmountError, Recipe};
use cooklang::{parse, parse_recipe, reduce, RecipeError, ReduceErrorKind};

fn recipe(input: &str) -> Recipe {
    parse_recipe(input).unwrap()
}

#[test]
fn add_single_amounts() {
    assert_eq!(Amount::Single(2).add(Amount::Single(3)), Ok(Amount::Single(5)));
    assert_eq!(Amount::Multi(1).add(Amount::Multi(4)), Ok(Amount::Multi(5)));
}

#[test]
fn add_servings_amounts() {
    assert_eq!(
        Amount::Servings(vec![1, 2, 3]).add(Amount::Servings(vec![10, 20, 30])),
        Ok(Amount::Servings(vec![11, 22, 33]))
    );
}

#[test]
fn add_mismatched_amounts_fails() {
    assert_eq!(Amount::Single(1).add(Amount::Multi(1)), Err(AmountError::Mismatch));
    assert_eq!(Amount::Servings(vec![1]).add(Amount::Single(1)), Err(AmountError::Mismatch));
    assert_eq!(
        Amount::Servings(vec![1]).add(Amount::Servings(vec![1, 2])),
        Err(AmountError::TierCount)
    );
    assert_eq!(Amount::Single(u64::MAX).add(Amount::Single(1)), Err(AmountError::Overflow));
    assert_eq!(
        Amount::Servings(vec![1, u64::MAX]).add(Amount::Servings(vec![1, 1])),
        Err(AmountError::Overflow)
    );
}

#[test]
fn literal_text_round_trip() {
    let r = recipe("  first line  \n\n\tsecond   line\n   \n");
    assert_eq!(r.instruction, "first line\nsecond   line");
    assert_eq!(r.source, "  first line  \n\n\tsecond   line\n   \n");
}

#[test]
fn stray_markers_round_trip() {
    let r = recipe(" 2 @ 3 # 4 \n\n50~60 min ~ ");
    assert_eq!(r.instruction, "2 @ 3 # 4\n50~60 min ~");
    assert!(r.metadata.ingredients_specifiers.is_empty());
}

#[test]
fn blank_input_reduces_to_nothing() {
    let r = recipe(" \n\t\n");
    assert_eq!(r.instruction, "");
    assert!(r.metadata.ingredients.is_empty());
}

#[test]
fn placeholders_and_lists() {
    let r = recipe("cook @eggs{2} in #skillet for ~{25%minutes}.");
    assert_eq!(r.instruction, "cook@in#for~.");
    assert_eq!(r.metadata.cookware, vec!["skillet".to_string()]);
    assert_eq!(r.metadata.timer.len(), 1);
    assert_eq!(r.metadata.timer[0].amount, 25);
    assert_eq!(r.metadata.timer[0].unit, "minutes");
    assert_eq!(r.metadata.ingredients_specifiers.len(), 1);
    assert_eq!(r.metadata.ingredients_specifiers[0].ingredient, "eggs");
    assert_eq!(r.metadata.ingredients_specifiers[0].amount_in_step, Some(Amount::Single(2)));
}

#[test]
fn repeated_ingredient_is_merged() {
    let r = recipe("add @salt{2%g}\nthen @pepper and more @salt{3 g}\n@salt");
    assert_eq!(r.metadata.ingredients.len(), 2);
    assert_eq!(r.metadata.ingredients_specifiers.len(), 4);
    let salt = &r.metadata.ingredients[0];
    assert_eq!(salt.name, "salt");
    assert_eq!(salt.id, 0);
    assert_eq!(salt.amount, Some(Amount::Single(5)));
    assert_eq!(salt.unit, Some("g".to_string()));
    let pepper = &r.metadata.ingredients[1];
    assert_eq!(pepper.name, "pepper");
    assert_eq!(pepper.id, 1);
    assert_eq!(pepper.amount, None);
    assert_eq!(r.metadata.ingredients_specifiers[3].amount_in_step, None);
    assert_eq!(r.instruction, "add@\nthen@and more@\n@");
}

#[test]
fn distinct_ingredients_match_specifiers() {
    let r = recipe("mix @flour{1} with @milk{2} and @egg");
    assert_eq!(r.metadata.ingredients.len(), 3);
    assert_eq!(r.metadata.ingredients_specifiers.len(), 3);
}

#[test]
fn amount_with_unit_and_factor() {
    let r = recipe("chop @red bell pepper{1kg} and @rice{*2 cups}");
    let pepper = &r.metadata.ingredients[0];
    assert_eq!(pepper.amount, Some(Amount::Single(1)));
    assert_eq!(pepper.unit, Some("kg".to_string()));
    let rice = &r.metadata.ingredients[1];
    assert_eq!(rice.amount, Some(Amount::Multi(2)));
    assert_eq!(rice.unit, Some("cups".to_string()));
}

#[test]
fn mismatched_amounts_fail() {
    let e = parse_recipe("@rice{*2}\n@rice{3}").unwrap_err();
    match e {
        RecipeError::Reduce(r) => {
            assert_eq!(r.kind, ReduceErrorKind::Merge(AmountError::Mismatch));
            assert_eq!(r.name, "rice");
        }
        RecipeError::Syntax(_) => panic!("expected a reduction error"),
    }
}

#[test]
fn mismatched_units_fail() {
    let e = parse_recipe("@salt{1%g} @salt{2%kg}").unwrap_err();
    assert_eq!(
        e,
        RecipeError::Reduce(cooklang::ReduceError {
            kind: ReduceErrorKind::UnitMismatch,
            name: "salt".to_string()
        })
    );
}

#[test]
fn malformed_amount_fails() {
    let e = parse_recipe("@salt{a pinch}").unwrap_err();
    assert_eq!(
        e,
        RecipeError::Reduce(cooklang::ReduceError {
            kind: ReduceErrorKind::BadAmount,
            name: "salt".to_string()
        })
    );
}

#[test]
fn servings_and_other_metadata() {
    let r = recipe(">> Servings: 2, 4|6\n>> source: book\n>> source: web\n>> time: 1:30");
    assert_eq!(r.metadata.servings, Some(vec![2, 4, 6]));
    assert_eq!(
        r.metadata.ominous,
        vec![
            ("source".to_string(), "web".to_string()),
            ("time".to_string(), "1:30".to_string())
        ]
    );
    assert_eq!(r.instruction, "");
}

#[test]
fn bad_servings_fail() {
    let e = parse_recipe(">> servings: two").unwrap_err();
    assert_eq!(
        e,
        RecipeError::Reduce(cooklang::ReduceError {
            kind: ReduceErrorKind::BadServings,
            name: "servings".to_string()
        })
    );
}

#[test]
fn syntax_error_is_reported() {
    let e = parse_recipe("ok\n@salt{").unwrap_err();
    match e {
        RecipeError::Syntax(p) => assert_eq!(p.line, 2),
        RecipeError::Reduce(_) => panic!("expected a syntax error"),
    }
}

#[test]
fn reduce_takes_parsed_lines() {
    let src = ">> a: b\nstir #spoon";
    let lines = parse(src).unwrap();
    let r = reduce(src, &lines).unwrap();
    assert_eq!(r.instruction, "stir#");
    assert_eq!(r.metadata.ominous, vec![("a".to_string(), "b".to_string())]);
    assert_eq!(r.metadata.servings, None);
}
