use cooklang::{parse, Cookware, Ingredient, Metadata, RecipeLine, StepItem, Timer};

fn test(input: &str) -> Vec<RecipeLine> {
    parse(input).unwrap()
}

fn test_multi(input: &str, output: Vec<RecipeLine>) {
    assert_eq!(test(input), output);
}

fn test_single(input: &str, output: RecipeLine) {
    test_multi(input, vec![output]);
}

fn md(key: &str, value: &str) -> RecipeLine {
    RecipeLine::Metadata(Metadata { key: key.to_string(), value: value.to_string() })
}

fn content(text: &str) -> StepItem {
    StepItem::Content(text.to_string())
}

fn ing(name: &str, amount: &str) -> StepItem {
    StepItem::Ingredient(Ingredient { name: name.to_string(), amount: amount.to_string() })
}

fn cw(name: &str) -> StepItem {
    StepItem::Cookware(Cookware { name: name.to_string() })
}

#[test]
fn test_metadata() {
    test_single(">> servings: 2", md("servings", "2"));
    test_multi(
        "\t  >> a : b c \n \t >>3d:f g  ",
        vec![md("a", "b c"), md("3d", "f g")],
    );
}

#[test]
fn basic_step() {
    test_single(" do something ", RecipeLine::Step(vec![content("do something")]));
}

#[test]
fn ingredient() {
    let r = RecipeLine::Step(vec![content("chop"), ing("cucumber", ""), content("finely")]);
    test_single(" chop @cucumber finely", r.clone());
    test_single("chop@cucumber{}finely", r);
}

#[test]
fn long_ingredient() {
    test_single(
        "sprinkle @ground pepper{} to taste",
        RecipeLine::Step(vec![
            content("sprinkle"),
            ing("ground pepper", ""),
            content("to taste"),
        ]),
    );
}

#[test]
fn ingredient_quantity() {
    test_single(
        "chop @red bell pepper{1kg}",
        RecipeLine::Step(vec![content("chop"), ing("red bell pepper", "1kg")]),
    );
}

#[test]
fn cookware() {
    test_single("#knife", RecipeLine::Step(vec![StepItem::Cookware(Cookware {
        name: "knife".to_string(),
    })]));
}

#[test]
fn long_cookware() {
    test_single(
        "chop @cheese with #long knife{}",
        RecipeLine::Step(vec![
            content("chop"),
            ing("cheese", ""),
            content("with"),
            cw("long knife"),
        ]),
    );
}

#[test]
fn timer() {
    test_single(
        "cook @eggs{2} in #skillet for ~{25%minutes}.",
        RecipeLine::Step(vec![
            content("cook"),
            ing("eggs", "2"),
            content("in"),
            cw("skillet"),
            content("for"),
            StepItem::Timer(Timer { duration: 25, unit: "minutes".to_string() }),
            content("."),
        ]),
    );
}

#[test]
fn blank_lines() {
    test_multi(
        "       a       \n    \n\nb\n\n",
        vec![RecipeLine::Step(vec![content("a")]), RecipeLine::Step(vec![content("b")])],
    );
}

#[test]
fn short_ingredient_without_space() {
    test_single(
        "chop@cucumber finely",
        RecipeLine::Step(vec![content("chop"), ing("cucumber", ""), content("finely")]),
    );
}

#[test]
fn only_blank_lines() {
    assert_eq!(test(""), vec![]);
    assert_eq!(test("   \n\t\n\r\n  "), vec![]);
}

#[test]
fn stray_markers_are_content() {
    test_single("a @ b # c ~ d @", RecipeLine::Step(vec![content("a @ b # c ~ d @")]));
    test_single("50~60 min", RecipeLine::Step(vec![content("50~60 min")]));
}

#[test]
fn metadata_value_keeps_colons() {
    test_single(">> source: http://x.org", md("source", "http://x.org"));
}

#[test]
fn metadata_without_colon_fails() {
    let e = parse("step\n  >> nothing here").unwrap_err();
    assert_eq!(e.kind, cooklang::ParseErrorKind::MissingColon);
    assert_eq!(e.line, 2);
    assert_eq!(e.column, 3);
}

#[test]
fn unterminated_block_fails() {
    let e = parse("add @salt{2 to taste").unwrap_err();
    assert_eq!(e.kind, cooklang::ParseErrorKind::Unterminated);
    assert_eq!(e.line, 1);
    assert_eq!(e.column, 5);
    let e = parse("wait ~{10%min").unwrap_err();
    assert_eq!(e.kind, cooklang::ParseErrorKind::Unterminated);
}

#[test]
fn cookware_with_amount_fails() {
    let e = parse("use #big pot{2}").unwrap_err();
    assert_eq!(e.kind, cooklang::ParseErrorKind::CookwareAmount);
    assert_eq!(e.column, 5);
}

#[test]
fn malformed_timer_fails() {
    assert_eq!(parse("~{ten%min}").unwrap_err().kind, cooklang::ParseErrorKind::BadTimer);
    assert_eq!(parse("~{10 min}").unwrap_err().kind, cooklang::ParseErrorKind::BadTimer);
    assert_eq!(parse("~{%min}").unwrap_err().kind, cooklang::ParseErrorKind::BadTimer);
    assert_eq!(
        parse("~{99999999999999999999%s}").unwrap_err().kind,
        cooklang::ParseErrorKind::BadTimer
    );
}

#[test]
fn largest_timer_duration() {
    test_single(
        "~{18446744073709551615%s}",
        RecipeLine::Step(vec![StepItem::Timer(Timer {
            duration: u64::MAX,
            unit: "s".to_string(),
        })]),
    );
}

#[test]
fn unicode_text_is_kept() {
    test_single(
        "größe @crème fraîche{1 Löffel} ☕",
        RecipeLine::Step(vec![
            content("größe"),
            ing("crème fraîche", "1 Löffel"),
            content("☕"),
        ]),
    );
}
