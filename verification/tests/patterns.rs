use trade_watch::patterns::extract;

#[test]
fn full_shape_extracts_every_field() {
    let line = r#"@From Alice: Hi, I would like to buy your The Pandemonius, Jade Amulet listed for 4.99 awakened-sextant in Ancestor (stash tab "~b/o 4.99"; position: left 9, top 7)"#;
    let f = extract(line).unwrap();
    assert_eq!(f.item_name, "The Pandemonius, Jade Amulet");
    assert_eq!(f.cost_number.as_deref(), Some("4.99"));
    assert_eq!(f.cost_currency.as_deref(), Some("awakened-sextant"));
    assert_eq!(f.league, "Ancestor");
    assert_eq!(f.stash.as_deref(), Some("~b/o 4.99"));
    assert_eq!(f.left.as_deref(), Some("9"));
    assert_eq!(f.top.as_deref(), Some("7"));
    assert_eq!(f.item2_name, None);
}

#[test]
fn partial_shape_has_no_price() {
    let f = extract("Hi, I would like to buy your Widget in Standard").unwrap();
    assert_eq!(f.item_name, "Widget");
    assert_eq!(f.cost_number, None);
    assert_eq!(f.cost_currency, None);
    assert_eq!(f.league, "Standard");
    assert_eq!(f.stash, None);
}

#[test]
fn barter_shape_names_both_items() {
    let f = extract("Hi, I'd like to buy your Sun Ring for my Moon Ring in Standard").unwrap();
    assert_eq!(f.item_name, "Sun Ring");
    assert_eq!(f.item2_name.as_deref(), Some("Moon Ring"));
    assert_eq!(f.cost_number, None);
    assert_eq!(f.league, "Standard");
}

#[test]
fn full_shape_wins_over_partial_shape() {
    // This line matches the partial shape too (item up to the last " in "),
    // but the full shape is tried first, so the price fields are populated.
    let f = extract("Hi, I would like to buy your Sunspite Dagger listed for 3 chaos in Standard")
        .unwrap();
    assert_eq!(f.item_name, "Sunspite Dagger");
    assert_eq!(f.cost_number.as_deref(), Some("3"));
    assert_eq!(f.cost_currency.as_deref(), Some("chaos"));
    assert_eq!(f.league, "Standard");
}

#[test]
fn unrecognized_line_extracts_nothing() {
    assert!(extract("wanna trade?").is_none());
    assert!(extract("").is_none());
}

#[test]
fn stash_fields_are_optional() {
    let f = extract("Hi, I would like to buy your Widget listed for 1 chaos in Standard")
        .unwrap();
    assert_eq!(f.stash, None);
    assert_eq!(f.left, None);
    assert_eq!(f.top, None);
}
