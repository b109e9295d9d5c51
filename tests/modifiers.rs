use anbennar_wiki::modifiers::{
    lookup, polarity_to_colour, to_human_readable, Colour, DisplayRule, ModifierEntry, Polarity,
};
use anbennar_wiki::scalar::{ScalarDecodeFailure, ScalarKind};

fn entry(polarity: Polarity, display_rule: DisplayRule) -> ModifierEntry {
    ModifierEntry { polarity, display_rule }
}

#[test]
fn percentage_decodes_deterministically() {
    let e = entry(Polarity::ImprovingWhenPositive, DisplayRule::Percentage);
    assert_eq!(to_human_readable(e, b"0.10").unwrap(), "+10%");
    assert_eq!(polarity_to_colour(e, b"0.10"), Ok(Colour::Improvement));
    assert_eq!(to_human_readable(e, b"-0.05").unwrap(), "-5%");
    assert_eq!(polarity_to_colour(e, b"-0.05"), Ok(Colour::Detriment));
    assert_eq!(to_human_readable(e, b"0.125").unwrap(), "+12.5%");
    assert_eq!(to_human_readable(e, b"1").unwrap(), "+100%");
}

#[test]
fn other_display_rules() {
    let whole = entry(Polarity::ImprovingWhenPositive, DisplayRule::SignedInteger);
    assert_eq!(to_human_readable(whole, b"2").unwrap(), "+2");
    assert_eq!(to_human_readable(whole, b"-1.50").unwrap(), "-1.5");
    let scaled = entry(Polarity::ImprovingWhenNegative, DisplayRule::ScaledFloat { precision: 2 });
    assert_eq!(to_human_readable(scaled, b"0.5").unwrap(), "+0.50");
    assert_eq!(to_human_readable(scaled, b"-0.125").unwrap(), "-0.12");
    assert_eq!(to_human_readable(scaled, b"x"), Err(ScalarDecodeFailure::Expected(ScalarKind::Decimal)));
}

#[test]
fn colour_follows_polarity() {
    let worse_up = entry(Polarity::ImprovingWhenNegative, DisplayRule::Percentage);
    assert_eq!(polarity_to_colour(worse_up, b"0.1"), Ok(Colour::Detriment));
    assert_eq!(polarity_to_colour(worse_up, b"-0.1"), Ok(Colour::Improvement));
    assert_eq!(polarity_to_colour(worse_up, b"0"), Ok(Colour::Improvement));
    let neutral = entry(Polarity::Neutral, DisplayRule::Percentage);
    assert_eq!(polarity_to_colour(neutral, b"-0.1"), Ok(Colour::Improvement));
    assert_eq!(to_human_readable(neutral, b"-0.0").unwrap(), "+0%");
}

#[test]
fn catalog_knows_listed_modifiers_only() {
    let d = lookup(b"discipline").unwrap();
    assert_eq!(d.polarity, Polarity::ImprovingWhenPositive);
    assert_eq!(d.display_rule, DisplayRule::Percentage);
    let s = lookup(b"stability_cost_modifier").unwrap();
    assert_eq!(s.polarity, Polarity::ImprovingWhenNegative);
    assert!(lookup(b"no_such_modifier").is_none());
}
