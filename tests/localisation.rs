use anbennar_wiki::localisation::{colourise, iconise, parse_localisation_file, preprocess};
use anbennar_wiki::text::title_case;

#[test]
fn test_parse_single() {
    // test an entry with unusual properties
    let data = "l_english:\n   ABC:00001     \t\"HEL\"LO\\n\" \t  # this is a comment";
    let parsed = parse_localisation_file(data);
    assert_eq!(parsed.get("ABC").unwrap(), "HEL\"LO\\n");
}

#[test]
fn first_line_comments_and_blank_lines_are_skipped() {
    let data = "l_english:\n # KEY:0 \"no\"\n\n KEY:0 \"Yes\"\r\n";
    let parsed = parse_localisation_file(data);
    assert_eq!(parsed.get("KEY").unwrap(), "Yes");
    assert_eq!(parsed.entries.len(), 1);
    let only_header = parse_localisation_file("KEY:0 \"Header\"");
    assert!(only_header.get("KEY").is_none());
}

#[test]
fn later_entry_hides_earlier_one() {
    let data = "l_english:\n A:0 \"first\"\n A:0 \"second\"\n";
    let parsed = parse_localisation_file(data);
    assert_eq!(parsed.get("A").unwrap(), "second");
}

#[test]
fn short_value_gives_empty_text() {
    let data = "l_english:\n A:0 \n B:\"x\"";
    let parsed = parse_localisation_file(data);
    assert_eq!(parsed.get("A").unwrap(), "");
    assert_eq!(parsed.get("B").unwrap(), "");
}

#[test]
fn colour_codes_become_spans() {
    let input = "Gain \u{a7}Y10\u{a7}! gold and \u{a7}Rless\u{a7}!".to_string();
    assert_eq!(
        colourise(&input),
        "Gain <span class=\"yellow\">10</span> gold and <span class=\"red\">less</span>"
    );
    let unknown = "\u{a7}!x\u{a7}!".to_string();
    assert_eq!(colourise(&unknown), "<span class=\"black\">x</span>");
    let plain = "nothing here".to_string();
    assert_eq!(colourise(&plain), "nothing here");
}

#[test]
fn preprocess_colours_and_keeps_icons() {
    let input = "\u{a7}GGood\u{a7}! \u{a3}adm\u{a3}".to_string();
    assert_eq!(preprocess(&input), "<span class=\"green\">Good</span> \u{a3}adm\u{a3}");
    assert_eq!(iconise(&input), input);
}

#[test]
fn localised_values_are_preprocessed() {
    let data = "l_english:\n T:0 \"\u{a7}BBlue\u{a7}!\"";
    let parsed = parse_localisation_file(data);
    assert_eq!(parsed.get("T").unwrap(), "<span class=\"blue\">Blue</span>");
}

#[test]
fn title_case_raises_first_letter() {
    assert_eq!(title_case("administration"), "Administration");
    assert_eq!(title_case(""), "");
    assert_eq!(title_case("\u{e9}lan"), "\u{c9}lan");
}

#[test]
fn test_parse_localisation_file() {
    let data = "l_english:\n Z35:0 \"R\u{f3}sande\"\n Z35_ADJ:0 \"R\u{f3}sanda\"\n";
    let parsed = parse_localisation_file(data);
    assert_eq!(parsed.get("Z35").unwrap_or(&"".to_string()), &"R\u{f3}sande".to_string());
    assert_eq!(parsed.get("Z35_ADJ").unwrap_or(&"".to_string()), &"R\u{f3}sanda".to_string());
    let data = "l_english:\n dwarven_pantheon.4.d:0 \"The halls fall silent.\\n\\nOnly the deep gods remain.\"\n";
    let parsed = parse_localisation_file(data);
    assert_eq!(
        parsed.get("dwarven_pantheon.4.d").unwrap_or(&"".to_string()),
        "The halls fall silent.\\n\\nOnly the deep gods remain."
    );
}

#[test]
fn test_inline_comments() {
    let data = "l_english:\n aw_haunted_house.120.t:0 \"The Starless Night\" # named after the song\n";
    let parsed = parse_localisation_file(data);
    assert_eq!(parsed.get("aw_haunted_house.120.t").unwrap(), "The Starless Night");
}
