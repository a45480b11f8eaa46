use mdbook_abbr::{apply_entry, transform, Abbreviation, ConfigError};

fn entry(abbr: &str, expanded: &str) -> Abbreviation {
    Abbreviation { abbr: abbr.to_string(), expanded: expanded.to_string() }
}

fn ok(text: &str, entries: &[Abbreviation]) -> String {
    transform(text, entries).expect("every pattern compiles")
}

#[test]
fn empty_list_is_identity() {
    assert_eq!(ok("use Abbr here", &[]), "use Abbr here");
    assert_eq!(ok("", &[]), "");
    assert_eq!(ok("<abbr title=\"x\">y</abbr> \u{e9}\u{4e16}", &[]), "<abbr title=\"x\">y</abbr> \u{e9}\u{4e16}");
}

#[test]
fn text_without_a_match_is_unchanged() {
    let entries = vec![entry("Abbr", "Abbreviation"), entry("HTML", "HyperText Markup Language")];
    assert_eq!(ok("nothing to see here", &entries), "nothing to see here");
    assert_eq!(ok("", &entries), "");
    assert_eq!(ok("abbr html", &entries), "abbr html");
}

#[test]
fn standalone_word_is_wrapped_once() {
    let entries = vec![entry("Abbr", "Abbreviation")];
    let out = ok("see Abbr.", &entries);
    let markup = "<abbr title=\"Abbreviation\">Abbr</abbr>";
    assert_eq!(out, "see <abbr title=\"Abbreviation\">Abbr</abbr>.");
    assert_eq!(out.matches(markup).count(), 1);
    assert_eq!(out.find(markup), Some(4));
    assert_eq!(out.len(), "see Abbr.".len() - "Abbr".len() + markup.len());
}

#[test]
fn part_of_a_longer_word_is_not_replaced() {
    let entries = vec![entry("Abbr", "Abbreviation")];
    assert_eq!(ok("ABDAbbr", &entries), "ABDAbbr");
    assert_eq!(ok("fooAbbrbar", &entries), "fooAbbrbar");
    assert_eq!(ok("Abbrs", &entries), "Abbrs");
    assert_eq!(ok("xAbbr", &entries), "xAbbr");
}

#[test]
fn digits_and_underscore_belong_to_a_word() {
    let entries = vec![entry("Abbr", "Abbreviation")];
    assert_eq!(ok("Abbr_1", &entries), "Abbr_1");
    assert_eq!(ok("_Abbr", &entries), "_Abbr");
    assert_eq!(ok("9Abbr", &entries), "9Abbr");
    assert_eq!(ok("Abbr2", &entries), "Abbr2");
}

#[test]
fn single_entry_in_a_sentence() {
    let entries = vec![entry("Abbr", "Abbreviation")];
    assert_eq!(
        ok("use Abbr here", &entries),
        "use <abbr title=\"Abbreviation\">Abbr</abbr> here"
    );
}

#[test]
fn two_entries_with_disjoint_abbreviations() {
    let expected = "<abbr title=\"Alpha\">A</abbr> and <abbr title=\"Beta\">B</abbr>";
    let forward = vec![entry("A", "Alpha"), entry("B", "Beta")];
    let backward = vec![entry("B", "Beta"), entry("A", "Alpha")];
    assert_eq!(ok("A and B", &forward), expected);
    assert_eq!(ok("A and B", &backward), expected);
}

#[test]
fn second_pass_wraps_the_abbreviation_inside_the_markup() {
    let entries = vec![entry("Abbr", "Abbreviation")];
    let once = ok("use Abbr here", &entries);
    let twice = ok(&once, &entries);
    assert_eq!(once, "use <abbr title=\"Abbreviation\">Abbr</abbr> here");
    assert_eq!(
        twice,
        "use <abbr title=\"Abbreviation\"><abbr title=\"Abbreviation\">Abbr</abbr></abbr> here"
    );
}

#[test]
fn repeated_entry_wraps_twice() {
    let entries = vec![entry("Abbr", "Abbreviation"), entry("Abbr", "Other")];
    assert_eq!(
        ok("Abbr", &entries),
        "<abbr title=\"Abbreviation\"><abbr title=\"Other\">Abbr</abbr></abbr>"
    );
}

#[test]
fn later_entry_matches_inside_earlier_expansion() {
    let entries = vec![entry("A", "see B"), entry("B", "Beta")];
    assert_eq!(
        ok("A", &entries),
        "<abbr title=\"see <abbr title=\"Beta\">B</abbr>\">A</abbr>"
    );
    let reversed = vec![entry("B", "Beta"), entry("A", "see B")];
    assert_eq!(ok("A", &reversed), "<abbr title=\"see B\">A</abbr>");
}

#[test]
fn later_entry_matches_the_tag_name_of_earlier_markup() {
    let entries = vec![entry("X", "ex"), entry("title", "T")];
    assert_eq!(
        ok("X", &entries),
        "<abbr <abbr title=\"T\">title</abbr>=\"ex\">X</abbr>"
    );
}

#[test]
fn every_occurrence_is_replaced() {
    let entries = vec![entry("Abbr", "Abbreviation")];
    assert_eq!(
        ok("Abbr, Abbr;Abbr", &entries),
        "<abbr title=\"Abbreviation\">Abbr</abbr>, <abbr title=\"Abbreviation\">Abbr</abbr>;<abbr title=\"Abbreviation\">Abbr</abbr>"
    );
}

#[test]
fn punctuation_whitespace_and_text_ends_bound_a_word() {
    let entries = vec![entry("Abbr", "E")];
    let m = "<abbr title=\"E\">Abbr</abbr>";
    assert_eq!(ok("Abbr", &entries), m);
    assert_eq!(ok("(Abbr)", &entries), format!("({m})"));
    assert_eq!(ok("Abbr.", &entries), format!("{m}."));
    assert_eq!(ok("\tAbbr\n", &entries), format!("\t{m}\n"));
    assert_eq!(ok("an-Abbr-here", &entries), format!("an-{m}-here"));
    assert_eq!(ok("\"Abbr\"", &entries), format!("\"{m}\""));
}

#[test]
fn matching_is_case_sensitive() {
    let entries = vec![entry("Abbr", "E")];
    assert_eq!(ok("abbr ABBR aBBR", &entries), "abbr ABBR aBBR");
}

#[test]
fn consumed_text_is_not_matched_again() {
    let entries = vec![entry("a a", "E")];
    assert_eq!(ok("a a a", &entries), "<abbr title=\"E\">a a</abbr> a");
    assert_eq!(
        ok("a a a a", &entries),
        "<abbr title=\"E\">a a</abbr> <abbr title=\"E\">a a</abbr>"
    );
}

#[test]
fn expansion_is_not_escaped() {
    let entries = vec![entry("Q", "say \"hi\" <now> & then")];
    assert_eq!(ok("Q", &entries), "<abbr title=\"say \"hi\" <now> & then\">Q</abbr>");
}

#[test]
fn dollar_signs_are_kept_verbatim() {
    let entries = vec![entry("USD", "costs $1 or ${name} or $$")];
    assert_eq!(
        ok("in USD", &entries),
        "in <abbr title=\"costs $1 or ${name} or $$\">USD</abbr>"
    );
}

#[test]
fn empty_expansion() {
    let entries = vec![entry("Abbr", "")];
    assert_eq!(ok("Abbr", &entries), "<abbr title=\"\">Abbr</abbr>");
}

#[test]
fn text_with_wide_characters() {
    let entries = vec![entry("Abbr", "\u{c4}bk\u{fc}rzung")];
    assert_eq!(
        ok("\u{e9}t\u{e9} Abbr \u{4e16}\u{754c} Abbr\u{1f600}", &entries),
        "\u{e9}t\u{e9} <abbr title=\"\u{c4}bk\u{fc}rzung\">Abbr</abbr> \u{4e16}\u{754c} <abbr title=\"\u{c4}bk\u{fc}rzung\">Abbr</abbr>\u{1f600}"
    );
}

#[test]
fn letters_of_any_script_belong_to_a_word() {
    let entries = vec![entry("Abbr", "E")];
    assert_eq!(ok("\u{e9}Abbr", &entries), "\u{e9}Abbr");
    assert_eq!(ok("Abbr\u{4e16}", &entries), "Abbr\u{4e16}");
}

#[test]
fn abbreviation_of_wide_characters() {
    let entries = vec![entry("\u{e9}t\u{e9}", "summer")];
    assert_eq!(
        ok("l'\u{e9}t\u{e9}!", &entries),
        "l'<abbr title=\"summer\">\u{e9}t\u{e9}</abbr>!"
    );
}

#[test]
fn abbreviation_is_read_as_a_pattern() {
    let entries = vec![entry("a.c", "E")];
    assert_eq!(ok("abc a.c", &entries), "<abbr title=\"E\">a.c</abbr> <abbr title=\"E\">a.c</abbr>");
}

#[test]
fn invalid_pattern_is_a_config_error() {
    let entries = vec![entry("a(", "E")];
    assert_eq!(
        transform("some text", &entries),
        Err(ConfigError { index: 0, abbr: "a(".to_string() })
    );
}

#[test]
fn invalid_pattern_fails_whatever_the_text() {
    let entries = vec![entry("[", "E")];
    assert_eq!(transform("", &entries), Err(ConfigError { index: 0, abbr: "[".to_string() }));
    assert_eq!(transform("[", &entries), Err(ConfigError { index: 0, abbr: "[".to_string() }));
}

#[test]
fn first_invalid_entry_is_reported() {
    let entries = vec![entry("A", "Alpha"), entry("b)", "E"), entry("c(", "F")];
    assert_eq!(
        transform("A b c", &entries),
        Err(ConfigError { index: 1, abbr: "b)".to_string() })
    );
}

#[test]
fn config_error_message_names_the_abbreviation() {
    let e = ConfigError { index: 3, abbr: "a(".to_string() };
    assert_eq!(e.message(), "abbreviation is not a valid search pattern: a(");
}

#[test]
fn apply_entry_replaces_or_rejects() {
    assert_eq!(
        apply_entry("use Abbr here", &entry("Abbr", "Abbreviation")),
        Some("use <abbr title=\"Abbreviation\">Abbr</abbr> here".to_string())
    );
    assert_eq!(apply_entry("plain", &entry("Abbr", "Abbreviation")), Some("plain".to_string()));
    assert_eq!(apply_entry("use Abbr here", &entry("Ab(br", "Abbreviation")), None);
}

#[test]
fn input_is_left_alone() {
    let text = String::from("use Abbr here");
    let entries = vec![entry("Abbr", "Abbreviation")];
    let out = ok(&text, &entries);
    assert_eq!(text, "use Abbr here");
    assert_ne!(out, text);
}
