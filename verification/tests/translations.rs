use option_tracker::translations::{
    get_translation, load_translations, save_translation, test_for_translation, DbTranslation,
    Translation,
};

fn entry(abbreviation: &str, definition: &str) -> Translation {
    Translation { abbreviation: abbreviation.to_string(), definition: definition.to_string() }
}

fn glossary() -> Vec<Translation> {
    vec![
        entry("btc", "bought to close"),
        entry("otm", "out of the money"),
        entry("csp", "cash secured put, usually otm"),
        entry("wheel", "csp until assigned, then cc"),
        entry("cc", "covered call"),
        entry("otm", "over the moon"),
    ]
}

#[test]
fn save_appends_a_record() {
    let mut stored = Vec::new();
    save_translation(&mut stored, &entry("btc", "bought to close"));
    save_translation(&mut stored, &entry("cc", "covered call"));
    let expected = vec![
        DbTranslation { a: "btc".to_string(), d: "bought to close".to_string() },
        DbTranslation { a: "cc".to_string(), d: "covered call".to_string() },
    ];
    assert_eq!(stored, expected);
}

#[test]
fn load_reads_the_records_back_in_order() {
    let mut stored = Vec::new();
    for t in glossary().iter() {
        save_translation(&mut stored, t);
    }
    assert_eq!(load_translations(&stored), glossary());
    assert_eq!(load_translations(&Vec::new()), Vec::new());
}

#[test]
fn get_finds_the_first_entry_with_the_abbreviation() {
    let all = glossary();
    assert_eq!(get_translation(&all, &"otm".to_string()), Some(entry("otm", "out of the money")));
    assert_eq!(get_translation(&all, &"cc".to_string()), Some(entry("cc", "covered call")));
    assert_eq!(get_translation(&all, &"OTM".to_string()), None);
    assert_eq!(get_translation(&all, &"ot".to_string()), None);
    assert_eq!(get_translation(&Vec::new(), &"otm".to_string()), None);
}

#[test]
fn a_text_calls_up_the_entries_it_names() {
    let all = glossary();
    assert_eq!(test_for_translation(&all, "nothing to see"), Vec::<String>::new());
    assert_eq!(test_for_translation(&all, "sold a cc today"), vec!["cc: covered call"]);
    assert_eq!(
        test_for_translation(&all, "btc the cc"),
        vec!["btc: bought to close", "cc: covered call"]
    );
}

#[test]
fn definitions_are_followed_as_soon_as_an_entry_is_listed() {
    let all = glossary();
    assert_eq!(
        test_for_translation(&all, "running the wheel"),
        vec![
            "wheel: csp until assigned, then cc",
            "csp: cash secured put, usually otm",
            "otm: out of the money",
            "otm: over the moon",
            "cc: covered call",
        ]
    );
    assert_eq!(
        test_for_translation(&all, "otm csp"),
        vec![
            "otm: out of the money",
            "csp: cash secured put, usually otm",
            "otm: over the moon",
        ]
    );
}

#[test]
fn entries_that_name_each_other_are_listed_once() {
    let all = vec![entry("ping", "answer to pong"), entry("pong", "answer to ping")];
    assert_eq!(
        test_for_translation(&all, "ping"),
        vec!["ping: answer to pong", "pong: answer to ping"]
    );
    let own = vec![entry("gnu", "gnu is not unix"), entry("gnu", "gnu is not unix")];
    assert_eq!(test_for_translation(&own, "gnu"), vec!["gnu: gnu is not unix"]);
    assert_eq!(test_for_translation(&Vec::new(), "gnu"), Vec::<String>::new());
}

#[test]
fn an_empty_abbreviation_stands_in_every_text() {
    let all = vec![entry("", "nothing")];
    assert_eq!(test_for_translation(&all, ""), vec![": nothing"]);
}
