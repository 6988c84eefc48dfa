use option_tracker::smalltalk::{
    choose_joke, display_joke, display_remark, joke_at, recent_from, remark_count, remark_lines,
    JokeError,
};
use option_tracker::translations::{harvest, DbTranslation, Translation};

#[test]
fn a_joke_is_found_by_its_number() {
    assert_eq!(joke_at(5, Some(1), 99), Ok(0));
    assert_eq!(joke_at(5, Some(5), 99), Ok(4));
    assert_eq!(joke_at(5, Some(0), 99), Err(JokeError::InvalidNumber(5)));
    assert_eq!(joke_at(5, Some(6), 99), Err(JokeError::InvalidNumber(5)));
    assert_eq!(joke_at(0, Some(1), 99), Err(JokeError::NoJokes));
    assert_eq!(joke_at(0, None, 99), Err(JokeError::NoJokes));
    assert_eq!(choose_joke(5, Some(3)), Ok(2));
    assert_eq!(choose_joke(5, Some(9)), Err(JokeError::InvalidNumber(5)));
    assert_eq!(choose_joke(0, None), Err(JokeError::NoJokes));
}

#[test]
fn a_joke_is_drawn_where_no_number_is_given() {
    assert_eq!(joke_at(5, None, 3), Ok(3));
    assert_eq!(joke_at(5, None, 13), Ok(3));
    assert_eq!(joke_at(1, None, usize::MAX), Ok(0));
    let mut seen = [false; 4];
    for _ in 0..400 {
        let place = choose_joke(4, None).unwrap();
        assert!(place < 4);
        seen[place] = true;
    }
    assert!(seen.iter().all(|s| *s));
    assert_eq!(choose_joke(1, None), Ok(0));
}

#[test]
fn jokes_are_shown_under_their_number() {
    assert_eq!(display_joke(0, "Why?\nBecause."), "-# #1:\nWhy?\nBecause.");
    assert_eq!(display_joke(41, ""), "-# #42:\n");
    assert_eq!(display_remark(2, "Knock knock", "who cares"), "-# #3:\nKnock knock\n```\nwho cares```");
}

#[test]
fn the_log_shows_its_last_lines() {
    assert_eq!(recent_from(100, None), 90);
    assert_eq!(recent_from(7, None), 0);
    assert_eq!(recent_from(10, None), 0);
    assert_eq!(recent_from(11, None), 1);
    assert_eq!(recent_from(100, Some(3)), 97);
    assert_eq!(recent_from(100, Some(0)), 99);
    assert_eq!(recent_from(100, Some(50)), 50);
    assert_eq!(recent_from(100, Some(51)), 50);
    assert_eq!(recent_from(100, Some(usize::MAX)), 50);
    assert_eq!(recent_from(0, Some(5)), 0);
}

fn entry(abbreviation: &str, definition: &str) -> Translation {
    Translation { abbreviation: abbreviation.to_string(), definition: definition.to_string() }
}

#[test]
fn harvest_saves_only_what_the_glossary_does_not_know() {
    let all = vec![entry("btc", "bought to close")];
    let mut stored = vec![DbTranslation { a: "btc".to_string(), d: "bought to close".to_string() }];
    assert!(!harvest(&all, &mut stored, &entry("btc", "bitcoin")));
    assert_eq!(stored.len(), 1);
    assert!(harvest(&all, &mut stored, &entry("cc", "covered call")));
    assert_eq!(stored.len(), 2);
    assert_eq!(stored[1], DbTranslation { a: "cc".to_string(), d: "covered call".to_string() });
    assert!(harvest(&Vec::new(), &mut stored, &entry("btc", "bitcoin")));
    assert_eq!(stored.len(), 3);
}

#[test]
fn a_joke_and_its_remark_take_two_lines() {
    assert_eq!(remark_count(0), 0);
    assert_eq!(remark_count(1), 0);
    assert_eq!(remark_count(2), 1);
    assert_eq!(remark_count(7), 3);
    assert_eq!(remark_lines(0, 2), (0, 1));
    assert_eq!(remark_lines(2, 7), (4, 5));
}
