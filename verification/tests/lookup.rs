use console_logger::severity::{level_hue, level_text_hue, level_token};
use console_logger::Hue;
use log::Level;

const LEVELS: [Level; 5] = [Level::Error, Level::Warn, Level::Info, Level::Debug, Level::Trace];

#[test]
fn token_of_each_severity() {
    assert_eq!(level_token(&Level::Error), "E");
    assert_eq!(level_token(&Level::Warn), "W");
    assert_eq!(level_token(&Level::Info), "*");
    assert_eq!(level_token(&Level::Debug), "D");
    assert_eq!(level_token(&Level::Trace), "T");
}

#[test]
fn tokens_are_single_characters() {
    for level in LEVELS.iter() {
        assert_eq!(level_token(level).chars().count(), 1);
    }
}

#[test]
fn tokens_are_pairwise_distinct() {
    for a in LEVELS.iter() {
        for b in LEVELS.iter() {
            assert_eq!(level_token(a) == level_token(b), a == b);
        }
    }
}

#[test]
fn every_token_belongs_to_a_severity() {
    for token in ["E", "W", "*", "D", "T"].iter() {
        assert!(LEVELS.iter().any(|level| level_token(level) == *token));
    }
}

#[test]
fn token_colour_of_each_severity() {
    assert_eq!(level_hue(&Level::Error), Hue::Red);
    assert_eq!(level_hue(&Level::Warn), Hue::Yellow);
    assert_eq!(level_hue(&Level::Info), Hue::Blue);
    assert_eq!(level_hue(&Level::Debug), Hue::Green);
    assert_eq!(level_hue(&Level::Trace), Hue::Magenta);
}

#[test]
fn text_colour_of_each_severity() {
    assert_eq!(level_text_hue(&Level::Error), Hue::Red);
    assert_eq!(level_text_hue(&Level::Warn), Hue::Yellow);
    assert_eq!(level_text_hue(&Level::Info), Hue::White);
    assert_eq!(level_text_hue(&Level::Debug), Hue::White);
    assert_eq!(level_text_hue(&Level::Trace), Hue::White);
}

#[test]
fn looking_up_twice_gives_the_same() {
    for level in LEVELS.iter() {
        assert_eq!(level_token(level), level_token(level));
        assert_eq!(level_hue(level), level_hue(level));
        assert_eq!(level_text_hue(level), level_text_hue(level));
    }
}
