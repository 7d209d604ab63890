use souls_client::bosses::words::{justify_words, split_evenly, split_word};

fn strings(list: &[&str]) -> Vec<String> {
    list.iter().map(|s| s.to_string()).collect()
}

#[test]
fn words_are_justified() {
    let words = strings(&["Malenia, ", "Blade ", "of ", "Miquella"]);
    assert_eq!(justify_words(&words, 3), strings(&["Malenia, ", "Blade of ", "Miquella"]));
    assert_eq!(justify_words(&words, 1), strings(&["Malenia, Blade of Miquella"]));
    assert_eq!(justify_words(&words, 4), words);
}

#[test]
fn every_word_but_the_last_is_taken_to_end_in_a_space() {
    let words = strings(&["abc ", "abcdefgh ", "a ", "abcdefghi"]);
    assert_eq!(
        justify_words(&words, 3),
        strings(&["abc ", "abcdefgh a ", "abcdefghi"])
    );
    assert_eq!(justify_words(&strings(&["ab ", ""]), 2), strings(&["ab ", ""]));
}

#[test]
fn a_word_is_split_into_even_pieces() {
    assert_eq!(split_word("abcdefg", 3), strings(&["ab", "cde", "fg"]));
    assert_eq!(split_word("ab ", 5), strings(&["a", "b "]));
    assert_eq!(split_word("word ", 1), strings(&["word "]));
    assert_eq!(split_word("word ", 0), strings(&["word "]));
}

#[test]
fn a_word_of_spaces_stays_whole() {
    assert_eq!(split_word(" ", 2), strings(&[" "]));
    assert_eq!(split_word("", 2), strings(&[""]));
    assert_eq!(split_evenly(" ", 3), strings(&[" "]));
    assert_eq!(split_evenly("a  b", 5), strings(&["a ", " ", "b"]));
}

#[test]
fn a_text_gives_as_many_pieces_as_it_has_bytes_for() {
    let text = "Elden Beast of Gold";
    for count in 1..30 {
        assert_eq!(split_evenly(text, count).len(), count.min(16));
    }
}

#[test]
fn text_is_split_evenly() {
    assert_eq!(split_evenly("Margit the Fell", 1), strings(&["Margit the Fell"]));
    assert_eq!(split_evenly("Margit the Fell", 3), strings(&["Margit ", "the ", "Fell"]));
    assert_eq!(split_evenly("Godrick", 3), strings(&["Go", "dri", "ck"]));
    assert_eq!(split_evenly("Rennala Queen", 3), strings(&["Renn", "ala ", "Queen"]));
    assert_eq!(split_evenly("abc def", 3), strings(&["abc ", "de", "f"]));
    assert_eq!(
        split_evenly("Malenia, Blade of Miquella", 3),
        strings(&["Malenia, ", "Blade of ", "Miquella"])
    );
}

#[test]
fn pieces_make_up_the_text() {
    for text in ["Margit the Fell Omen", "Godrick", "Starscourge Radahn", "a b c d e f", "a   b "] {
        for count in 1..7 {
            assert_eq!(split_evenly(text, count).concat(), text);
        }
    }
}
