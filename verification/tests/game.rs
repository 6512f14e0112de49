use hangman::game::{Game, GameResult, NUM_GUESSES};

#[test]
fn test_new_game() {
    let mut new_game = Game::new();
    let word = new_game.set_word("hello");

    assert_eq!(new_game.word, word.to_string());
    assert_eq!(new_game.guesses_left, NUM_GUESSES);
    assert_eq!(new_game.word_with_guesses(), "_____".to_string());
}

#[test]
fn test_guess_single_right() {
    let mut game = Game::new();
    game.set_word("hello");
    game.set_guess("e".to_string());
    game.guess();

    assert_eq!(game.guesses_left, NUM_GUESSES);
    assert_eq!(game.word_with_guesses(), "_e___".to_string());
    assert_eq!(game.guess_value, None);
}

#[test]
fn test_correct_guess_doesnt_decrement_guesses() {
    let mut game = Game::new();
    assert_eq!(game.guesses_left, NUM_GUESSES);
    game.set_word("hello");
    game.set_guess("e".to_string());
    game.guess();

    assert_eq!(game.guesses_left, NUM_GUESSES);
}

#[test]
fn test_guess_multiple_right() {
    let mut game = Game::new();
    game.set_word("hello");
    game.set_guess("l".to_string());
    game.guess();

    assert_eq!(game.guesses_left, NUM_GUESSES);
    assert_eq!(game.word_with_guesses(), "__ll_".to_string());
    assert_eq!(game.guess_value, None);

    let mut game = Game::new();
    game.set_word("animal");
    game.set_guess("a".to_string());
    game.guess();

    assert_eq!(game.word_with_guesses(), "a___a_".to_string());
}

#[test]
fn test_guess_wrong() {
    let mut game = Game::new();
    game.set_word("hello");
    game.set_guess("a".to_string());
    game.guess();

    assert_eq!(game.guesses_left, NUM_GUESSES - 1);
    assert_eq!(game.word_with_guesses(), "_____".to_string());
    assert_eq!(game.guess_value, None);
}

#[test]
fn test_set_guess() {
    let mut game = Game::new();
    game.set_word("hello");
    game.set_guess("a".to_string());
    assert_eq!(game.guess_value, Some('a'));
}

#[test]
fn test_multiple_letter_guess() {
    let mut game = Game::new();
    game.set_word("hello");
    game.set_guess("abc".to_string());
    assert_eq!(game.guess_value, Some('a'));
}

#[test]
fn test_empty_guess() {
    let mut game = Game::new();
    game.set_word("hello");
    game.set_guess("".to_string());
    assert_eq!(game.guess_value, None);
}

#[test]
fn test_cant_guess_same_letter_twice() {
    let mut game = Game::new();
    game.set_word("hello");
    game.set_guess("a".to_string());
    game.guess();
    assert_eq!(game.guesses_left, NUM_GUESSES - 1);

    game.set_guess("a".to_string());
    game.guess();
    assert_eq!(game.guesses_left, NUM_GUESSES - 1);
    assert_eq!(game.error_message, "You can't guess the same letter twice.");
}

#[test]
fn test_guess_has_to_be_a_letter() {
    let mut game = Game::new();
    game.set_word("hello");
    let invalid_guesses = ["#", "2", " ", "👋"];

    for guess in invalid_guesses.iter() {
        game.set_guess(guess.to_string());
        game.guess();
        assert_eq!(game.error_message, "Your guess has to be a letter.");
    }
}

#[test]
fn test_word_is_random_each_time() {
    let mut used_words = vec![];

    for _ in 1..10 {
        let new_game = Game::new();
        assert_eq!(used_words.contains(&new_game.word), false);
        used_words.push(new_game.word.clone());
    }
}

#[test]
fn test_guess_can_be_capital_letters() {
    let mut game = Game::new();
    game.set_word("hello");
    game.set_guess("H".to_string());
    game.guess();

    assert_eq!(game.guesses_left, NUM_GUESSES);
    assert_eq!(game.word_with_guesses(), "h____".to_string());
}

#[test]
fn test_won_game() {
    let mut game = Game::new();
    game.set_word("hi");
    game.set_guess("h".to_string());
    game.guess();
    game.set_guess("i".to_string());
    game.guess();

    assert_eq!(game.game_over_message(), "You won!".to_string());
}

#[test]
fn test_lost_game() {
    let mut game = Game::new();
    game.set_word("xyz");
    for letter in 'a'..'n' {
        game.set_guess(letter.to_string());
        game.guess();
    }

    assert_eq!(
        game.game_over_message(),
        "You lost. The word was: xyz".to_string()
    );
}

#[test]
fn test_already_guessed() {
    let mut game = Game::new();
    for guess in ['c', 'a', 'b'].iter() {
        game.set_guess(guess.to_string());
        game.guess();
    }
    assert_eq!(game.already_guessed(), "abc");
}

#[test]
fn test_fresh_mask_is_all_placeholders() {
    let game = Game::new();
    let masked = game.word_with_guesses();

    assert_eq!(masked.chars().count(), game.word.chars().count());
    assert!(masked.chars().all(|c| c == '_'));
    assert!(!game.word.is_empty());
}

#[test]
fn test_stage_lowercases_first_letter() {
    let mut game = Game::new();
    game.set_word("hello");
    game.set_guess("H".to_string());
    assert_eq!(game.guess_value, Some('h'));
}

#[test]
fn test_commit_without_pending_keeps_everything() {
    let mut game = Game::new();
    game.set_word("hello");
    game.set_guess("a".to_string());
    game.guess();
    game.set_guess("a".to_string());
    game.guess();
    assert_eq!(game.error_message, "You can't guess the same letter twice.");

    game.guess();

    assert_eq!(game.error_message, "You can't guess the same letter twice.");
    assert_eq!(game.guesses_left, NUM_GUESSES - 1);
    assert_eq!(game.already_guessed(), "a");
    assert!(game.game_result.is_none());
}

#[test]
fn test_invalid_guess_is_not_recorded() {
    let mut game = Game::new();
    game.set_word("hello");
    game.set_guess("2".to_string());
    game.guess();

    assert_eq!(game.error_message, "Your guess has to be a letter.");
    assert_eq!(game.guesses_left, NUM_GUESSES);
    assert_eq!(game.already_guessed(), "");
    assert_eq!(game.word_with_guesses(), "_____");
}

#[test]
fn test_duplicate_of_correct_guess_is_still_duplicate() {
    let mut game = Game::new();
    game.set_word("hello");
    game.set_guess("e".to_string());
    game.guess();
    game.set_guess("e".to_string());
    game.guess();

    assert_eq!(game.error_message, "You can't guess the same letter twice.");
    assert_eq!(game.guesses_left, NUM_GUESSES);
    assert_eq!(game.word_with_guesses(), "_e___");
}

#[test]
fn test_no_message_while_in_progress() {
    let mut game = Game::new();
    game.set_word("hello");
    assert_eq!(game.game_over_message(), "");
}

#[test]
fn test_won_game_sets_result() {
    let mut game = Game::new();
    game.set_word("hi");
    game.set_guess("h".to_string());
    game.guess();
    assert!(game.game_result.is_none());
    game.set_guess("i".to_string());
    game.guess();
    assert!(matches!(game.game_result, Some(GameResult::Won)));
}

#[test]
fn test_lost_game_exhausts_budget() {
    let mut game = Game::new();
    game.set_word("xyz");
    for letter in 'a'..'k' {
        game.set_guess(letter.to_string());
        game.guess();
    }
    assert_eq!(game.guesses_left, 0);
    assert!(matches!(game.game_result, Some(GameResult::Lost)));
    assert!(game.game_over_message().contains("xyz"));
}

#[test]
fn test_commit_after_game_over_changes_nothing() {
    let mut game = Game::new();
    game.set_word("xyz");
    for letter in 'a'..'k' {
        game.set_guess(letter.to_string());
        game.guess();
    }
    assert!(matches!(game.game_result, Some(GameResult::Lost)));
    let guessed_before = game.already_guessed();
    let message_before = game.error_message.clone();

    game.set_guess("x".to_string());
    game.guess();

    assert!(matches!(game.game_result, Some(GameResult::Lost)));
    assert_eq!(game.guesses_left, 0);
    assert_eq!(game.already_guessed(), guessed_before);
    assert_eq!(game.error_message, message_before);
    assert_eq!(game.guess_value, None);
}

#[test]
fn test_last_correct_letter_wins_even_at_low_budget() {
    let mut game = Game::new();
    game.set_word("ab");
    for letter in 'c'..'l' {
        game.set_guess(letter.to_string());
        game.guess();
    }
    assert_eq!(game.guesses_left, 1);
    game.set_guess("a".to_string());
    game.guess();
    game.set_guess("b".to_string());
    game.guess();
    assert!(matches!(game.game_result, Some(GameResult::Won)));
    assert_eq!(game.game_over_message(), "You won!");
}

#[test]
fn test_mixed_case_secret_reveals_original_casing() {
    let mut game = Game::new();
    game.set_word("Hello");
    game.set_guess("h".to_string());
    game.guess();

    assert_eq!(game.guesses_left, NUM_GUESSES);
    assert_eq!(game.word_with_guesses(), "H____");
}

#[test]
fn test_mixed_case_secret_can_be_won() {
    let mut game = Game::new();
    game.set_word("Hi");
    game.set_guess("h".to_string());
    game.guess();
    assert_eq!(game.guesses_left, NUM_GUESSES);
    game.set_guess("I".to_string());
    game.guess();

    assert!(matches!(game.game_result, Some(GameResult::Won)));
    assert_eq!(game.game_over_message(), "You won!");
}
