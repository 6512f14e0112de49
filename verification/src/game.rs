//! The guessing engine: one `Game` value owns the whole state of a
//! play-through, and every command on it is verified against the state
//! machine it promises.
use vstd::prelude::*;
use vstd::string::StrSliceExecFns;
use vstd::string::StringExecFns;

verus! {

/// How many wrong guesses a fresh game allows.
pub const NUM_GUESSES: u32 = 10;

pub struct Game {
    pub error_message: String,
    pub game_result: Option<GameResult>,
    pub guess_value: Option<char>,
    pub guessed: Vec<char>,
    pub guesses_left: u32,
    /// The secret. Read it freely; replace it only through `set_word`, whose
    /// contract forbids changing the word once play has started.
    pub word: String,
}

#[derive(Clone, Copy, PartialEq, Eq, Structural, Debug)]
pub enum GameResult {
    Won,
    Lost,
}

/// Case-insensitive equality of two characters: both fold to the same
/// lowercase character.
pub open spec fn folded_eq(a: char, b: char) -> bool {
    lower_char(a) == lower_char(b)
}

/// Whether the sequence holds the character, up to case.
pub open spec fn contains_folded(s: Seq<char>, c: char) -> bool {
    exists|i: int| 0 <= i < s.len() && folded_eq(s[i], c)
}

/// No character occurs twice.
pub open spec fn no_dups(s: Seq<char>) -> bool {
    forall|i: int, j: int| 0 <= i < j < s.len() ==> s[i] != s[j]
}

/// The secret with every unguessed character replaced by the placeholder.
/// Membership is judged up to case, and a revealed character keeps the
/// secret's own casing.
pub open spec fn spec_masked(word: Seq<char>, guessed: Seq<char>) -> Seq<char> {
    Seq::new(word.len(), |i: int| if contains_folded(guessed, word[i]) { word[i] } else { '_' })
}

/// The game is won exactly when masking hides nothing: the masked word is the
/// secret verbatim.
pub open spec fn spec_won(word: Seq<char>, guessed: Seq<char>) -> bool {
    spec_masked(word, guessed) == word
}

/// One round of outcome evaluation. A terminal outcome is kept as it is:
/// Won and Lost never revert. While play goes on, a full reveal wins, else an
/// exhausted budget loses, else the outcome stays open.
pub open spec fn spec_evaluated(
    word: Seq<char>,
    guessed: Seq<char>,
    guesses_left: u32,
    r0: Option<GameResult>,
) -> Option<GameResult> {
    if r0 is Some {
        r0
    } else if spec_won(word, guessed) {
        Some(GameResult::Won)
    } else if guesses_left == 0 {
        Some(GameResult::Lost)
    } else {
        r0
    }
}

pub open spec fn dup_guess_msg() -> Seq<char> {
    "You can't guess the same letter twice."@
}

pub open spec fn not_letter_msg() -> Seq<char> {
    "Your guess has to be a letter."@
}

pub open spec fn won_msg() -> Seq<char> {
    "You won!"@
}

pub open spec fn lost_msg_prefix() -> Seq<char> {
    "You lost. The word was: "@
}

/// What `str::to_lowercase` spells a string to: a function of its characters
/// alone.
pub uninterp spec fn lower_of(s: Seq<char>) -> Seq<char>;

/// What a single character folds to for case-insensitive comparison: the
/// first character of `char::to_lowercase`'s mapping, a function of the
/// character alone.
pub uninterp spec fn lower_char(c: char) -> char;

/// Whether a character counts as a letter, as `char::is_alphabetic` draws the
/// line.
pub uninterp spec fn is_letter(c: char) -> bool;

/// Relies on String::push: appends the one character at the end.
#[verifier::external_body]
pub(crate) fn push_char(s: &mut String, c: char)
    ensures
        final(s)@ == old(s)@.push(c),
{
    s.push(c)
}

/// Relies on str::to_lowercase: the result depends on the characters alone,
/// and it is empty exactly when the input is.
#[verifier::external_body]
fn lowercase(s: &str) -> (r: String)
    ensures
        r@ == lower_of(s@),
        r@.len() == 0 <==> s@.len() == 0,
{
    s.to_lowercase()
}

/// Relies on char::to_lowercase: its mapping always yields at least one
/// character, and the first one depends on the character alone.
#[verifier::external_body]
fn to_lower_char(c: char) -> (r: char)
    ensures
        r == lower_char(c),
{
    match c.to_lowercase().next() {
        Some(l) => l,
        None => c,
    }
}

/// Relies on char::is_alphabetic: whether the character is a letter is a
/// property of the character alone.
#[verifier::external_body]
fn alphabetic(c: char) -> (r: bool)
    ensures
        r == is_letter(c),
{
    c.is_alphabetic()
}

/// Everything a commit may not touch when it declines to act: all state but
/// the staged guess.
pub open spec fn same_but_pending(o: Game, n: Game) -> bool {
    &&& n.error_message@ == o.error_message@
    &&& n.game_result == o.game_result
    &&& n.guessed@ == o.guessed@
    &&& n.guesses_left == o.guesses_left
    &&& n.word@ == o.word@
}

/// How one `guess` call takes the game from `o` to `n`. The staged guess is
/// weighed in strict order: an already ended game and an empty stage do
/// nothing; then duplicate, hit, non-letter and miss each get their exact
/// effect, and the outcome is re-evaluated on whatever state that leaves.
pub open spec fn commit_rel(o: Game, n: Game) -> bool {
    if o.game_result is Some {
        &&& same_but_pending(o, n)
        &&& n.guess_value is None
    } else if o.guess_value is None {
        &&& same_but_pending(o, n)
        &&& n.guess_value is None
    } else {
        let c = o.guess_value->0;
        &&& n.word@ == o.word@
        &&& n.guess_value is None
        &&& if o.guessed@.contains(c) {
            &&& n.error_message@ == dup_guess_msg()
            &&& n.guessed@ == o.guessed@
            &&& n.guesses_left == o.guesses_left
            &&& n.game_result == spec_evaluated(
                o.word@,
                o.guessed@,
                o.guesses_left,
                None::<GameResult>,
            )
        } else if contains_folded(o.word@, c) {
            &&& n.error_message@.len() == 0
            &&& n.guessed@ == o.guessed@.push(c)
            &&& n.guesses_left == o.guesses_left
            &&& n.game_result == spec_evaluated(
                o.word@,
                o.guessed@.push(c),
                o.guesses_left,
                None::<GameResult>,
            )
        } else if !is_letter(c) {
            &&& n.error_message@ == not_letter_msg()
            &&& n.guessed@ == o.guessed@
            &&& n.guesses_left == o.guesses_left
            &&& n.game_result == spec_evaluated(
                o.word@,
                o.guessed@,
                o.guesses_left,
                None::<GameResult>,
            )
        } else {
            &&& n.error_message@.len() == 0
            &&& n.guessed@ == o.guessed@.push(c)
            &&& n.guesses_left == o.guesses_left - 1
            &&& n.game_result == spec_evaluated(
                o.word@,
                o.guessed@.push(c),
                (o.guesses_left - 1) as u32,
                None::<GameResult>,
            )
        }
    }
}

/// On a fresh game — nothing guessed yet — the masked word has exactly the
/// secret's length and shows nothing but the placeholder.
pub proof fn lemma_fresh_mask(word: Seq<char>, guessed: Seq<char>)
    requires
        guessed.len() == 0,
    ensures
        spec_masked(word, guessed).len() == word.len(),
        forall|i: int| 0 <= i < word.len() ==> spec_masked(word, guessed)[i] == '_',
{
}

/// Once the outcome is terminal, a commit never rolls it back and leaves the
/// guesses, the budget and the message exactly as they were: the only thing
/// it may do is drop the staged guess.
pub proof fn lemma_terminal_commit_unchanged(o: Game, n: Game)
    requires
        o.game_result is Some,
        commit_rel(o, n),
    ensures
        n.game_result == o.game_result,
        n.guessed@ == o.guessed@,
        n.guesses_left == o.guesses_left,
        n.error_message@ == o.error_message@,
        n.word@ == o.word@,
        n.guess_value is None,
{
}

/// A hit is free: committing a staged letter that occurs in the secret — up
/// to case — records it in the guesses and costs no attempt, and clears the
/// stage and the advisory message.
pub proof fn lemma_hit_guess_is_free(o: Game, n: Game)
    requires
        o.game_result is None,
        o.guess_value is Some,
        !o.guessed@.contains(o.guess_value->0),
        contains_folded(o.word@, o.guess_value->0),
        commit_rel(o, n),
    ensures
        n.guessed@ == o.guessed@.push(o.guess_value->0),
        n.guesses_left == o.guesses_left,
        n.guess_value is None,
        n.error_message@.len() == 0,
        n.word@ == o.word@,
{
}

/// A miss costs exactly one attempt: the letter is still recorded, and the
/// game is lost exactly when that attempt was the last one. Stated for games
/// whose mask is not already a full reveal — every game reachable through
/// the commands is such, since a full reveal is declared Won at once.
pub proof fn lemma_missed_guess_costs_one(o: Game, n: Game)
    requires
        o.wf(),
        o.game_result is None,
        o.guess_value is Some,
        !o.guessed@.contains(o.guess_value->0),
        !contains_folded(o.word@, o.guess_value->0),
        is_letter(o.guess_value->0),
        !spec_won(o.word@, o.guessed@),
        commit_rel(o, n),
    ensures
        n.guessed@ == o.guessed@.push(o.guess_value->0),
        n.guesses_left == o.guesses_left - 1,
        n.guess_value is None,
        (n.game_result == Some(GameResult::Lost) <==> n.guesses_left == 0),
        n.guesses_left > 0 ==> n.game_result is None,
{
    let c = o.guess_value->0;
    lemma_miss_keeps_mask(o.word@, o.guessed@, c);
}

/// Re-submitting an already recorded letter — right or wrong — changes
/// nothing but the advisory message, which names the duplicate. Stated for
/// games whose mask is not already a full reveal, as every reachable
/// in-progress game is.
pub proof fn lemma_duplicate_guess_changes_nothing(o: Game, n: Game)
    requires
        o.wf(),
        o.game_result is None,
        o.guess_value is Some,
        o.guessed@.contains(o.guess_value->0),
        !spec_won(o.word@, o.guessed@),
        commit_rel(o, n),
    ensures
        n.guessed@ == o.guessed@,
        n.guesses_left == o.guesses_left,
        n.game_result == o.game_result,
        n.error_message@ == dup_guess_msg(),
        n.guess_value is None,
        n.word@ == o.word@,
{
}

/// A non-letter is rejected with the advisory message: it is not recorded
/// and costs nothing. Stated for games whose mask is not already a full
/// reveal, as every reachable in-progress game is.
pub proof fn lemma_non_letter_changes_nothing(o: Game, n: Game)
    requires
        o.wf(),
        o.game_result is None,
        o.guess_value is Some,
        !o.guessed@.contains(o.guess_value->0),
        !contains_folded(o.word@, o.guess_value->0),
        !is_letter(o.guess_value->0),
        !spec_won(o.word@, o.guessed@),
        commit_rel(o, n),
    ensures
        n.guessed@ == o.guessed@,
        n.guesses_left == o.guesses_left,
        n.game_result == o.game_result,
        n.error_message@ == not_letter_msg(),
        n.guess_value is None,
        n.word@ == o.word@,
{
}

/// Recording a letter that occurs nowhere in the secret — up to case —
/// changes the masked word not at all.
pub proof fn lemma_miss_keeps_mask(word: Seq<char>, guessed: Seq<char>, c: char)
    requires
        !contains_folded(word, c),
    ensures
        spec_masked(word, guessed.push(c)) == spec_masked(word, guessed),
{
    assert forall|i: int| 0 <= i < word.len() implies contains_folded(guessed.push(c), word[i])
        == contains_folded(guessed, word[i]) by {
        if contains_folded(guessed.push(c), word[i]) {
            let j = choose|j: int| 0 <= j < guessed.push(c).len() && folded_eq(
                guessed.push(c)[j],
                word[i],
            );
            if j < guessed.len() {
                assert(folded_eq(guessed[j], word[i]));
            } else {
                assert(folded_eq(word[i], c));
                assert(false);
            }
        }
        if contains_folded(guessed, word[i]) {
            let j = choose|j: int| 0 <= j < guessed.len() && folded_eq(guessed[j], word[i]);
            assert(folded_eq(guessed.push(c)[j], word[i]));
        }
    }
    assert(spec_masked(word, guessed.push(c)) =~= spec_masked(word, guessed));
}

/// Whether the vector holds the character; a verified linear scan.
fn contains_char(v: &Vec<char>, c: char) -> (r: bool)
    ensures
        r == v@.contains(c),
{
    let mut i: usize = 0;
    while i < v.len()
        invariant
            i <= v@.len(),
            forall|j: int| 0 <= j < i ==> v@[j] != c,
        decreases v@.len() - i,
    {
        if v[i] == c {
            proof {
                assert(v@[i as int] == c);
            }
            return true;
        }
        i = i + 1;
    }
    false
}

/// Whether the vector holds the character up to case; a verified linear
/// scan over the fold.
fn contains_char_folded(v: &Vec<char>, c: char) -> (r: bool)
    ensures
        r == contains_folded(v@, c),
{
    let fc = to_lower_char(c);
    let mut i: usize = 0;
    while i < v.len()
        invariant
            i <= v@.len(),
            fc == lower_char(c),
            forall|j: int| 0 <= j < i ==> !folded_eq(v@[j], c),
        decreases v@.len() - i,
    {
        if to_lower_char(v[i]) == fc {
            proof {
                assert(folded_eq(v@[i as int], c));
            }
            return true;
        }
        i = i + 1;
    }
    false
}

/// Strictly ascending by code point.
pub open spec fn sorted_chars(s: Seq<char>) -> bool {
    forall|i: int, j: int| 0 <= i < j < s.len() ==> s[i] < s[j]
}

/// Where a new character belongs in a sorted vector: the index of the first
/// entry at or above it.
fn insert_pos(v: &Vec<char>, c: char) -> (k: usize)
    ensures
        k <= v@.len(),
        forall|j: int| 0 <= j < k ==> v@[j] < c,
        k < v@.len() ==> c <= v@[k as int],
{
    let mut k: usize = 0;
    while k < v.len()
        invariant
            k <= v@.len(),
            forall|j: int| 0 <= j < k ==> v@[j] < c,
        decreases v@.len() - k,
    {
        if v[k] >= c {
            return k;
        }
        k = k + 1;
    }
    k
}

/// Puts one new character into its place in a strictly sorted vector.
fn sorted_insert(v: &mut Vec<char>, c: char)
    requires
        sorted_chars(old(v)@),
        !old(v)@.contains(c),
    ensures
        sorted_chars(final(v)@),
        final(v)@.len() == old(v)@.len() + 1,
        forall|x: char| final(v)@.contains(x) <==> (old(v)@.contains(x) || x == c),
{
    let ghost orig = v@;
    let k = insert_pos(v, c);
    proof {
        assert forall|j: int| k <= j < orig.len() implies c < orig[j] by {
            assert(orig[j] != c);
            if j > k {
                assert(orig[k as int] < orig[j]);
            }
        }
    }
    v.insert(k, c);
    proof {
        assert forall|x: char| v@.contains(x) implies (orig.contains(x) || x == c) by {
            let i = choose|i: int| 0 <= i < v@.len() && v@[i] == x;
            if i < k {
                assert(orig[i] == x);
            } else if i > k {
                assert(orig[i - 1] == x);
            }
        }
        assert forall|x: char| (orig.contains(x) || x == c) implies v@.contains(x) by {
            if x == c {
                assert(v@[k as int] == x);
            } else {
                let i = choose|i: int| 0 <= i < orig.len() && orig[i] == x;
                if i < k {
                    assert(v@[i] == x);
                } else {
                    assert(v@[i + 1] == x);
                }
            }
        }
    }
}

impl Game {
    /// The state every command keeps: a non-empty secret, no duplicate
    /// guesses, and attempts left whenever the game is still on.
    pub open spec fn wf(self) -> bool {
        &&& self.word@.len() > 0
        &&& no_dups(self.guessed@)
        &&& (self.game_result is None ==> self.guesses_left > 0)
    }

    /// Starts a play-through: a freshly drawn secret, a clean slate, and the
    /// full budget of attempts.
    pub fn new() -> (g: Game)
        ensures
            g.wf(),
            g.error_message@ == Seq::<char>::empty(),
            g.game_result is None,
            g.guess_value is None,
            g.guessed@ == Seq::<char>::empty(),
            g.guesses_left == NUM_GUESSES,
            g.word@.len() > 0,
            g.word@.len() == crate::dictionary::WORD_LEN,
            forall|i: int| 0 <= i < g.word@.len() ==> 'a' <= #[trigger] g.word@[i] <= 'z',
    {
        let word = crate::dictionary::get_random_word();

        Game {
            error_message: String::new(),
            game_result: None,
            guess_value: None,
            guessed: Vec::new(),
            guesses_left: NUM_GUESSES,
            word,
        }
    }

    /// Replaces the secret. Allowed only before any guess has been made:
    /// changing the word mid-game is a caller bug, ruled out by contract.
    pub fn set_word<'a>(&mut self, word: &'a str) -> (r: &'a str)
        requires
            old(self).guessed@.len() == 0,
            word@.len() > 0,
        ensures
            final(self).word@ == word@,
            final(self).error_message@ == old(self).error_message@,
            final(self).game_result == old(self).game_result,
            final(self).guess_value == old(self).guess_value,
            final(self).guessed@ == old(self).guessed@,
            final(self).guesses_left == old(self).guesses_left,
            r@ == word@,
            old(self).wf() ==> final(self).wf(),
    {
        self.word = word.to_owned();
        word
    }

    /// Whether the guessed character occurs in the secret, up to case.
    fn word_contains(&self, c: char) -> (r: bool)
        ensures
            r == contains_folded(self.word@, c),
    {
        let fc = to_lower_char(c);
        let s = self.word.as_str();
        let n = s.unicode_len();
        let mut i: usize = 0;
        while i < n
            invariant
                i <= n,
                n == s@.len(),
                s@ == self.word@,
                fc == lower_char(c),
                forall|j: int| 0 <= j < i ==> !folded_eq(s@[j], c),
            decreases n - i,
        {
            if to_lower_char(s.get_char(i)) == fc {
                proof {
                    assert(folded_eq(s@[i as int], c));
                }
                return true;
            }
            i = i + 1;
        }
        false
    }

    /// The masked word: the secret character by character, with every
    /// character the player has not guessed replaced by an underscore.
    pub fn word_with_guesses(&self) -> (r: String)
        ensures
            r@ == spec_masked(self.word@, self.guessed@),
    {
        let mut result = String::new();
        let s = self.word.as_str();
        let n = s.unicode_len();
        let mut i: usize = 0;
        while i < n
            invariant
                i <= n,
                n == s@.len(),
                s@ == self.word@,
                result@.len() == i,
                forall|j: int|
                    0 <= j < i ==> result@[j] == spec_masked(self.word@, self.guessed@)[j],
            decreases n - i,
        {
            let c = s.get_char(i);
            if contains_char_folded(&self.guessed, c) {
                push_char(&mut result, c);
            } else {
                push_char(&mut result, '_');
            }
            i = i + 1;
        }
        proof {
            assert(result@ =~= spec_masked(self.word@, self.guessed@));
        }
        result
    }

    /// Re-evaluates the outcome in place. A terminal outcome stays: Won and
    /// Lost never revert. Otherwise a fully revealed word wins, an exhausted
    /// budget loses, and anything else leaves the outcome open.
    fn is_game_over_yet(&mut self)
        ensures
            final(self).game_result == spec_evaluated(
                old(self).word@,
                old(self).guessed@,
                old(self).guesses_left,
                old(self).game_result,
            ),
            final(self).error_message@ == old(self).error_message@,
            final(self).guess_value == old(self).guess_value,
            final(self).guessed@ == old(self).guessed@,
            final(self).guesses_left == old(self).guesses_left,
            final(self).word@ == old(self).word@,
    {
        if self.game_result.is_some() {
            return;
        }
        if self.word_with_guesses() == self.word {
            self.game_result = Some(GameResult::Won);
        } else if self.guesses_left == 0 {
            self.game_result = Some(GameResult::Lost);
        }
    }

    /// Stages raw input as the pending guess: the first character of the
    /// lowercased text, or nothing when the input is empty. Validation waits
    /// until the guess is committed.
    pub fn set_guess(&mut self, input: String)
        ensures
            input@.len() == 0 ==> final(self).guess_value is None,
            input@.len() > 0 ==> final(self).guess_value == Some(lower_of(input@)[0]),
            final(self).error_message@ == old(self).error_message@,
            final(self).game_result == old(self).game_result,
            final(self).guessed@ == old(self).guessed@,
            final(self).guesses_left == old(self).guesses_left,
            final(self).word@ == old(self).word@,
    {
        let lowercased = lowercase(input.as_str());
        let letter = if lowercased.as_str().unicode_len() == 0 {
            None
        } else {
            Some(lowercased.as_str().get_char(0))
        };
        self.guess_value = letter;
    }

    /// Commits the staged guess, in strict order: nothing happens on an ended
    /// game or an empty stage; a duplicate or a non-letter only sets the
    /// advisory message; a hit is recorded free of charge; a miss is recorded
    /// and costs one attempt. The outcome is then re-evaluated.
    pub fn guess(&mut self)
        requires
            old(self).wf(),
        ensures
            final(self).wf(),
            commit_rel(*old(self), *final(self)),
    {
        if self.game_result.is_some() {
            self.guess_value = None;
            return;
        }
        let c = match self.guess_value {
            None => {
                return;
            },
            Some(c) => c,
        };
        self.error_message = String::new();
        if contains_char(&self.guessed, c) {
            self.error_message = String::from_str("You can't guess the same letter twice.");
        } else if self.word_contains(c) {
            self.guessed.push(c);
        } else if !alphabetic(c) {
            self.error_message = String::from_str("Your guess has to be a letter.");
        } else {
            self.guessed.push(c);
            self.guesses_left = self.guesses_left - 1;
        }
        self.guess_value = None;
        self.is_game_over_yet();
    }

    /// The end-of-game banner: empty while play goes on, a fixed message on a
    /// win, and a message naming the secret on a loss.
    pub open spec fn spec_game_over_message(self) -> Seq<char> {
        match self.game_result {
            Some(GameResult::Won) => won_msg(),
            Some(GameResult::Lost) => lost_msg_prefix() + self.word@,
            None => Seq::<char>::empty(),
        }
    }

    pub fn game_over_message(&self) -> (r: String)
        ensures
            r@ == self.spec_game_over_message(),
    {
        match self.game_result {
            Some(GameResult::Won) => String::from_str("You won!"),
            Some(GameResult::Lost) => {
                let mut m = String::from_str("You lost. The word was: ");
                m.append(self.word.as_str());
                m
            },
            None => String::new(),
        }
    }

    /// Every guessed character, each exactly once, in ascending order — the
    /// display order, not the order they were tried in.
    pub fn already_guessed(&self) -> (r: String)
        requires
            self.wf(),
        ensures
            sorted_chars(r@),
            r@.len() == self.guessed@.len(),
            forall|x: char| r@.contains(x) <==> self.guessed@.contains(x),
    {
        let mut sorted: Vec<char> = Vec::new();
        let mut i: usize = 0;
        while i < self.guessed.len()
            invariant
                i <= self.guessed@.len(),
                no_dups(self.guessed@),
                sorted_chars(sorted@),
                sorted@.len() == i,
                forall|x: char|
                    sorted@.contains(x) <==> self.guessed@.subrange(0, i as int).contains(x),
            decreases self.guessed@.len() - i,
        {
            let c = self.guessed[i];
            proof {
                if sorted@.contains(c) {
                    let j = choose|j: int|
                        0 <= j < i && self.guessed@.subrange(0, i as int)[j] == c;
                    assert(self.guessed@[j] == c);
                    assert(false);
                }
            }
            sorted_insert(&mut sorted, c);
            proof {
                assert forall|x: char|
                    sorted@.contains(x) <==> self.guessed@.subrange(0, i + 1 as int).contains(
                        x,
                    ) by {
                    let pre = self.guessed@.subrange(0, i as int);
                    let post = self.guessed@.subrange(0, i + 1 as int);
                    assert(post.drop_last() =~= pre);
                    assert(post.last() == c);
                    if sorted@.contains(x) {
                        if x == c {
                            assert(post[i as int] == x);
                        } else {
                            let j = choose|j: int| 0 <= j < pre.len() && pre[j] == x;
                            assert(post[j] == x);
                        }
                    }
                    if post.contains(x) {
                        let j = choose|j: int| 0 <= j < post.len() && post[j] == x;
                        if j < i {
                            assert(pre[j] == x);
                        }
                    }
                }
            }
            i = i + 1;
        }
        proof {
            assert(self.guessed@.subrange(0, self.guessed@.len() as int) =~= self.guessed@);
        }
        let mut r = String::new();
        let mut j: usize = 0;
        while j < sorted.len()
            invariant
                j <= sorted@.len(),
                r@ =~= sorted@.subrange(0, j as int),
            decreases sorted@.len() - j,
        {
            push_char(&mut r, sorted[j]);
            j = j + 1;
        }
        proof {
            assert(r@ =~= sorted@);
        }
        r
    }
}

} // verus!
