use vstd::prelude::*;

verus! {

/// Letters in a word, and cells in a row of the grid.
pub const WORD_LEN: usize = 5;

/// Guesses a game allows, and rows in the grid.
pub const MAX_ROWS: usize = 5;

/// Cells in the grid.
pub const GRID_CELLS: usize = 25;

/// Letters on the keyboard.
pub const ALPHABET_LEN: usize = 26;

/// What an empty cell holds.
pub const BLANK: char = ' ';

/// The tag a key of the keyboard carries, set by the last guess that used it.
#[derive(Clone, Copy, Debug, PartialEq, Eq, Structural)]
pub enum KeyState {
    Green,
    Yellow,
    Used,
    Unused,
}

/// The verdict on one cell of the grid.
#[derive(Clone, Copy, Debug, PartialEq, Eq, Structural)]
pub enum Feedback {
    Unevaluated,
    ExactMatch,
    PresentElsewhere,
    Absent,
}

/// Where a game stands: still guessing, or over.
#[derive(Clone, Copy, Debug, PartialEq, Eq, Structural)]
pub enum Phase {
    Guessing,
    Won,
    Lost,
}

/// The active cell: the row of the current guess and the column typed next.
#[derive(Clone, Copy, Debug, PartialEq, Eq, Structural)]
pub struct Cursor {
    pub row: usize,
    pub col: usize,
}

/// One game: the secret word, the grid of guesses with its verdicts, the
/// keyboard's tags, the cursor and the phase.
pub struct GameData {
    secret_word: Vec<char>,
    entered_letters: Vec<char>,
    feedback: Vec<Feedback>,
    keyboard_state: Vec<KeyState>,
    cursor: Cursor,
    phase: Phase,
}

/// A letter of the alphabet written in upper case.
pub open spec fn is_upper_letter(c: char) -> bool {
    'A' <= c <= 'Z'
}

/// The keyboard slot of an upper-case letter.
pub open spec fn letter_index(c: char) -> int {
    (c as u32) - ('A' as u32)
}

/// A possible secret word: five upper-case letters.
pub open spec fn is_word(w: Seq<char>) -> bool {
    &&& w.len() == WORD_LEN
    &&& forall|i: int| 0 <= i < w.len() ==> is_upper_letter(#[trigger] w[i])
}

/// The verdict on the guess's letter at `i`.
pub open spec fn tag_at(guess: Seq<char>, secret: Seq<char>, i: int) -> Feedback {
    if guess[i] == secret[i] {
        Feedback::ExactMatch
    } else if secret.contains(guess[i]) {
        Feedback::PresentElsewhere
    } else {
        Feedback::Absent
    }
}

/// The verdicts on a whole guess, position by position.
pub open spec fn score(guess: Seq<char>, secret: Seq<char>) -> Seq<Feedback> {
    Seq::new(guess.len(), |i: int| tag_at(guess, secret, i))
}

/// The key tag that a verdict gives its letter.
pub open spec fn key_for(f: Feedback) -> KeyState {
    match f {
        Feedback::ExactMatch => KeyState::Green,
        Feedback::PresentElsewhere => KeyState::Yellow,
        _ => KeyState::Used,
    }
}

/// How many verdicts are exact matches.
pub open spec fn exact_count(tags: Seq<Feedback>) -> nat
    decreases tags.len(),
{
    if tags.len() == 0 {
        0
    } else {
        exact_count(tags.drop_last()) + if tags.last() == Feedback::ExactMatch {
            1nat
        } else {
            0nat
        }
    }
}

/// How many positions hold the same letter in both words.
pub open spec fn matching_positions(guess: Seq<char>, secret: Seq<char>) -> nat
    decreases guess.len(),
{
    if guess.len() == 0 {
        0
    } else {
        matching_positions(guess.drop_last(), secret) + if guess.last() == secret[guess.len()
            - 1] {
            1nat
        } else {
            0nat
        }
    }
}

/// The keyboard after the first `n` letters of a guess recorded their
/// verdicts, left to right, each overwriting the letter's earlier tag.
pub open spec fn record_row(
    kb: Seq<KeyState>,
    guess: Seq<char>,
    tags: Seq<Feedback>,
    n: nat,
) -> Seq<KeyState>
    decreases n,
{
    if n == 0 {
        kb
    } else {
        record_row(kb, guess, tags, (n - 1) as nat).update(
            letter_index(guess[n - 1]),
            key_for(tags[n - 1]),
        )
    }
}

/// The phase after the guess in `row` got `exact` exact matches.
pub open spec fn next_phase(row: int, exact: nat) -> Phase {
    if exact == WORD_LEN {
        Phase::Won
    } else if row == MAX_ROWS - 1 {
        Phase::Lost
    } else {
        Phase::Guessing
    }
}

/// The grid position of a cell.
pub open spec fn cell_index(row: int, col: int) -> int {
    row * 5 + col
}

impl GameData {
    /// The secret word.
    pub closed spec fn secret(&self) -> Seq<char> {
        self.secret_word@
    }

    /// The letter in a cell, or `BLANK`.
    pub closed spec fn cell(&self, row: int, col: int) -> char {
        self.entered_letters@[cell_index(row, col)]
    }

    /// The verdict on a cell.
    pub closed spec fn verdict(&self, row: int, col: int) -> Feedback {
        self.feedback@[cell_index(row, col)]
    }

    /// The letters of one row of the grid.
    pub open spec fn row_letters(&self, row: int) -> Seq<char> {
        Seq::new(WORD_LEN as nat, |c: int| self.cell(row, c))
    }

    /// The verdicts of one row of the grid.
    pub open spec fn row_verdicts(&self, row: int) -> Seq<Feedback> {
        Seq::new(WORD_LEN as nat, |c: int| self.verdict(row, c))
    }

    /// The grid and its verdicts hold one entry per cell.
    pub closed spec fn sized(&self) -> bool {
        &&& self.entered_letters@.len() == GRID_CELLS
        &&& self.feedback@.len() == GRID_CELLS
    }

    /// The keyboard's tags, indexed by `letter_index`.
    pub closed spec fn keys(&self) -> Seq<KeyState> {
        self.keyboard_state@
    }

    /// The active cell.
    pub closed spec fn cur(&self) -> Cursor {
        self.cursor
    }

    /// Where the game stands.
    pub closed spec fn stage(&self) -> Phase {
        self.phase
    }

    /// Rows above the cursor hold letters and carry their verdicts.
    pub open spec fn rows_done(&self) -> bool {
        let row = self.cur().row as int;
        &&& forall|r: int, c: int|
            0 <= r < row && 0 <= c < WORD_LEN ==> is_upper_letter(#[trigger] self.cell(r, c))
        &&& forall|r: int|
            0 <= r < row ==> #[trigger] self.row_verdicts(r) == score(
                self.row_letters(r),
                self.secret(),
            )
    }

    /// Rows below the cursor are blank and unevaluated.
    pub open spec fn rows_blank(&self) -> bool {
        let row = self.cur().row as int;
        forall|r: int, c: int|
            row < r < MAX_ROWS && 0 <= c < WORD_LEN ==> #[trigger] self.cell(r, c) == BLANK
                && self.verdict(r, c) == Feedback::Unevaluated
    }

    /// The cursor's row is filled left to right up to the cursor, which
    /// stays blank unless it stands on the last column.
    pub open spec fn active_row(&self) -> bool {
        let row = self.cur().row as int;
        let col = self.cur().col as int;
        &&& forall|c: int| 0 <= c < col ==> is_upper_letter(#[trigger] self.cell(row, c))
        &&& forall|c: int| col < c < WORD_LEN ==> #[trigger] self.cell(row, c) == BLANK
        &&& self.cell(row, col) == BLANK || is_upper_letter(self.cell(row, col))
        &&& col < WORD_LEN - 1 ==> self.cell(row, col) == BLANK
    }

    /// While guessing, the cursor's row has no verdicts; once the game is
    /// over, its full last guess is scored and decided the outcome.
    pub open spec fn phase_ok(&self) -> bool {
        let row = self.cur().row as int;
        let col = self.cur().col as int;
        &&& self.stage() == Phase::Guessing ==> forall|c: int|
            0 <= c < WORD_LEN ==> #[trigger] self.verdict(row, c) == Feedback::Unevaluated
        &&& self.stage() != Phase::Guessing ==> {
            &&& col == WORD_LEN - 1
            &&& is_upper_letter(self.cell(row, col))
            &&& self.row_verdicts(row) == score(self.row_letters(row), self.secret())
            &&& self.stage() == next_phase(row, exact_count(self.row_verdicts(row)))
        }
    }

    /// A game before its first letter: well formed, still guessing, the
    /// cursor on the first cell, the grid blank and unevaluated, every key
    /// unused.
    pub open spec fn is_fresh(&self) -> bool {
        &&& self.wf()
        &&& self.cur() == (Cursor { row: 0, col: 0 })
        &&& self.stage() == Phase::Guessing
        &&& forall|r: int, c: int|
            0 <= r < MAX_ROWS && 0 <= c < WORD_LEN ==> #[trigger] self.cell(r, c) == BLANK
                && self.verdict(r, c) == Feedback::Unevaluated
        &&& forall|i: int| 0 <= i < ALPHABET_LEN ==> #[trigger] self.keys()[i] == KeyState::Unused
    }

    /// `next` is this game with `c` written into the active cell and the
    /// cursor one column further right, unless on the last column.
    pub open spec fn typed(self, next: GameData, c: char) -> bool {
        &&& next.secret() == self.secret()
        &&& next.keys() == self.keys()
        &&& next.stage() == self.stage()
        &&& next.cur().row == self.cur().row
        &&& next.cur().col == if self.cur().col < WORD_LEN - 1 {
            self.cur().col + 1
        } else {
            self.cur().col as int
        }
        &&& next.cell(self.cur().row as int, self.cur().col as int) == c
        &&& forall|r: int, k: int|
            0 <= r < MAX_ROWS && 0 <= k < WORD_LEN && (r, k) != (
                self.cur().row as int,
                self.cur().col as int,
            ) ==> #[trigger] next.cell(r, k) == self.cell(r, k)
        &&& forall|r: int, k: int|
            0 <= r < MAX_ROWS && 0 <= k < WORD_LEN ==> #[trigger] next.verdict(r, k)
                == self.verdict(r, k)
    }

    /// `next` is this game with the active cell and the one to its left
    /// cleared, and the cursor moved back onto the latter.
    pub open spec fn erased(self, next: GameData) -> bool {
        &&& next.secret() == self.secret()
        &&& next.keys() == self.keys()
        &&& next.stage() == self.stage()
        &&& next.cur() == (Cursor { row: self.cur().row, col: (self.cur().col - 1) as usize })
        &&& next.cell(self.cur().row as int, self.cur().col as int) == BLANK
        &&& next.cell(self.cur().row as int, self.cur().col - 1) == BLANK
        &&& forall|r: int, k: int|
            0 <= r < MAX_ROWS && 0 <= k < WORD_LEN && (r, k) != (
                self.cur().row as int,
                self.cur().col as int,
            ) && (r, k) != (self.cur().row as int, self.cur().col - 1)
                ==> #[trigger] next.cell(r, k) == self.cell(r, k)
        &&& forall|r: int, k: int|
            0 <= r < MAX_ROWS && 0 <= k < WORD_LEN ==> #[trigger] next.verdict(r, k)
                == self.verdict(r, k)
    }

    /// `next` is this game with the guess in the cursor's row scored: its
    /// verdicts filled in, the keys tagged left to right, and the phase `p`
    /// that its exact matches and its row decide; the cursor goes to the
    /// next row while guessing goes on.
    pub open spec fn scored(self, next: GameData, p: Phase) -> bool {
        let row = self.cur().row as int;
        let tags = score(self.row_letters(row), self.secret());
        &&& next.secret() == self.secret()
        &&& forall|r: int, k: int| #[trigger] next.cell(r, k) == self.cell(r, k)
        &&& next.row_verdicts(row) == tags
        &&& forall|r: int, k: int|
            0 <= r < MAX_ROWS && r != row && 0 <= k < WORD_LEN ==> #[trigger] next.verdict(r, k)
                == self.verdict(r, k)
        &&& next.keys() == record_row(self.keys(), self.row_letters(row), tags, WORD_LEN as nat)
        &&& p == next_phase(row, exact_count(tags))
        &&& next.stage() == p
        &&& p == Phase::Guessing ==> next.cur() == (Cursor { row: (row + 1) as usize, col: 0 })
        &&& p != Phase::Guessing ==> next.cur() == self.cur()
    }

    /// The guess in the cursor's row has fewer exact matches than letters.
    pub open spec fn misses(&self) -> bool {
        let row = self.cur().row as int;
        exact_count(score(self.row_letters(row), self.secret())) < WORD_LEN
    }

    /// The grid is filled row by row and left to right; rows above the
    /// cursor carry their verdicts, rows below are blank, and a game that is
    /// over has its last guess scored.
    pub open spec fn wf(&self) -> bool {
        &&& is_word(self.secret())
        &&& self.keys().len() == ALPHABET_LEN
        &&& self.cur().row < MAX_ROWS
        &&& self.cur().col < WORD_LEN
        &&& self.sized()
        &&& self.rows_done()
        &&& self.rows_blank()
        &&& self.active_row()
        &&& self.phase_ok()
    }
}

impl GameData {
    /// A fresh game on `secret`: a blank grid without verdicts, every key
    /// unused, the cursor on the first cell.
    pub fn new(secret: Vec<char>) -> (g: GameData)
        requires
            is_word(secret@),
        ensures
            g.is_fresh(),
            g.secret() == secret@,
    {
        let mut entered_letters: Vec<char> = Vec::new();
        let mut feedback: Vec<Feedback> = Vec::new();
        let mut i: usize = 0;
        while i < GRID_CELLS
            invariant
                i <= GRID_CELLS,
                entered_letters@.len() == i,
                feedback@.len() == i,
                forall|j: int| 0 <= j < i ==> #[trigger] entered_letters@[j] == BLANK,
                forall|j: int| 0 <= j < i ==> #[trigger] feedback@[j] == Feedback::Unevaluated,
            decreases GRID_CELLS - i,
        {
            entered_letters.push(BLANK);
            feedback.push(Feedback::Unevaluated);
            i = i + 1;
        }
        let mut keyboard_state: Vec<KeyState> = Vec::new();
        let mut k: usize = 0;
        while k < ALPHABET_LEN
            invariant
                k <= ALPHABET_LEN,
                keyboard_state@.len() == k,
                forall|j: int| 0 <= j < k ==> #[trigger] keyboard_state@[j] == KeyState::Unused,
            decreases ALPHABET_LEN - k,
        {
            keyboard_state.push(KeyState::Unused);
            k = k + 1;
        }
        GameData {
            secret_word: secret,
            entered_letters,
            feedback,
            keyboard_state,
            cursor: Cursor { row: 0, col: 0 },
            phase: Phase::Guessing,
        }
    }

    /// Whether the active cell is blank, so that a letter may be typed.
    pub fn can_type(&self) -> (r: bool)
        requires
            self.wf(),
        ensures
            r == (self.cell(self.cur().row as int, self.cur().col as int) == BLANK),
    {
        self.entered_letters[self.cursor.row * WORD_LEN + self.cursor.col] == BLANK
    }

    /// Writes `c` into the active cell and moves the cursor one column to the
    /// right, but never past the last column.
    pub fn type_char(&mut self, c: &char)
        requires
            old(self).wf(),
            is_upper_letter(*c),
            old(self).cell(old(self).cur().row as int, old(self).cur().col as int) == BLANK,
        ensures
            final(self).wf(),
            old(self).typed(*final(self), *c),
    {
        let row = self.cursor.row;
        let col = self.cursor.col;
        assert(col + 1 < WORD_LEN ==> old(self).cell(row as int, col + 1) == BLANK);
        self.entered_letters.set(row * WORD_LEN + col, *c);
        if col < WORD_LEN - 1 {
            self.cursor.col = col + 1;
        }
        assert(forall|r: int, k: int|
            0 <= r < MAX_ROWS && 0 <= k < WORD_LEN && (r, k) != (row as int, col as int)
                ==> #[trigger] self.cell(r, k) == old(self).cell(r, k));
        assert(forall|r: int, k: int| #[trigger] self.verdict(r, k) == old(self).verdict(r, k));
        assert(forall|r: int|
            0 <= r < row ==> #[trigger] self.row_letters(r) =~= old(self).row_letters(r));
        assert(forall|r: int|
            0 <= r < row ==> #[trigger] self.row_verdicts(r) =~= old(self).row_verdicts(r));
        assert forall|r: int, k: int|
            row < r < MAX_ROWS && 0 <= k < WORD_LEN implies #[trigger] self.cell(r, k) == BLANK
                && self.verdict(r, k) == Feedback::Unevaluated by {
            assert(old(self).cell(r, k) == BLANK);
            assert(old(self).verdict(r, k) == Feedback::Unevaluated);
            assert(self.cell(r, k) == old(self).cell(r, k));
        }
        assert(self.rows_done());
        assert(self.rows_blank());
        assert(self.active_row());
        assert(self.phase_ok());
    }

    /// Clears the active cell and the one to its left, and moves the cursor
    /// back onto the latter.
    pub fn remove_char(&mut self)
        requires
            old(self).wf(),
            old(self).stage() == Phase::Guessing,
            old(self).cur().col > 0,
        ensures
            final(self).wf(),
            old(self).erased(*final(self)),
    {
        let row = self.cursor.row;
        let col = self.cursor.col;
        self.entered_letters.set(row * WORD_LEN + col, BLANK);
        self.cursor.col = col - 1;
        self.entered_letters.set(row * WORD_LEN + col - 1, BLANK);
        assert(forall|r: int, k: int|
            0 <= r < MAX_ROWS && 0 <= k < WORD_LEN && (r, k) != (row as int, col as int) && (r, k)
                != (row as int, col - 1) ==> #[trigger] self.cell(r, k) == old(self).cell(r, k));
        assert(forall|k: int|
            0 <= k < self.cursor.col ==> is_upper_letter(#[trigger] self.cell(row as int, k)));
        assert(forall|k: int|
            self.cursor.col < k < WORD_LEN ==> #[trigger] self.cell(row as int, k) == BLANK);
        assert(forall|r: int, k: int| #[trigger] self.verdict(r, k) == old(self).verdict(r, k));
        assert(forall|r: int|
            0 <= r < row ==> #[trigger] self.row_letters(r) =~= old(self).row_letters(r));
        assert(forall|r: int|
            0 <= r < row ==> #[trigger] self.row_verdicts(r) =~= old(self).row_verdicts(r));
    }
}


/// Whether `c` occurs in `s`.
fn contains_char(s: &Vec<char>, c: char) -> (r: bool)
    ensures
        r == s@.contains(c),
{
    let mut i: usize = 0;
    while i < s.len()
        invariant
            i <= s@.len(),
            forall|j: int| 0 <= j < i ==> s@[j] != c,
        decreases s@.len() - i,
    {
        if s[i] == c {
            return true;
        }
        i = i + 1;
    }
    false
}

/// The verdicts on `guess` against `secret`, position by position: an exact
/// match where the letters agree, present elsewhere where the secret holds
/// the letter at another place, absent otherwise.
pub fn score_guess(guess: &Vec<char>, secret: &Vec<char>) -> (tags: Vec<Feedback>)
    requires
        guess@.len() == secret@.len(),
    ensures
        tags@ == score(guess@, secret@),
{
    let mut tags: Vec<Feedback> = Vec::new();
    let mut n: usize = 0;
    while n < guess.len()
        invariant
            guess@.len() == secret@.len(),
            n <= guess@.len(),
            tags@ == score(guess@, secret@).subrange(0, n as int),
        decreases guess@.len() - n,
    {
        let tag = if guess[n] == secret[n] {
            Feedback::ExactMatch
        } else if contains_char(secret, guess[n]) {
            Feedback::PresentElsewhere
        } else {
            Feedback::Absent
        };
        tags.push(tag);
        n = n + 1;
        assert(tags@ =~= score(guess@, secret@).subrange(0, n as int));
    }
    assert(tags@ =~= score(guess@, secret@));
    tags
}

/// The key tag that a verdict gives its letter.
pub fn key_state_for(f: Feedback) -> (k: KeyState)
    ensures
        k == key_for(f),
{
    match f {
        Feedback::ExactMatch => KeyState::Green,
        Feedback::PresentElsewhere => KeyState::Yellow,
        _ => KeyState::Used,
    }
}

fn letter_slot(c: char) -> (r: usize)
    requires
        is_upper_letter(c),
    ensures
        r == letter_index(c),
        r < ALPHABET_LEN,
{
    (c as u32 - 'A' as u32) as usize
}

impl GameData {
    /// The tag of a key: what the last guess that used the letter found, or
    /// unused for a letter no guess has used and for anything not a letter.
    pub fn tag_of(&self, c: char) -> (k: KeyState)
        requires
            self.wf(),
        ensures
            k == if is_upper_letter(c) {
                self.keys()[letter_index(c)]
            } else {
                KeyState::Unused
            },
    {
        if 'A' <= c && c <= 'Z' {
            self.keyboard_state[letter_slot(c)]
        } else {
            KeyState::Unused
        }
    }

    /// Stores `tag` for the letter `c`, overwriting its earlier tag.
    pub fn record_feedback(&mut self, c: char, tag: KeyState)
        requires
            old(self).wf(),
            is_upper_letter(c),
        ensures
            final(self).wf(),
            final(self).keys() == old(self).keys().update(letter_index(c), tag),
            final(self).secret() == old(self).secret(),
            final(self).cur() == old(self).cur(),
            final(self).stage() == old(self).stage(),
            forall|r: int, k: int| #[trigger] final(self).cell(r, k) == old(self).cell(r, k),
            forall|r: int, k: int| #[trigger] final(self).verdict(r, k) == old(self).verdict(r, k),
    {
        let slot = letter_slot(c);
        self.keyboard_state.set(slot, tag);
        assert(forall|r: int, k: int| #[trigger] self.cell(r, k) == old(self).cell(r, k));
        assert(forall|r: int, k: int| #[trigger] self.verdict(r, k) == old(self).verdict(r, k));
        assert(forall|r: int| #[trigger] self.row_letters(r) =~= old(self).row_letters(r));
        assert(forall|r: int| #[trigger] self.row_verdicts(r) =~= old(self).row_verdicts(r));
        assert(self.rows_done());
        assert(self.rows_blank());
        assert(self.active_row());
        assert(self.phase_ok());
    }

    /// Scores the full guess in the cursor's row: each cell gets its verdict,
    /// each letter's key the matching tag, left to right; five exact matches
    /// win, a miss on the last row loses, any other miss moves the cursor to
    /// the start of the next row.
    pub fn verify(&mut self) -> (p: Phase)
        requires
            old(self).wf(),
            old(self).stage() == Phase::Guessing,
            old(self).cur().col == WORD_LEN - 1,
            old(self).cell(old(self).cur().row as int, WORD_LEN - 1) != BLANK,
        ensures
            final(self).wf(),
            old(self).scored(*final(self), p),
    {
        let row = self.cursor.row;
        let ghost guess_s = old(self).row_letters(row as int);
        let ghost tags_s = score(guess_s, self.secret_word@);
        let mut guess: Vec<char> = Vec::new();
        let mut k: usize = 0;
        while k < WORD_LEN
            invariant
                *self == *old(self),
                row == self.cursor.row,
                self.wf(),
                guess_s == self.row_letters(row as int),
                k <= WORD_LEN,
                guess@ == guess_s.subrange(0, k as int),
            decreases WORD_LEN - k,
        {
            guess.push(self.entered_letters[row * WORD_LEN + k]);
            k = k + 1;
            assert(guess@ =~= guess_s.subrange(0, k as int));
        }
        assert(guess@ =~= guess_s);
        assert(forall|c: int| 0 <= c < WORD_LEN ==> is_upper_letter(#[trigger] guess_s[c]));
        let tags = score_guess(&guess, &self.secret_word);
        let mut num_correct: usize = 0;
        let mut n: usize = 0;
        while n < WORD_LEN
            invariant
                row == self.cursor.row,
                row == old(self).cur().row,
                row < MAX_ROWS,
                self.cursor == old(self).cursor,
                self.phase == old(self).phase,
                self.secret_word@ == old(self).secret(),
                self.entered_letters@ == old(self).entered_letters@,
                self.sized(),
                self.keys().len() == ALPHABET_LEN,
                guess@ == guess_s,
                guess_s.len() == WORD_LEN,
                tags@ == tags_s,
                tags_s.len() == WORD_LEN,
                forall|c: int| 0 <= c < WORD_LEN ==> is_upper_letter(#[trigger] guess_s[c]),
                n <= WORD_LEN,
                num_correct == exact_count(tags_s.subrange(0, n as int)),
                self.keys() == record_row(old(self).keys(), guess_s, tags_s, n as nat),
                num_correct <= n,
                forall|i: int|
                    0 <= i < GRID_CELLS ==> #[trigger] self.feedback@[i] == if cell_index(
                        row as int,
                        0,
                    ) <= i < cell_index(row as int, n as int) {
                        tags_s[i - cell_index(row as int, 0)]
                    } else {
                        old(self).feedback@[i]
                    },
            decreases WORD_LEN - n,
        {
            let tag = tags[n];
            self.feedback.set(row * WORD_LEN + n, tag);
            let slot = letter_slot(guess[n]);
            self.keyboard_state.set(slot, key_state_for(tag));
            if tag == Feedback::ExactMatch {
                num_correct = num_correct + 1;
            }
            n = n + 1;
            assert(tags_s.subrange(0, n as int).drop_last() =~= tags_s.subrange(0, n - 1));
        }
        if num_correct == WORD_LEN {
            self.phase = Phase::Won;
        } else if row < MAX_ROWS - 1 {
            self.cursor.row = row + 1;
            self.cursor.col = 0;
        } else {
            self.phase = Phase::Lost;
        }
        assert(tags_s.subrange(0, WORD_LEN as int) =~= tags_s);
        assert(forall|c: int|
            0 <= c < WORD_LEN ==> #[trigger] self.verdict(row as int, c) == tags_s[c]);
        assert(forall|r: int, c: int|
            0 <= r < MAX_ROWS && 0 <= c < WORD_LEN && r != row ==> #[trigger] self.verdict(r, c)
                == old(self).verdict(r, c));
        assert(self.row_verdicts(row as int) =~= tags_s);
        assert(forall|r: int, k: int| #[trigger] self.cell(r, k) == old(self).cell(r, k));
        assert(forall|r: int| #[trigger] self.row_letters(r) =~= old(self).row_letters(r));
        assert(forall|r: int|
            0 <= r < row ==> #[trigger] self.row_verdicts(r) =~= old(self).row_verdicts(r));
        assert(forall|c: int|
            0 <= c < WORD_LEN ==> is_upper_letter(#[trigger] self.cell(row as int, c)));
        proof {
            if self.phase == Phase::Guessing {
                assert forall|r: int, c: int|
                    0 <= r <= row && 0 <= c < WORD_LEN implies is_upper_letter(
                    #[trigger] self.cell(r, c),
                ) by {
                    if r < row {
                        assert(is_upper_letter(old(self).cell(r, c)));
                    }
                }
                assert forall|r: int|
                    0 <= r <= row implies #[trigger] self.row_verdicts(r) == score(
                    self.row_letters(r),
                    self.secret(),
                ) by {
                    if r < row {
                        assert(old(self).row_verdicts(r) == score(
                            old(self).row_letters(r),
                            old(self).secret(),
                        ));
                    }
                }
                assert forall|r: int, c: int|
                    row + 1 <= r < MAX_ROWS && 0 <= c < WORD_LEN implies #[trigger] self.cell(r, c)
                    == BLANK && self.verdict(r, c) == Feedback::Unevaluated by {
                    assert(old(self).cell(r, c) == BLANK);
                }
                assert forall|c: int|
                    0 <= c < WORD_LEN implies #[trigger] self.verdict(row + 1, c)
                    == Feedback::Unevaluated by {
                    assert(old(self).cell(row + 1, c) == BLANK);
                }
            }
        }
        assert(self.rows_done());
        assert(self.rows_blank());
        assert(self.active_row());
        assert(self.phase_ok());
        self.phase
    }
}

/// A key event from the player.
#[derive(Clone, Copy, Debug, PartialEq, Eq, Structural)]
pub enum Input {
    /// A typed character.
    Letter(char),
    /// Enter, to submit the current guess.
    Enter,
    /// Backspace, to take back a letter.
    Backspace,
    /// Escape, to leave the game.
    Escape,
}

/// What the game made of an input, for the caller to show or act on.
#[derive(Clone, Copy, Debug, PartialEq, Eq, Structural)]
pub enum Action {
    /// Nothing changed.
    Ignored,
    /// This letter was written into the grid.
    Typed(char),
    /// The last letter was taken back.
    Erased,
    /// The guess was scored and the game is now in this phase.
    Scored(Phase),
    /// The player asked to leave.
    Quit,
}

/// The upper-case form of an ASCII letter; any other character unchanged.
pub open spec fn upper_char(c: char) -> char {
    if 'a' <= c <= 'z' {
        (((c as u32) - 32) as u8) as char
    } else {
        c
    }
}

/// The upper-case form of an ASCII letter; any other character unchanged.
pub fn to_upper_char(c: char) -> (u: char)
    ensures
        u == upper_char(c),
{
    if 'a' <= c && c <= 'z' {
        ((c as u32 - 32) as u8) as char
    } else {
        c
    }
}

impl GameData {
    /// The game's answer to one input. A letter in either case is typed, in
    /// upper case, where the active cell is blank; Enter scores a full row;
    /// Backspace takes back a letter unless the cursor is on the first
    /// column; Escape asks to quit. Nothing is accepted once the game is
    /// over, and an input that is not accepted changes nothing.
    pub fn handle_input(&mut self, input: Input) -> (a: Action)
        requires
            old(self).wf(),
        ensures
            final(self).wf(),
            ({
                let g = *old(self);
                let row = g.cur().row as int;
                let col = g.cur().col as int;
                match input {
                    Input::Letter(c) => if g.stage() == Phase::Guessing && is_upper_letter(
                        upper_char(c),
                    ) && g.cell(row, col) == BLANK {
                        a == Action::Typed(upper_char(c)) && g.typed(*final(self), upper_char(c))
                    } else {
                        a == Action::Ignored && *final(self) == g
                    },
                    Input::Enter => if g.stage() == Phase::Guessing && col == WORD_LEN - 1
                        && g.cell(row, col) != BLANK {
                        a is Scored && g.scored(*final(self), a->Scored_0)
                    } else {
                        a == Action::Ignored && *final(self) == g
                    },
                    Input::Backspace => if g.stage() == Phase::Guessing && col > 0 {
                        a == Action::Erased && g.erased(*final(self))
                    } else {
                        a == Action::Ignored && *final(self) == g
                    },
                    Input::Escape => a == Action::Quit && *final(self) == g,
                }
            }),
    {
        let playing = self.phase == Phase::Guessing;
        match input {
            Input::Letter(c) => {
                let u = to_upper_char(c);
                if playing && 'A' <= u && u <= 'Z' && self.can_type() {
                    self.type_char(&u);
                    Action::Typed(u)
                } else {
                    Action::Ignored
                }
            },
            Input::Enter => {
                if playing && self.cursor.col == WORD_LEN - 1 && !self.can_type() {
                    Action::Scored(self.verify())
                } else {
                    Action::Ignored
                }
            },
            Input::Backspace => {
                if playing && self.cursor.col > 0 {
                    self.remove_char();
                    Action::Erased
                } else {
                    Action::Ignored
                }
            },
            Input::Escape => Action::Quit,
        }
    }
}

/// Guessing the secret itself scores an exact match at every position, so
/// the count of exact matches is the word's length.
pub proof fn lemma_exact_guess_all_match(secret: Seq<char>)
    ensures
        forall|i: int| 0 <= i < secret.len() ==> #[trigger] score(secret, secret)[i]
            == Feedback::ExactMatch,
        exact_count(score(secret, secret)) == secret.len(),
{
    lemma_exact_count_is_matching_positions(secret, secret);
    lemma_matching_positions_of_self(secret, secret.len() as int);
    assert(secret.subrange(0, secret.len() as int) =~= secret);
}

proof fn lemma_matching_positions_of_self(secret: Seq<char>, n: int)
    requires
        0 <= n <= secret.len(),
    ensures
        matching_positions(secret.subrange(0, n), secret) == n,
    decreases n,
{
    if n > 0 {
        lemma_matching_positions_of_self(secret, n - 1);
        assert(secret.subrange(0, n).drop_last() =~= secret.subrange(0, n - 1));
    }
}

/// The number of exact-match verdicts on a guess is the number of positions
/// where the guess and the secret hold the same letter.
pub proof fn lemma_exact_count_is_matching_positions(guess: Seq<char>, secret: Seq<char>)
    requires
        guess.len() == secret.len(),
    ensures
        exact_count(score(guess, secret)) == matching_positions(guess, secret),
{
    lemma_exact_count_prefix(guess, secret);
}

proof fn lemma_exact_count_prefix(guess: Seq<char>, secret: Seq<char>)
    ensures
        exact_count(score(guess, secret)) == matching_positions(guess, secret),
    decreases guess.len(),
{
    if guess.len() > 0 {
        let shorter = guess.drop_last();
        lemma_exact_count_prefix(shorter, secret);
        assert(score(guess, secret).drop_last() =~= score(shorter, secret));
    }
}

/// Submitting the secret word itself wins, with every cell of the row an
/// exact match, whatever row it is in.
pub proof fn lemma_submitting_secret_wins(g: GameData, next: GameData, p: Phase)
    requires
        g.wf(),
        g.scored(next, p),
        g.row_letters(g.cur().row as int) == g.secret(),
    ensures
        p == Phase::Won,
        next.stage() == Phase::Won,
        forall|c: int| 0 <= c < WORD_LEN ==> #[trigger] next.verdict(g.cur().row as int, c)
            == Feedback::ExactMatch,
{
    let row = g.cur().row as int;
    lemma_exact_guess_all_match(g.secret());
    assert forall|c: int| 0 <= c < WORD_LEN implies #[trigger] next.verdict(row, c)
        == Feedback::ExactMatch by {
        assert(next.row_verdicts(row)[c] == next.verdict(row, c));
    }
}

/// Only the secret itself matches the secret at every position.
pub proof fn lemma_full_match_is_equal(guess: Seq<char>, secret: Seq<char>)
    requires
        guess.len() == secret.len(),
    ensures
        matching_positions(guess, secret) <= guess.len(),
        matching_positions(guess, secret) == guess.len() ==> guess == secret,
    decreases guess.len(),
{
    if guess.len() > 0 {
        let shorter = guess.drop_last();
        lemma_full_match_is_equal(shorter, secret.drop_last());
        lemma_matching_positions_ignores_tail(shorter, secret);
        if matching_positions(guess, secret) == guess.len() {
            assert(shorter == secret.drop_last());
            assert(guess =~= secret.drop_last().push(secret.last()));
            assert(secret =~= secret.drop_last().push(secret.last()));
        }
    }
}

proof fn lemma_matching_positions_ignores_tail(guess: Seq<char>, secret: Seq<char>)
    requires
        guess.len() < secret.len(),
    ensures
        matching_positions(guess, secret) == matching_positions(guess, secret.drop_last()),
    decreases guess.len(),
{
    if guess.len() > 0 {
        lemma_matching_positions_ignores_tail(guess.drop_last(), secret);
    }
}

/// A guess that is not the secret word, in a well-formed game, has fewer
/// exact matches than letters.
pub proof fn lemma_wrong_guess_misses(g: GameData)
    requires
        g.wf(),
        g.row_letters(g.cur().row as int) != g.secret(),
    ensures
        g.misses(),
{
    let guess = g.row_letters(g.cur().row as int);
    lemma_exact_count_is_matching_positions(guess, g.secret());
    lemma_full_match_is_equal(guess, g.secret());
}

/// A game's submissions that all miss keep it going through the first four
/// and lose it on the fifth. `before[i]` is the game as the guess number
/// `i` (from zero) is submitted and `after[i]` the game that scoring it
/// leaves; between two submissions only letters are typed or taken back,
/// which keeps the row.
pub proof fn lemma_five_misses_lose(
    before: Seq<GameData>,
    after: Seq<GameData>,
    phases: Seq<Phase>,
)
    requires
        before.len() == MAX_ROWS,
        after.len() == MAX_ROWS,
        phases.len() == MAX_ROWS,
        before[0].cur().row == 0,
        forall|i: int| 0 <= i < MAX_ROWS ==> #[trigger] before[i].wf(),
        forall|i: int| 0 <= i < MAX_ROWS ==> #[trigger] before[i].scored(after[i], phases[i]),
        forall|i: int|
            0 <= i < MAX_ROWS ==> #[trigger] before[i].row_letters(before[i].cur().row as int)
                != before[i].secret(),
        forall|i: int|
            #![trigger after[i]]
            0 <= i < MAX_ROWS - 1 ==> after[i].cur().row == before[i + 1].cur().row,
    ensures
        forall|i: int| 0 <= i < MAX_ROWS - 1 ==> #[trigger] phases[i] == Phase::Guessing,
        phases[MAX_ROWS - 1] == Phase::Lost,
        after[MAX_ROWS - 1].stage() == Phase::Lost,
{
    assert forall|i: int| 0 <= i < MAX_ROWS implies #[trigger] before[i].misses() by {
        lemma_wrong_guess_misses(before[i]);
    }
    lemma_misses_keep_rows(before, after, phases, MAX_ROWS - 1);
    assert(before[4].scored(after[4], phases[4]));
    assert(before[4].misses());
}

proof fn lemma_misses_keep_rows(
    before: Seq<GameData>,
    after: Seq<GameData>,
    phases: Seq<Phase>,
    n: int,
)
    requires
        before.len() == MAX_ROWS,
        after.len() == MAX_ROWS,
        phases.len() == MAX_ROWS,
        0 <= n < MAX_ROWS,
        before[0].cur().row == 0,
        forall|i: int| 0 <= i < MAX_ROWS ==> #[trigger] before[i].scored(after[i], phases[i]),
        forall|i: int| 0 <= i < MAX_ROWS ==> #[trigger] before[i].misses(),
        forall|i: int|
            #![trigger after[i]]
            0 <= i < MAX_ROWS - 1 ==> after[i].cur().row == before[i + 1].cur().row,
    ensures
        before[n].cur().row == n,
        forall|i: int| 0 <= i < n ==> #[trigger] phases[i] == Phase::Guessing,
    decreases n,
{
    if n > 0 {
        lemma_misses_keep_rows(before, after, phases, n - 1);
        assert(before[n - 1].scored(after[n - 1], phases[n - 1]));
        assert(before[n - 1].misses());
        assert(after[n - 1].cur().row == before[n].cur().row);
    }
}

impl GameData {
    /// The secret word.
    pub fn secret_word(&self) -> (w: &Vec<char>)
        ensures
            w@ == self.secret(),
    {
        &self.secret_word
    }

    /// The letter in a cell of the grid, blank where none was typed.
    pub fn letter_at(&self, row: usize, col: usize) -> (c: char)
        requires
            self.wf(),
            row < MAX_ROWS,
            col < WORD_LEN,
        ensures
            c == self.cell(row as int, col as int),
    {
        self.entered_letters[row * WORD_LEN + col]
    }

    /// The verdict on a cell of the grid.
    pub fn feedback_at(&self, row: usize, col: usize) -> (f: Feedback)
        requires
            self.wf(),
            row < MAX_ROWS,
            col < WORD_LEN,
        ensures
            f == self.verdict(row as int, col as int),
    {
        self.feedback[row * WORD_LEN + col]
    }

    /// The active cell.
    pub fn cursor(&self) -> (c: Cursor)
        ensures
            c == self.cur(),
    {
        self.cursor
    }

    /// Where the game stands.
    pub fn phase(&self) -> (p: Phase)
        ensures
            p == self.stage(),
    {
        self.phase
    }
}

} // verus!
