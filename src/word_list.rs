use vstd::prelude::*;
use rand::seq::SliceRandom;
use crate::game_data::{is_upper_letter, is_word, GameData, WORD_LEN};

verus! {

/// Why a game could not start.
#[derive(Clone, Copy, Debug, PartialEq, Eq, Structural)]
pub enum StartupError {
    /// The word list holds no word.
    EmptyWordList,
    /// The line with this index (from zero) is neither empty nor a word.
    MalformedWord(usize),
}

/// The line separator.
pub const NEWLINE: u8 = 10;

/// The lines of a text: the pieces between line separators, so a text
/// without separator is one line and a separator at the end leaves an empty
/// last line.
pub open spec fn split_lines(t: Seq<u8>) -> Seq<Seq<u8>>
    decreases t.len(),
{
    if t.len() == 0 {
        seq![Seq::empty()]
    } else {
        let prev = split_lines(t.drop_last());
        if t.last() == NEWLINE {
            prev.push(Seq::empty())
        } else {
            prev.update(prev.len() - 1, prev.last().push(t.last()))
        }
    }
}

/// An ASCII letter in either case.
pub open spec fn is_ascii_letter(b: u8) -> bool {
    (65 <= b <= 90) || (97 <= b <= 122)
}

/// The upper-case letter of an ASCII letter.
pub open spec fn upper_of(b: u8) -> char {
    if b >= 97 {
        ((b - 32) as u8) as char
    } else {
        b as char
    }
}

/// A line that spells a word: five ASCII letters.
pub open spec fn is_word_line(l: Seq<u8>) -> bool {
    &&& l.len() == WORD_LEN
    &&& forall|i: int| 0 <= i < l.len() ==> is_ascii_letter(#[trigger] l[i])
}

/// A line that the word list accepts: empty, or a word.
pub open spec fn line_ok(l: Seq<u8>) -> bool {
    l.len() == 0 || is_word_line(l)
}

/// Every line is empty or a word.
pub open spec fn all_lines_ok(lines: Seq<Seq<u8>>) -> bool {
    forall|j: int| 0 <= j < lines.len() ==> line_ok(#[trigger] lines[j])
}

/// The word that a word line spells, in upper case.
pub open spec fn word_of(l: Seq<u8>) -> Seq<char> {
    Seq::new(l.len(), |i: int| upper_of(l[i]))
}

/// The words of the non-empty lines, in order.
pub open spec fn words_of(lines: Seq<Seq<u8>>) -> Seq<Seq<char>>
    decreases lines.len(),
{
    if lines.len() == 0 {
        Seq::empty()
    } else if lines.last().len() == 0 {
        words_of(lines.drop_last())
    } else {
        words_of(lines.drop_last()).push(word_of(lines.last()))
    }
}

proof fn lemma_split_lines_nonempty(t: Seq<u8>)
    ensures
        split_lines(t).len() >= 1,
    decreases t.len(),
{
    if t.len() > 0 {
        lemma_split_lines_nonempty(t.drop_last());
    }
}

/// The contents of a list of byte vectors.
pub open spec fn views_u8(v: Seq<Vec<u8>>) -> Seq<Seq<u8>> {
    Seq::new(v.len(), |i: int| v[i]@)
}

/// The contents of a list of character vectors.
pub open spec fn views_char(v: Seq<Vec<char>>) -> Seq<Seq<char>> {
    Seq::new(v.len(), |i: int| v[i]@)
}

/// Cuts `text` into its lines.
fn split_text(text: &[u8]) -> (lines: Vec<Vec<u8>>)
    ensures
        views_u8(lines@) == split_lines(text@),
{
    let mut lines: Vec<Vec<u8>> = Vec::new();
    let mut cur: Vec<u8> = Vec::new();
    let mut i: usize = 0;
    while i < text.len()
        invariant
            i <= text@.len(),
            views_u8(lines@).push(cur@) == split_lines(text@.subrange(0, i as int)),
        decreases text@.len() - i,
    {
        let b = text[i];
        let ghost before = views_u8(lines@);
        let ghost cur_before = cur@;
        proof {
            lemma_split_lines_nonempty(text@.subrange(0, i as int));
            assert(text@.subrange(0, i + 1).drop_last() =~= text@.subrange(0, i as int));
        }
        if b == NEWLINE {
            lines.push(cur);
            cur = Vec::new();
            assert(views_u8(lines@) =~= before.push(cur_before));
        } else {
            cur.push(b);
            assert(views_u8(lines@) =~= before);
            assert(before.push(cur@) =~= before.push(cur_before).update(
                before.len() as int,
                cur_before.push(b),
            ));
        }
        i = i + 1;
        assert(views_u8(lines@).push(cur@) =~= split_lines(text@.subrange(0, i as int)));
    }
    let ghost before = views_u8(lines@);
    let ghost cur_before = cur@;
    lines.push(cur);
    assert(views_u8(lines@) =~= before.push(cur_before));
    assert(text@.subrange(0, text@.len() as int) =~= text@);
    lines
}

/// The upper-case letter of an ASCII letter.
fn upper_letter(b: u8) -> (c: char)
    requires
        is_ascii_letter(b),
    ensures
        c == upper_of(b),
{
    if b >= 97 {
        (b - 32) as char
    } else {
        b as char
    }
}

/// Whether a line spells a word.
fn check_word_line(l: &Vec<u8>) -> (r: bool)
    ensures
        r == is_word_line(l@),
{
    if l.len() != WORD_LEN {
        return false;
    }
    let mut i: usize = 0;
    while i < l.len()
        invariant
            i <= l@.len(),
            forall|j: int| 0 <= j < i ==> is_ascii_letter(#[trigger] l@[j]),
        decreases l@.len() - i,
    {
        let b = l[i];
        if !((65 <= b && b <= 90) || (97 <= b && b <= 122)) {
            return false;
        }
        i = i + 1;
    }
    true
}

/// The word a word line spells, in upper case.
fn line_word(l: &Vec<u8>) -> (w: Vec<char>)
    requires
        is_word_line(l@),
    ensures
        w@ == word_of(l@),
{
    let mut w: Vec<char> = Vec::new();
    let mut i: usize = 0;
    while i < l.len()
        invariant
            is_word_line(l@),
            i <= l@.len(),
            w@ == word_of(l@).subrange(0, i as int),
        decreases l@.len() - i,
    {
        w.push(upper_letter(l[i]));
        i = i + 1;
        assert(w@ =~= word_of(l@).subrange(0, i as int));
    }
    assert(w@ =~= word_of(l@));
    w
}

/// Reads a word list: one word per line, five ASCII letters in either
/// case, empty lines allowed. The words come back in upper case and in
/// order; the first line that is neither empty nor a word is reported, and
/// a list without words is refused.
pub fn parse_word_list(text: &[u8]) -> (r: Result<Vec<Vec<char>>, StartupError>)
    ensures
        r is Ok ==> {
            &&& all_lines_ok(split_lines(text@))
            &&& words_of(split_lines(text@)).len() > 0
            &&& views_char(r->Ok_0@) == words_of(split_lines(text@))
        },
        r == Err::<Vec<Vec<char>>, StartupError>(StartupError::EmptyWordList) ==> {
            &&& all_lines_ok(split_lines(text@))
            &&& words_of(split_lines(text@)).len() == 0
        },
        r is Err && r->Err_0 is MalformedWord ==> {
            let bad = r->Err_0->MalformedWord_0;
            &&& bad < split_lines(text@).len()
            &&& !line_ok(split_lines(text@)[bad as int])
            &&& forall|j: int| 0 <= j < bad ==> line_ok(#[trigger] split_lines(text@)[j])
        },
{
    let lines = split_text(text);
    let ghost ls = split_lines(text@);
    let mut words: Vec<Vec<char>> = Vec::new();
    let mut k: usize = 0;
    while k < lines.len()
        invariant
            ls == split_lines(text@),
            views_u8(lines@) == ls,
            k <= ls.len(),
            forall|j: int| 0 <= j < k ==> line_ok(#[trigger] ls[j]),
            views_char(words@) == words_of(ls.subrange(0, k as int)),
        decreases ls.len() - k,
    {
        assert(ls.subrange(0, k + 1).drop_last() =~= ls.subrange(0, k as int));
        assert(lines@[k as int]@ == ls[k as int]);
        if lines[k].len() == 0 {
        } else if check_word_line(&lines[k]) {
            let ghost before = views_char(words@);
            let w = line_word(&lines[k]);
            words.push(w);
            assert(views_char(words@) =~= before.push(word_of(ls[k as int])));
        } else {
            assert(!line_ok(ls[k as int]));
            assert(k < ls.len());
            assert(forall|j: int| 0 <= j < k ==> line_ok(#[trigger] ls[j]));
            return Err(StartupError::MalformedWord(k));
        }
        k = k + 1;
    }
    assert(ls.subrange(0, ls.len() as int) =~= ls);
    if words.len() == 0 {
        Err(StartupError::EmptyWordList)
    } else {
        Ok(words)
    }
}

/// Relies on rand's `SliceRandom::choose` with `thread_rng`: `None` for an
/// empty slice, otherwise one of its elements, picked at random.
#[verifier::external_body]
fn choose_word(words: &[Vec<char>]) -> (r: Option<&Vec<char>>)
    ensures
        r is None <==> words@.len() == 0,
        r is Some ==> words@.contains(*r->Some_0),
{
    words.choose(&mut rand::thread_rng())
}

/// A copy of a word.
fn copy_word(w: &Vec<char>) -> (r: Vec<char>)
    ensures
        r@ == w@,
{
    let mut r: Vec<char> = Vec::new();
    let mut i: usize = 0;
    while i < w.len()
        invariant
            i <= w@.len(),
            r@ == w@.subrange(0, i as int),
        decreases w@.len() - i,
    {
        r.push(w[i]);
        i = i + 1;
        assert(r@ =~= w@.subrange(0, i as int));
    }
    assert(w@.subrange(0, w@.len() as int) =~= w@);
    r
}

/// Draws the secret word from `words` at random; an empty list is refused.
pub fn select_secret_word(words: &Vec<Vec<char>>) -> (r: Result<Vec<char>, StartupError>)
    ensures
        r is Err <==> words@.len() == 0,
        r is Err ==> r->Err_0 == StartupError::EmptyWordList,
        r is Ok ==> views_char(words@).contains(r->Ok_0@),
{
    match choose_word(words.as_slice()) {
        None => Err(StartupError::EmptyWordList),
        Some(w) => {
            let secret = copy_word(w);
            proof {
                let i = choose|i: int| 0 <= i < words@.len() && words@[i] == *w;
                assert(views_char(words@)[i] == secret@);
            }
            Ok(secret)
        },
    }
}

/// Starts a game from the text of a word list: reads the list, draws the
/// secret word from it, and sets up a fresh grid and keyboard. Fails as
/// reading the list fails.
pub fn start_game(text: &[u8]) -> (r: Result<GameData, StartupError>)
    ensures
        r is Err <==> !all_lines_ok(split_lines(text@)) || words_of(split_lines(text@)).len()
            == 0,
        r is Err && r->Err_0 is MalformedWord ==> {
            let bad = r->Err_0->MalformedWord_0;
            &&& bad < split_lines(text@).len()
            &&& !line_ok(split_lines(text@)[bad as int])
            &&& forall|j: int| 0 <= j < bad ==> line_ok(#[trigger] split_lines(text@)[j])
        },
        r is Err && r->Err_0 is EmptyWordList ==> all_lines_ok(split_lines(text@)),
        r is Ok ==> r->Ok_0.is_fresh() && words_of(split_lines(text@)).contains(r->Ok_0.secret()),
{
    let words = match parse_word_list(text) {
        Ok(ws) => ws,
        Err(e) => {
            return Err(e);
        },
    };
    let secret = match select_secret_word(&words) {
        Ok(w) => w,
        Err(e) => {
            return Err(e);
        },
    };
    proof {
        lemma_words_are_words(split_lines(text@));
        let i = choose|i: int|
            0 <= i < views_char(words@).len() && views_char(words@)[i] == secret@;
        assert(words_of(split_lines(text@))[i] == secret@);
    }
    let g = GameData::new(secret);
    assert(words_of(split_lines(text@)).contains(g.secret()));
    Ok(g)
}

/// Every word of an accepted list is a possible secret word.
proof fn lemma_words_are_words(lines: Seq<Seq<u8>>)
    requires
        all_lines_ok(lines),
    ensures
        forall|i: int| 0 <= i < words_of(lines).len() ==> is_word(#[trigger] words_of(lines)[i]),
    decreases lines.len(),
{
    if lines.len() > 0 {
        let prev = lines.drop_last();
        assert(all_lines_ok(prev)) by {
            assert(forall|j: int| 0 <= j < prev.len() ==> #[trigger] prev[j] == lines[j]);
        }
        lemma_words_are_words(prev);
        if lines.last().len() > 0 {
            let l = lines.last();
            assert(line_ok(lines[lines.len() - 1]));
            let w = word_of(l);
            assert forall|i: int| 0 <= i < w.len() implies is_upper_letter(
                #[trigger] w[i],
            ) by {
                let b = l[i];
                assert(is_ascii_letter(b));
                if b >= 97 {
                    assert(((b - 32) as u8) as char as u32 == (b - 32) as u32);
                } else {
                    assert(b as char as u32 == b as u32);
                }
            }
            assert(is_word(w));
            assert(words_of(lines) == words_of(prev).push(w));
        } else {
            assert(words_of(lines) == words_of(prev));
        }
    }
}

} // verus!
