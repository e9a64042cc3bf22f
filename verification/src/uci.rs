use vstd::prelude::*;

verus! {

use vstd::string::*;
use crate::utils::{parse_unsigned, push_char, unsigned_value};

/// The characters with the Unicode White_Space property.
pub open spec fn is_white_space(c: char) -> bool {
    let u = c as u32;
    ||| 0x09 <= u <= 0x0d
    ||| u == 0x20
    ||| u == 0x85
    ||| u == 0xa0
    ||| u == 0x1680
    ||| 0x2000 <= u <= 0x200a
    ||| u == 0x2028
    ||| u == 0x2029
    ||| u == 0x202f
    ||| u == 0x205f
    ||| u == 0x3000
}

fn white_space(c: char) -> (ws: bool)
    ensures
        ws == is_white_space(c),
{
    let u = c as u32;
    (0x09 <= u && u <= 0x0d) || u == 0x20 || u == 0x85 || u == 0xa0 || u == 0x1680 || (0x2000 <= u
        && u <= 0x200a) || u == 0x2028 || u == 0x2029 || u == 0x202f || u == 0x205f || u == 0x3000
}

/// The words of a text read so far, and whether the last character read belongs to a word.
pub open spec fn words_state(s: Seq<char>) -> (Seq<Seq<char>>, bool)
    decreases s.len(),
{
    if s.len() == 0 {
        (Seq::empty(), false)
    } else {
        let (words, open) = words_state(s.drop_last());
        let c = s.last();
        if is_white_space(c) {
            (words, false)
        } else if open {
            (words.update(words.len() - 1, words.last().push(c)), true)
        } else {
            (words.push(seq![c]), true)
        }
    }
}

/// The words of a text: its longest runs of characters that are not white space, in order.
pub open spec fn words_of(s: Seq<char>) -> Seq<Seq<char>> {
    words_state(s).0
}

/// The index of the first word "depth" from index `k` on.
pub open spec fn depth_word_from(words: Seq<Seq<char>>, k: int) -> Option<int>
    decreases words.len() - k,
{
    if k < 0 || k >= words.len() {
        None
    } else if words[k] == seq!['d', 'e', 'p', 't', 'h'] {
        Some(k)
    } else {
        depth_word_from(words, k + 1)
    }
}

/// The depth of a "go" command: the number after the first word "depth", none when that word
/// is missing, is the last word, or is not followed by a number of `u32`.
pub open spec fn go_depth(rest: Seq<char>) -> Option<u32> {
    let words = words_of(rest);
    match depth_word_from(words, 0) {
        Some(k) => if k + 1 < words.len() {
            match unsigned_value(words[k + 1], u32::MAX as nat) {
                Some(v) => Some(v as u32),
                None => None,
            }
        } else {
            None
        },
        None => None,
    }
}

fn split_words(text: &str) -> (words: Vec<String>)
    ensures
        words@.map_values(|w: String| w@) == words_of(text@),
{
    let n = text.unicode_len();
    let mut words: Vec<String> = Vec::new();
    let mut open = false;
    let mut i: usize = 0;
    while i < n
        invariant
            0 <= i <= n,
            n == text@.len(),
            words_state(text@.take(i as int)) == (words@.map_values(|w: String| w@), open),
            open ==> words@.len() > 0,
        decreases n - i,
    {
        let c = text.get_char(i);
        proof {
            assert(text@.take(i + 1).drop_last() =~= text@.take(i as int));
            assert(text@.take(i + 1).last() == c);
        }
        let ghost before = words@.map_values(|w: String| w@);
        if white_space(c) {
            open = false;
        } else if open {
            let last = words.len() - 1;
            let mut word = words[last].clone();
            push_char(&mut word, c);
            words.set(last, word);
            proof {
                assert(words@.map_values(|w: String| w@) =~= before.update(before.len() - 1, before.last().push(c)));
            }
        } else {
            let mut word = String::new();
            push_char(&mut word, c);
            words.push(word);
            open = true;
            proof {
                assert(words@.map_values(|w: String| w@) =~= before.push(seq![c]));
            }
        }
        i += 1;
    }
    proof {
        assert(text@.take(i as int) =~= text@);
    }
    words
}

fn is_depth_word(word: &String) -> (is_depth: bool)
    ensures
        is_depth == (word@ == seq!['d', 'e', 'p', 't', 'h']),
{
    let text = word.as_str();
    if text.unicode_len() != 5 {
        return false;
    }
    let same = text.get_char(0) == 'd' && text.get_char(1) == 'e' && text.get_char(2) == 'p'
        && text.get_char(3) == 't' && text.get_char(4) == 'h';
    proof {
        if same {
            assert(word@ =~= seq!['d', 'e', 'p', 't', 'h']);
        }
    }
    same
}

/// The depth that the arguments of a "go" command ask for (see `go_depth`).
pub fn parse_go_depth(rest: &str) -> (depth: Option<u32>)
    ensures
        depth == go_depth(rest@),
{
    let words = split_words(rest);
    let ghost ws = words@.map_values(|w: String| w@);
    let mut k: usize = 0;
    while k < words.len()
        invariant
            0 <= k <= words@.len(),
            ws == words@.map_values(|w: String| w@),
            ws == words_of(rest@),
            depth_word_from(ws, 0) == depth_word_from(ws, k as int),
        decreases words@.len() - k,
    {
        assert(ws[k as int] == words@[k as int]@);
        if is_depth_word(&words[k]) {
            if k + 1 < words.len() {
                assert(ws[k + 1] == words@[k + 1]@);
                return match parse_unsigned(words[k + 1].as_str(), 0xffff_ffff) {
                    Some(value) => Some(value as u32),
                    None => None,
                };
            }
            return None;
        }
        k += 1;
    }
    None
}

} // verus!
