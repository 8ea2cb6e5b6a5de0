use vstd::prelude::*;
use vstd::std_specs::iter::IteratorSpec;
use vstd::string::{StrSliceExecFns, StringExecFns};

verus! {

broadcast use vstd::string::group_string_axioms;

/// Unicode's White_Space property, which `char::is_whitespace` tests.
pub open spec fn is_white_space(c: char) -> bool {
    let u = c as u32;
    ||| 0x09 <= u <= 0x0D
    ||| u == 0x20
    ||| u == 0x85
    ||| u == 0xA0
    ||| u == 0x1680
    ||| 0x2000 <= u <= 0x200A
    ||| u == 0x2028
    ||| u == 0x2029
    ||| u == 0x202F
    ||| u == 0x205F
    ||| u == 0x3000
}

/// Whether `c` is white space.
pub fn is_whitespace(c: char) -> (r: bool)
    ensures
        r == is_white_space(c),
{
    let u = c as u32;
    (0x09 <= u && u <= 0x0D) || u == 0x20 || u == 0x85 || u == 0xA0 || u == 0x1680 || (0x2000 <= u
        && u <= 0x200A) || u == 0x2028 || u == 0x2029 || u == 0x202F || u == 0x205F || u == 0x3000
}

/// Whether `s` is blank: every character of it is white space (so that
/// `str::trim` leaves it empty).
pub open spec fn is_blank_text(s: Seq<char>) -> bool {
    forall|i: int| 0 <= i < s.len() ==> is_white_space(#[trigger] s[i])
}

/// Whether `line` is blank (empty or white space only).
pub fn is_blank(line: &str) -> (r: bool)
    ensures
        r == is_blank_text(line@),
{
    let n = line.unicode_len();
    let mut it = line.chars();
    let mut i: usize = 0;
    while i < n
        invariant
            0 <= i <= n,
            n == line@.len(),
            it.remaining() == line@.skip(i as int),
            forall|j: int| 0 <= j < i ==> is_white_space(#[trigger] line@[j]),
        decreases n - i,
    {
        let c = match it.next() {
            Some(c) => c,
            None => {
                assert(false);
                ' '
            },
        };
        proof {
            assert(line@.skip(i as int)[0] == line@[i as int]);
            assert(line@.skip(i as int).drop_first() =~= line@.skip(i + 1));
        }
        if !is_whitespace(c) {
            return false;
        }
        i = i + 1;
    }
    true
}

/// Scanning the first `n` characters of `s` for words: the spans
/// `[start, end)` of the words that ended, and the start of the word being
/// read, if any.
pub open spec fn scan_words(s: Seq<char>, n: int) -> (Seq<(int, int)>, Option<int>)
    decreases n,
{
    if n <= 0 {
        (Seq::empty(), None)
    } else {
        let (spans, cur) = scan_words(s, n - 1);
        if is_white_space(s[n - 1]) {
            match cur {
                Some(st) => (spans.push((st, n - 1)), None),
                None => (spans, None),
            }
        } else {
            match cur {
                Some(st) => (spans, Some(st)),
                None => (spans, Some(n - 1)),
            }
        }
    }
}

/// The spans of the words of `s`: its maximal runs of characters that are
/// not white space.
pub open spec fn word_spans(s: Seq<char>) -> Seq<(int, int)> {
    let (spans, cur) = scan_words(s, s.len() as int);
    match cur {
        Some(st) => spans.push((st, s.len() as int)),
        None => spans,
    }
}

/// The words of `s`, as `str::split_whitespace` yields them.
pub open spec fn words(s: Seq<char>) -> Seq<Seq<char>> {
    word_spans(s).map_values(|sp: (int, int)| s.subrange(sp.0, sp.1))
}

/// A command `set <key> <value>`: exactly three words, the first `set`.
pub open spec fn parse_set(s: Seq<char>) -> Option<(Seq<char>, Seq<char>)> {
    let w = words(s);
    if w.len() == 3 && w[0] == seq!['s', 'e', 't'] {
        Some((w[1], w[2]))
    } else {
        None
    }
}

/// Splits `line` into its words (see [`words`]); returns their spans in
/// characters.
pub fn split_whitespace_spans(line: &str) -> (r: Vec<(usize, usize)>)
    ensures
        r@.len() == word_spans(line@).len(),
        forall|i: int|
            0 <= i < r@.len() ==> (#[trigger] r@[i]).0 as int == word_spans(line@)[i].0 && r@[i].1 as int
                == word_spans(line@)[i].1,
        forall|i: int| 0 <= i < r@.len() ==> (#[trigger] r@[i]).0 <= r@[i].1 <= line@.len(),
{
    let n = line.unicode_len();
    let mut it = line.chars();
    let mut spans: Vec<(usize, usize)> = Vec::new();
    let mut cur: Option<usize> = None;
    let mut i: usize = 0;
    while i < n
        invariant
            0 <= i <= n,
            n == line@.len(),
            it.remaining() == line@.skip(i as int),
            spans@.len() == scan_words(line@, i as int).0.len(),
            forall|k: int|
                0 <= k < spans@.len() ==> (#[trigger] spans@[k]).0 as int == scan_words(line@, i as int).0[k].0
                    && spans@[k].1 as int == scan_words(line@, i as int).0[k].1,
            forall|k: int| 0 <= k < spans@.len() ==> (#[trigger] spans@[k]).0 <= spans@[k].1 <= i,
            match cur {
                Some(st) => scan_words(line@, i as int).1 == Some(st as int) && st < i,
                None => scan_words(line@, i as int).1 is None,
            },
        decreases n - i,
    {
        let c = match it.next() {
            Some(c) => c,
            None => {
                assert(false);
                ' '
            },
        };
        proof {
            assert(line@.skip(i as int)[0] == line@[i as int]);
            assert(line@.skip(i as int).drop_first() =~= line@.skip(i + 1));
        }
        if is_whitespace(c) {
            match cur {
                Some(st) => {
                    spans.push((st, i));
                    cur = None;
                },
                None => {},
            }
        } else {
            match cur {
                Some(_) => {},
                None => {
                    cur = Some(i);
                },
            }
        }
        i = i + 1;
    }
    match cur {
        Some(st) => {
            spans.push((st, n));
        },
        None => {},
    }
    spans
}

/// Parses a `set <key> <value>` command; `None` for anything else.
pub fn parse_set_command(command: &str) -> (r: Option<(String, String)>)
    ensures
        match r {
            Some((k, v)) => parse_set(command@) == Some((k@, v@)),
            None => parse_set(command@) is None,
        },
{
    let spans = split_whitespace_spans(command);
    let ghost w = words(command@);
    proof {
        assert(w.len() == spans@.len());
    }
    if spans.len() != 3 {
        return None;
    }
    let first = command.substring_char(spans[0].0, spans[0].1).to_owned();
    let set_word = String::from_str("set");
    proof {
        reveal_strlit("set");
        assert(first@ =~= w[0]);
        assert(set_word@ =~= seq!['s', 'e', 't']);
    }
    if first != set_word {
        return None;
    }
    let key = command.substring_char(spans[1].0, spans[1].1).to_owned();
    let value = command.substring_char(spans[2].0, spans[2].1).to_owned();
    proof {
        assert(key@ =~= w[1]);
        assert(value@ =~= w[2]);
    }
    Some((key, value))
}

} // verus!
