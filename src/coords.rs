use vstd::prelude::*;

use regex::Regex;

use crate::action::{is_white, is_white_char};

verus! {

#[verifier::external_type_specification]
#[verifier::external_body]
pub struct ExRegex(Regex);

#[verifier::external_type_specification]
#[verifier::external_body]
pub struct ExRegexError(regex::Error);

/// Relies on regex::Regex::new: compiles a pattern, or says why it could not.
/// The one pattern this library compiles is valid and small, so it compiles.
pub assume_specification[ Regex::new ](re: &str) -> (r: Result<Regex, regex::Error>)
    ensures
        re@ == "([\\d]+,[\\d]+)+"@ ==> r is Ok,
;

/// The matches, left to right and without overlap, of the pattern
/// `([\d]+,[\d]+)+` in a text.
pub uninterp spec fn digit_pair_matches(s: Seq<char>) -> Seq<Seq<char>>;

/// An ASCII decimal digit.
pub open spec fn is_digit(c: char) -> bool {
    '0' <= c && c <= '9'
}

/// The value of a string of decimal digits.
pub open spec fn digits_value(s: Seq<char>) -> int
    decreases s.len(),
{
    if s.len() == 0 {
        0
    } else {
        digits_value(s.drop_last()) * 10 + (s.last() as int - '0' as int)
    }
}

/// A non-empty string of decimal digits whose value fits a `usize`.
pub open spec fn number_of(s: Seq<char>) -> Option<usize> {
    if s.len() > 0 && (forall|i: int| 0 <= i < s.len() ==> is_digit(#[trigger] s[i]))
        && digits_value(s) <= usize::MAX {
        Some(digits_value(s) as usize)
    } else {
        None
    }
}

/// `k` is the position of the first comma of `s`.
pub open spec fn first_comma_at(s: Seq<char>, k: int) -> bool {
    0 <= k < s.len() && s[k] == ',' && forall|j: int| 0 <= j < k ==> #[trigger] s[j] != ','
}

/// The coordinate `x,y` that a token spells: two numbers around its first
/// comma. Any other token spells none.
pub open spec fn pair_of(t: Seq<char>) -> Option<(usize, usize)> {
    if exists|k: int| first_comma_at(t, k) {
        let k = choose|k: int| first_comma_at(t, k);
        match (number_of(t.take(k)), number_of(t.skip(k + 1))) {
            (Some(x), Some(y)) => Some((x, y)),
            _ => None,
        }
    } else {
        None
    }
}

/// The coordinates that tokens spell, in order; the other tokens are
/// dropped.
pub open spec fn pairs_of(tokens: Seq<Seq<char>>) -> Seq<(usize, usize)>
    decreases tokens.len(),
{
    if tokens.len() == 0 {
        Seq::empty()
    } else {
        match pair_of(tokens.last()) {
            Some(p) => pairs_of(tokens.drop_last()).push(p),
            None => pairs_of(tokens.drop_last()),
        }
    }
}

proof fn lemma_digits_grow(s: Seq<char>, k: int)
    requires
        0 <= k <= s.len(),
        forall|i: int| 0 <= i < s.len() ==> is_digit(#[trigger] s[i]),
    ensures
        0 <= digits_value(s.take(k)) <= digits_value(s),
    decreases s.len(),
{
    if s.len() > 0 {
        if k == s.len() {
            assert(s.take(k) =~= s);
            lemma_digits_grow(s.drop_last(), s.len() - 1);
            assert(s.drop_last().take(s.len() - 1) =~= s.drop_last());
        } else {
            lemma_digits_grow(s.drop_last(), k);
            assert(s.drop_last().take(k) =~= s.take(k));
            lemma_digits_grow(s.drop_last(), s.len() - 1);
            assert(s.drop_last().take(s.len() - 1) =~= s.drop_last());
            assert(is_digit(s.last()));
        }
    }
}

/// The number spelled by characters `from..to` of `s`.
fn parse_number(s: &str, from: usize, to: usize) -> (r: Option<usize>)
    requires
        from <= to <= s@.len(),
    ensures
        r == number_of(s@.subrange(from as int, to as int)),
{
    let ghost part = s@.subrange(from as int, to as int);
    if from == to {
        return None;
    }
    let mut value: usize = 0;
    let mut too_big = false;
    let mut i = from;
    while i < to
        invariant
            from <= i <= to,
            to <= s@.len(),
            part == s@.subrange(from as int, to as int),
            forall|j: int| 0 <= j < i - from ==> is_digit(#[trigger] part[j]),
            !too_big ==> value == digits_value(part.take(i - from)),
            too_big ==> digits_value(part.take(i - from)) > usize::MAX,
        decreases to - i,
    {
        let c = s.get_char(i);
        assert(c == part[i - from]);
        if !('0' <= c && c <= '9') {
            return None;
        }
        let ghost k = i - from;
        assert(part.take(k + 1).drop_last() =~= part.take(k));
        proof {
            if too_big {
                assert(digits_value(part.take(k + 1)) == digits_value(part.take(k)) * 10 + (c as int
                    - '0' as int));
            }
        }
        if !too_big {
            let d = (c as u32 - '0' as u32) as u128;
            let next: u128 = value as u128 * 10 + d;
            if next > usize::MAX as u128 {
                too_big = true;
            } else {
                value = next as usize;
            }
        }
        i = i + 1;
    }
    assert(part.take(to - from) =~= part);
    if too_big {
        None
    } else {
        Some(value)
    }
}

/// The coordinate that a token spells, if any.
pub fn parse_pair(t: &str) -> (r: Option<(usize, usize)>)
    ensures
        r == pair_of(t@),
{
    let n = t.unicode_len();
    let mut k: usize = 0;
    while k < n
        invariant
            n == t@.len(),
            k <= n,
            forall|j: int| 0 <= j < k ==> #[trigger] t@[j] != ',',
        ensures
            n == t@.len(),
            k <= n,
            forall|j: int| 0 <= j < k ==> #[trigger] t@[j] != ',',
            k < n ==> t@[k as int] == ',',
        decreases n - k,
    {
        if t.get_char(k) == ',' {
            break;
        }
        k = k + 1;
    }
    if k == n {
        assert(!exists|j: int| first_comma_at(t@, j));
        return None;
    }
    proof {
        assert(first_comma_at(t@, k as int));
        let c = choose|j: int| first_comma_at(t@, j);
        assert(c == k) by {
            if c < k {
                assert(t@[c] != ',');
            } else if c > k {
                assert(t@[k as int] != ',');
            }
        }
        assert(t@.take(k as int) =~= t@.subrange(0, k as int));
        assert(t@.skip(k + 1) =~= t@.subrange(k + 1, n as int));
    }
    let x = parse_number(t, 0, k);
    let y = parse_number(t, k + 1, n);
    match (x, y) {
        (Some(a), Some(b)) => Some((a, b)),
        _ => None,
    }
}

/// The views of a vector of strings.
pub open spec fn string_views(v: Seq<String>) -> Seq<Seq<char>> {
    v.map_values(|s: String| s@)
}

/// The coordinates that the tokens spell, in order; tokens that spell none
/// are dropped.
pub fn coordinates_from_tokens(tokens: &Vec<String>) -> (r: Vec<(usize, usize)>)
    ensures
        r@ == pairs_of(string_views(tokens@)),
{
    let ghost views = string_views(tokens@);
    let mut out: Vec<(usize, usize)> = Vec::new();
    let mut i: usize = 0;
    while i < tokens.len()
        invariant
            i <= tokens@.len(),
            views == string_views(tokens@),
            out@ == pairs_of(views.take(i as int)),
        decreases tokens@.len() - i,
    {
        assert(views.take(i + 1).drop_last() =~= views.take(i as int));
        assert(views.take(i + 1).last() == tokens@[i as int]@);
        match parse_pair(tokens[i].as_str()) {
            Some(p) => out.push(p),
            None => {},
        }
        i = i + 1;
    }
    assert(views.take(i as int) =~= views);
    out
}

/// `s` without the white space at its two ends.
pub open spec fn trim_white(s: Seq<char>) -> Seq<char>
    decreases s.len(),
{
    if s.len() > 0 && is_white(s[0]) {
        trim_white(s.drop_first())
    } else if s.len() > 0 && is_white(s.last()) {
        trim_white(s.drop_last())
    } else {
        s
    }
}

proof fn lemma_trim_range(s: Seq<char>, i: int, j: int)
    requires
        0 <= i <= j <= s.len(),
        forall|k: int| 0 <= k < i ==> is_white(#[trigger] s[k]),
        forall|k: int| j <= k < s.len() ==> is_white(#[trigger] s[k]),
        i < j ==> !is_white(s[i]) && !is_white(s[j - 1]),
    ensures
        trim_white(s) == s.subrange(i, j),
    decreases s.len(),
{
    if s.len() > 0 && is_white(s[0]) {
        if i > 0 {
            lemma_trim_range(s.drop_first(), i - 1, j - 1);
            assert(s.drop_first().subrange(i - 1, j - 1) =~= s.subrange(i, j));
        } else {
            // i == 0 and s[0] is white: only possible when the range is empty
            assert(j == 0);
            lemma_trim_range(s.drop_first(), 0, 0);
            assert(s.drop_first().subrange(0, 0) =~= s.subrange(0, 0));
        }
    } else if s.len() > 0 && is_white(s.last()) {
        assert(j < s.len());
        lemma_trim_range(s.drop_last(), i, j);
        assert(s.drop_last().subrange(i, j) =~= s.subrange(i, j));
    } else {
        if s.len() > 0 {
            assert(i == 0);
            assert(j == s.len());
        }
        assert(s.subrange(i, j) =~= s);
    }
}

/// The number that an input line holds, white space around it allowed.
pub fn get_user_number(input: &str) -> (r: Option<usize>)
    ensures
        r == number_of(trim_white(input@)),
{
    let n = input.unicode_len();
    let mut i: usize = 0;
    while i < n && is_white_char(input.get_char(i))
        invariant
            n == input@.len(),
            i <= n,
            forall|k: int| 0 <= k < i ==> is_white(#[trigger] input@[k]),
        decreases n - i,
    {
        i = i + 1;
    }
    let mut j: usize = n;
    while j > i && is_white_char(input.get_char(j - 1))
        invariant
            n == input@.len(),
            i <= j <= n,
            forall|k: int| j <= k < n ==> is_white(#[trigger] input@[k]),
        decreases j - i,
    {
        j = j - 1;
    }
    proof {
        lemma_trim_range(input@, i as int, j as int);
    }
    parse_number(input, i, j)
}

/// Reads coordinates written `x,y` anywhere in a text. The pattern is
/// compiled once, when the parser is made.
pub struct CoordinateParser {
    filter: Regex,
}

impl CoordinateParser {
    /// A parser; the pattern always compiles.
    pub fn new() -> (r: Option<CoordinateParser>)
        ensures
            r is Some,
    {
        match Regex::new("([\\d]+,[\\d]+)+") {
            Ok(filter) => Some(CoordinateParser { filter }),
            Err(_) => None,
        }
    }

    /// Relies on regex::Regex::find_iter and regex::Match::as_str: the
    /// text of each match of the pattern compiled in `new`, left to right.
    #[verifier::external_body]
    fn find_pairs(&self, input: &str) -> (r: Vec<String>)
        ensures
            string_views(r@) == digit_pair_matches(input@),
    {
        self.filter.find_iter(input).map(|m| m.as_str().to_string()).collect()
    }

    /// The coordinates written `x,y` in `input`, in order. Text around them
    /// is ignored, and so is a match whose numbers do not fit a `usize`.
    pub fn parse_string_to_coordinates(&self, input: &str) -> (r: Vec<(usize, usize)>)
        ensures
            r@ == pairs_of(digit_pair_matches(input@)),
    {
        let tokens = self.find_pairs(input);
        coordinates_from_tokens(&tokens)
    }
}

} // verus!
