use crate::error::{Error, ErrorKind};
use vstd::prelude::*;

verus! {

// ---------------------------------------------------------------------------
// Pattern tokens
// ---------------------------------------------------------------------------

/// Represents a single byte in a search pattern: an exact value, or a
/// wildcard that matches any byte.
#[derive(Clone, Copy, PartialEq, Eq, Structural, Debug)]
pub enum PatternByte {
    /// Matches exactly this byte value.
    Byte(u8),
    /// Matches any byte.
    Any,
}

/// Whether `c` is one of the ASCII whitespace characters that separate
/// pattern tokens: space, tab, line feed, carriage return, or form feed.
pub open spec fn is_pattern_space(c: char) -> bool {
    c == ' ' || c == '\t' || c == '\n' || c == '\r' || c == '\x0c'
}

/// Whether `c` is an ASCII hex digit. The code point ranges are `'0'..='9'`
/// (48 to 57), `'a'..='f'` (97 to 102) and `'A'..='F'` (65 to 70).
pub open spec fn is_hex_digit(c: char) -> bool {
    ||| 48 <= c as int <= 57
    ||| 97 <= c as int <= 102
    ||| 65 <= c as int <= 70
}

/// The numeric value of the hex digit `c` (meaningful when `is_hex_digit(c)`).
pub open spec fn hex_digit_value(c: char) -> int {
    if 48 <= c as int <= 57 {
        c as int - 48
    } else if 97 <= c as int <= 102 {
        c as int - 87
    } else {
        c as int - 55
    }
}

/// Whether `t` is a well-formed pattern token: the single character `?`, or
/// one or two hex digits.
pub open spec fn token_valid(t: Seq<char>) -> bool {
    ||| (t.len() == 1 && t[0] == '?')
    ||| (1 <= t.len() <= 2 && forall|k: int| 0 <= k < t.len() ==> is_hex_digit(#[trigger] t[k]))
}

/// The matcher denoted by a valid token: `?` is a wildcard, hex digits give
/// an exact byte value (meaningful when `token_valid(t)`).
pub open spec fn token_byte(t: Seq<char>) -> PatternByte {
    if t.len() == 1 && t[0] == '?' {
        PatternByte::Any
    } else if t.len() == 1 {
        PatternByte::Byte(hex_digit_value(t[0]) as u8)
    } else {
        PatternByte::Byte((hex_digit_value(t[0]) * 16 + hex_digit_value(t[1])) as u8)
    }
}

// ---------------------------------------------------------------------------
// Splitting a pattern string into tokens
// ---------------------------------------------------------------------------

/// Index just past the maximal run of non-whitespace characters of `s`
/// starting at `i`.
pub open spec fn token_end(s: Seq<char>, i: int) -> int
    decreases s.len() - i,
{
    if i < 0 || i >= s.len() || is_pattern_space(s[i]) {
        i
    } else {
        token_end(s, i + 1)
    }
}

/// `token_end(s, i)` is at most `s.len()`, every character of the run is
/// non-whitespace, and the run is maximal.
pub proof fn lemma_token_end(s: Seq<char>, i: int)
    requires
        0 <= i <= s.len(),
    ensures
        i <= token_end(s, i) <= s.len(),
        forall|k: int| i <= k < token_end(s, i) ==> !is_pattern_space(s[k]),
        token_end(s, i) < s.len() ==> is_pattern_space(s[token_end(s, i)]),
    decreases s.len() - i,
{
    if i < s.len() && !is_pattern_space(s[i]) {
        lemma_token_end(s, i + 1);
    }
}

/// `token_end(s, i)` is the first whitespace position (or the end) after a
/// run of non-whitespace characters.
pub proof fn lemma_token_end_run(s: Seq<char>, i: int, j: int)
    requires
        0 <= i < j <= s.len(),
        forall|k: int| i <= k < j ==> !is_pattern_space(s[k]),
        j < s.len() ==> is_pattern_space(s[j]),
    ensures
        token_end(s, i) == j,
    decreases j - i,
{
    assert(!is_pattern_space(s[i]));
    if i + 1 < j {
        lemma_token_end_run(s, i + 1, j);
        assert(token_end(s, i) == token_end(s, i + 1));
    } else {
        assert(token_end(s, j) == j);
        assert(token_end(s, i) == token_end(s, j));
    }
}

/// The whitespace-separated tokens of `s` from position `i` on.
pub open spec fn tokens_from(s: Seq<char>, i: int) -> Seq<Seq<char>>
    decreases s.len() - i,
    via tokens_from_decreases
{
    if i < 0 || i >= s.len() {
        Seq::empty()
    } else if is_pattern_space(s[i]) {
        tokens_from(s, i + 1)
    } else {
        seq![s.subrange(i, token_end(s, i))] + tokens_from(s, token_end(s, i))
    }
}

#[via_fn]
proof fn tokens_from_decreases(s: Seq<char>, i: int) {
    if 0 <= i && i < s.len() && !is_pattern_space(s[i]) {
        lemma_token_end(s, i + 1);
    }
}

/// The whitespace-separated tokens of the pattern string `s`.
pub open spec fn tokens_of(s: Seq<char>) -> Seq<Seq<char>> {
    tokens_from(s, 0)
}

/// Whether every token of the pattern string `s` is well formed.
pub open spec fn pattern_valid(s: Seq<char>) -> bool {
    forall|k: int| 0 <= k < tokens_of(s).len() ==> token_valid(#[trigger] tokens_of(s)[k])
}

/// The compiled form of the pattern string `s`: one matcher per token
/// (meaningful when `pattern_valid(s)`).
pub open spec fn spec_pattern(s: Seq<char>) -> Seq<PatternByte> {
    tokens_of(s).map_values(|t: Seq<char>| token_byte(t))
}

// ---------------------------------------------------------------------------
// What it means for a pattern to match
// ---------------------------------------------------------------------------

/// Whether pattern position `t` accepts the byte `b`.
pub open spec fn token_matches(t: PatternByte, b: u8) -> bool {
    match t {
        PatternByte::Byte(v) => v == b,
        PatternByte::Any => true,
    }
}

/// Pattern `p` matches in `s` at offset `i`: the whole pattern fits within
/// the remaining bytes, and every pattern position accepts its byte. A
/// pattern longer than the remaining tail never matches there.
pub open spec fn matches_at(s: Seq<u8>, p: Seq<PatternByte>, i: int) -> bool {
    &&& 0 <= i
    &&& i + p.len() <= s.len()
    &&& forall|k: int| 0 <= k < p.len() ==> #[trigger] token_matches(p[k], s[i + k])
}

/// Whether `r` lists its offsets in strictly ascending order (so also with
/// no duplicates).
pub open spec fn strictly_ascending(r: Seq<usize>) -> bool {
    forall|a: int, b: int| 0 <= a < b < r.len() ==> r[a] < r[b]
}

/// Whether `r` is the listing of all matches of `p` in `s`: strictly
/// ascending, every listed offset is a match, and every match offset is
/// listed. Such a listing is unique (see
/// [`lemma_match_listing_unique`](crate::lemma_match_listing_unique)).
pub open spec fn is_match_listing(s: Seq<u8>, p: Seq<PatternByte>, r: Seq<usize>) -> bool {
    &&& strictly_ascending(r)
    &&& forall|a: int| 0 <= a < r.len() ==> matches_at(s, p, #[trigger] r[a] as int)
    &&& forall|k: int| 0 <= k && #[trigger] matches_at(s, p, k) ==> r.contains(k as usize)
}

// ---------------------------------------------------------------------------
// The compiled pattern
// ---------------------------------------------------------------------------

/// Represents a pattern to search for in a byte string: an ordered, immutable
/// list of byte matchers. Its view is that list, as a `Seq<PatternByte>`.
pub struct Pattern {
    tokens: Vec<PatternByte>,
}

impl View for Pattern {
    type V = Seq<PatternByte>;

    closed spec fn view(&self) -> Seq<PatternByte> {
        self.tokens@
    }
}

impl Pattern {
    /// Build a pattern directly from a list of matchers.
    pub fn new(tokens: Vec<PatternByte>) -> (p: Self)
        ensures
            p@ == tokens@,
    {
        Pattern { tokens }
    }

    /// The number of tokens in the pattern.
    pub fn len(&self) -> (n: usize)
        ensures
            n == self@.len(),
    {
        self.tokens.len()
    }

    /// Compile a pattern string: whitespace-separated tokens, each either `?`
    /// or one or two hex digits. An empty or all-whitespace string yields a
    /// zero-length pattern. Fails exactly when some token is malformed, and
    /// reads no source byte.
    pub fn parse(s: &str) -> (r: Result<Self, Error>)
        ensures
            match r {
                Ok(p) => pattern_valid(s@) && p@ == spec_pattern(s@),
                Err(e) => !pattern_valid(s@) && e.kind == ErrorKind::InvalidPatternToken,
            },
    {
        let n = s.unicode_len();
        let mut toks: Vec<PatternByte> = Vec::new();
        let mut i: usize = 0;
        let ghost f = |t: Seq<char>| token_byte(t);
        let ghost mut done: Seq<Seq<char>> = Seq::empty();
        proof {
            assert(tokens_of(s@) =~= done + tokens_from(s@, 0));
        }
        while i < n
            invariant
                i <= n,
                n == s@.len(),
                tokens_of(s@) == done + tokens_from(s@, i as int),
                forall|k: int| 0 <= k < done.len() ==> token_valid(#[trigger] done[k]),
                toks@ == done.map_values(f),
                f == (|t: Seq<char>| token_byte(t)),
            decreases n - i,
        {
            let c = s.get_char(i);
            if is_space_char(c) {
                proof {
                    assert(tokens_from(s@, i as int) == tokens_from(s@, i + 1));
                }
                i = i + 1;
            } else {
                let mut j = i + 1;
                while j < n && !is_space_char(s.get_char(j))
                    invariant
                        i < j <= n,
                        n == s@.len(),
                        forall|k: int| i <= k < j ==> !is_pattern_space(s@[k]),
                    decreases n - j,
                {
                    j = j + 1;
                }
                let ghost t = s@.subrange(i as int, j as int);
                proof {
                    lemma_token_end_run(s@, i as int, j as int);
                    assert(tokens_from(s@, i as int) == seq![t] + tokens_from(s@, j as int));
                }
                match parse_token(s, i, j) {
                    Ok(b) => {
                        toks.push(b);
                        proof {
                            let prev = done;
                            done = done.push(t);
                            assert(done =~= prev + seq![t]);
                            assert(done + tokens_from(s@, j as int) =~= prev + (seq![t]
                                + tokens_from(s@, j as int)));
                            assert(toks@ =~= done.map_values(f));
                        }
                        i = j;
                    },
                    Err(e) => {
                        proof {
                            let idx = done.len() as int;
                            assert(tokens_of(s@)[idx] == t);
                            assert(!token_valid(tokens_of(s@)[idx]));
                        }
                        return Err(e);
                    },
                }
            }
        }
        proof {
            assert(tokens_from(s@, n as int) =~= Seq::<Seq<char>>::empty());
            assert(tokens_of(s@) =~= done);
            assert(spec_pattern(s@) == done.map_values(f));
        }
        Ok(Pattern { tokens: toks })
    }
}

impl PatternByte {
    /// Parse a single pattern token: `?`, or one or two hex digits. Fails
    /// exactly when the string is no well-formed token.
    pub fn parse(s: &str) -> (r: Result<Self, Error>)
        ensures
            match r {
                Ok(b) => token_valid(s@) && b == token_byte(s@),
                Err(e) => !token_valid(s@) && e.kind == ErrorKind::InvalidPatternToken,
            },
    {
        let n = s.unicode_len();
        if n == 0 {
            Err(Error::invalid_token())
        } else {
            let r = parse_token(s, 0, n);
            proof {
                assert(s@.subrange(0, n as int) =~= s@);
            }
            r
        }
    }
}

/// Whether `c` separates pattern tokens.
fn is_space_char(c: char) -> (b: bool)
    ensures
        b == is_pattern_space(c),
{
    c == ' ' || c == '\t' || c == '\n' || c == '\r' || c == '\x0c'
}

/// The numeric value of `c` as a hex digit, if it is one.
fn hex_value_of(c: char) -> (r: Option<u8>)
    ensures
        match r {
            Some(v) => is_hex_digit(c) && v == hex_digit_value(c),
            None => !is_hex_digit(c),
        },
{
    let u = c as u32;
    if 48 <= u && u <= 57 {
        Some((u - 48) as u8)
    } else if 97 <= u && u <= 102 {
        Some((u - 97 + 10) as u8)
    } else if 65 <= u && u <= 70 {
        Some((u - 65 + 10) as u8)
    } else {
        None
    }
}

/// Parse the token standing at `s[start..end]`.
fn parse_token(s: &str, start: usize, end: usize) -> (r: Result<PatternByte, Error>)
    requires
        start < end <= s@.len(),
    ensures
        match r {
            Ok(b) => token_valid(s@.subrange(start as int, end as int)) && b == token_byte(
                s@.subrange(start as int, end as int),
            ),
            Err(e) => !token_valid(s@.subrange(start as int, end as int)) && e.kind
                == ErrorKind::InvalidPatternToken,
        },
{
    let ghost t = s@.subrange(start as int, end as int);
    let n = end - start;
    if n == 1 {
        let c = s.get_char(start);
        assert(t.len() == 1 && t[0] == c);
        if c == '?' {
            Ok(PatternByte::Any)
        } else {
            match hex_value_of(c) {
                Some(v) => Ok(PatternByte::Byte(v)),
                None => Err(Error::invalid_token()),
            }
        }
    } else if n == 2 {
        let c0 = s.get_char(start);
        let c1 = s.get_char(start + 1);
        assert(t.len() == 2 && t[0] == c0 && t[1] == c1);
        match hex_value_of(c0) {
            Some(a) => match hex_value_of(c1) {
                Some(b) => Ok(PatternByte::Byte(16 * a + b)),
                None => Err(Error::invalid_token()),
            },
            None => Err(Error::invalid_token()),
        }
    } else {
        assert(t.len() > 2);
        Err(Error::invalid_token())
    }
}

// ---------------------------------------------------------------------------
// Matching a pattern against resident bytes
// ---------------------------------------------------------------------------

/// Whether `pattern` matches the bytes of `bytes` starting at `start`.
pub(crate) fn matches_from(bytes: &[u8], start: usize, pattern: &Pattern) -> (b: bool)
    requires
        start + pattern@.len() <= bytes@.len(),
    ensures
        b == matches_at(bytes@, pattern@, start as int),
{
    let l = pattern.len();
    let blen = bytes.len();
    let mut k: usize = 0;
    while k < l
        invariant
            k <= l,
            l == pattern@.len(),
            blen == bytes@.len(),
            start + l <= bytes@.len(),
            forall|m: int| 0 <= m < k ==> #[trigger] token_matches(pattern@[m], bytes@[start + m]),
        decreases l - k,
    {
        let pb = pattern.get(k);
        let byte = bytes[start + k];
        match pb {
            PatternByte::Byte(v) => {
                if v != byte {
                    assert(!token_matches(pattern@[k as int], bytes@[start + k]));
                    return false;
                }
            },
            PatternByte::Any => {},
        }
        assert(token_matches(pattern@[k as int], bytes@[start + k]));
        k = k + 1;
    }
    true
}

impl Pattern {
    /// The matcher at position `k`.
    pub fn get(&self, k: usize) -> (b: PatternByte)
        requires
            k < self@.len(),
        ensures
            b == self@[k as int],
    {
        self.tokens[k]
    }
}

/// Determine whether a byte slice matches a pattern at its very start: true
/// exactly when the pattern fits within `bytes` and every pattern position
/// accepts its byte.
pub fn pattern_matches(bytes: &[u8], pattern: &Pattern) -> (b: bool)
    ensures
        b == matches_at(bytes@, pattern@, 0),
{
    let l = pattern.len();
    if l > bytes.len() {
        false
    } else {
        matches_from(bytes, 0, pattern)
    }
}

} // verus!
