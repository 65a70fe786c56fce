//! Character-level reading of assembly source: lines, trimming, tokens and
//! numbers, each as a spec function over `Seq<char>` and an executable
//! function over `Vec<char>` that computes it.
use vstd::prelude::*;

verus! {

broadcast use vstd::string::group_string_axioms;

// ---------------------------------------------------------------------------
// Whitespace and trimming

/// Unicode White_Space, the characters that `str::trim` removes.
pub open spec fn is_whitespace(c: char) -> bool {
    c == '\t' || c == '\n' || c == '\u{0B}' || c == '\u{0C}' || c == '\r' || c == ' '
        || c == '\u{85}' || c == '\u{A0}' || c == '\u{1680}' || ('\u{2000}' <= c
        && c <= '\u{200A}') || c == '\u{2028}' || c == '\u{2029}' || c == '\u{202F}'
        || c == '\u{205F}' || c == '\u{3000}'
}

/// The first index at or after `i` that does not hold whitespace (or the length).
pub open spec fn skip_ws(s: Seq<char>, i: int) -> int
    decreases s.len() - i,
{
    if 0 <= i < s.len() && is_whitespace(s[i]) {
        skip_ws(s, i + 1)
    } else {
        i
    }
}

/// Moving down from `j`, the first end index above `lo` whose previous
/// character is not whitespace (or `lo`).
pub open spec fn back_ws(s: Seq<char>, lo: int, j: int) -> int
    decreases j - lo,
{
    if lo < j && j <= s.len() && is_whitespace(s[j - 1]) {
        back_ws(s, lo, j - 1)
    } else {
        j
    }
}

/// `s` without leading and trailing whitespace.
pub open spec fn trim(s: Seq<char>) -> Seq<char> {
    let a = skip_ws(s, 0);
    s.subrange(a, back_ws(s, a, s.len() as int))
}

pub fn is_whitespace_char(c: char) -> (b: bool)
    ensures
        b == is_whitespace(c),
{
    c == '\t' || c == '\n' || c == '\u{0B}' || c == '\u{0C}' || c == '\r' || c == ' ' || c
        == '\u{85}' || c == '\u{A0}' || c == '\u{1680}' || ('\u{2000}' <= c && c <= '\u{200A}')
        || c == '\u{2028}' || c == '\u{2029}' || c == '\u{202F}' || c == '\u{205F}' || c
        == '\u{3000}'
}

/// The characters `s[from..to]`.
pub fn copy_range(s: &Vec<char>, from: usize, to: usize) -> (r: Vec<char>)
    requires
        from <= to <= s@.len(),
    ensures
        r@ == s@.subrange(from as int, to as int),
{
    let mut r: Vec<char> = Vec::new();
    let mut i = from;
    while i < to
        invariant
            from <= i <= to <= s@.len(),
            r@ == s@.subrange(from as int, i as int),
        decreases to - i,
    {
        r.push(s[i]);
        i += 1;
        assert(r@ =~= s@.subrange(from as int, i as int));
    }
    r
}

/// `s` without leading and trailing whitespace.
pub fn trim_chars(s: &Vec<char>) -> (r: Vec<char>)
    ensures
        r@ == trim(s@),
{
    let n = s.len();
    let mut a: usize = 0;
    while a < n && is_whitespace_char(s[a])
        invariant
            a <= n == s@.len(),
            skip_ws(s@, a as int) == skip_ws(s@, 0),
        decreases n - a,
    {
        a += 1;
    }
    let mut b: usize = n;
    while b > a && is_whitespace_char(s[b - 1])
        invariant
            a <= b <= n == s@.len(),
            back_ws(s@, a as int, b as int) == back_ws(s@, a as int, n as int),
            skip_ws(s@, a as int) == skip_ws(s@, 0),
            skip_ws(s@, a as int) == a,
        decreases b - a,
    {
        b -= 1;
    }
    copy_range(s, a, b)
}


// ---------------------------------------------------------------------------
// Lines

/// The first index at or after `i` holding `c` (or the length).
pub open spec fn find_char(s: Seq<char>, c: char, i: int) -> int
    decreases s.len() - i,
{
    if i < 0 || i >= s.len() {
        s.len() as int
    } else if s[i] == c {
        i
    } else {
        find_char(s, c, i + 1)
    }
}

pub proof fn lemma_find_char_bounds(s: Seq<char>, c: char, i: int)
    requires
        0 <= i <= s.len(),
    ensures
        i <= find_char(s, c, i) <= s.len(),
        find_char(s, c, i) < s.len() ==> s[find_char(s, c, i)] == c,
    decreases s.len() - i,
{
    if i < s.len() && s[i] != c {
        lemma_find_char_bounds(s, c, i + 1);
    }
}

/// The pieces of `s[start..]` between the separators `c`.
pub open spec fn split_from(s: Seq<char>, c: char, start: int) -> Seq<Seq<char>>
    decreases s.len() - start,
{
    if start < 0 || start > s.len() {
        Seq::empty()
    } else {
        let k = find_char(s, c, start);
        if k >= s.len() {
            seq![s.subrange(start, s.len() as int)]
        } else {
            proof {
                lemma_find_char_bounds(s, c, start);
            }
            seq![s.subrange(start, k)] + split_from(s, c, k + 1)
        }
    }
}

/// The lines of a text: the pieces between line feeds. (A carriage return
/// before a line feed stays in its line, and a text that ends in a line feed
/// has an empty last line; the assembler trims every line and skips empty
/// ones, so neither changes what it reads.)
pub open spec fn lines_of(s: Seq<char>) -> Seq<Seq<char>> {
    split_from(s, '\n', 0)
}

/// The characters of `s`.
pub fn chars_of(s: &str) -> (r: Vec<char>)
    ensures
        r@ == s@,
{
    let mut r: Vec<char> = Vec::new();
    for c in it: s.chars()
        invariant
            r@ == it.seq().take(it.index() as int),
    {
        r.push(c);
    }
    assert(r@ =~= s@);
    r
}

/// The first index at or after `from` holding `c` (or the length).
pub fn find_char_from(s: &Vec<char>, c: char, from: usize) -> (k: usize)
    requires
        from <= s@.len(),
    ensures
        k == find_char(s@, c, from as int),
        from <= k <= s@.len(),
{
    let mut k = from;
    while k < s.len() && s[k] != c
        invariant
            from <= k <= s@.len(),
            find_char(s@, c, k as int) == find_char(s@, c, from as int),
        decreases s@.len() - k,
    {
        k += 1;
    }
    k
}

/// The character sequences of a sequence of character vectors.
pub open spec fn seqs_of(v: Seq<Vec<char>>) -> Seq<Seq<char>> {
    v.map_values(|x: Vec<char>| x@)
}

/// The lines of `s` (see `lines_of`).
pub fn split_lines(s: &Vec<char>) -> (r: Vec<Vec<char>>)
    ensures
        seqs_of(r@) == lines_of(s@),
{
    let mut r: Vec<Vec<char>> = Vec::new();
    let mut start: usize = 0;
    loop
        invariant
            start <= s@.len(),
            seqs_of(r@) + split_from(s@, '\n', start as int) == lines_of(s@),
        decreases s@.len() - start,
    {
        let k = find_char_from(s, '\n', start);
        let piece = copy_range(s, start, k);
        let ghost before = seqs_of(r@);
        r.push(piece);
        assert(seqs_of(r@) =~= before.push(piece@));
        if k >= s.len() {
            assert(split_from(s@, '\n', start as int) =~= seq![piece@]);
            assert(seqs_of(r@) =~= lines_of(s@));
            return r;
        }
        assert(split_from(s@, '\n', start as int) == seq![piece@] + split_from(s@, '\n', k + 1));
        assert(seqs_of(r@) + split_from(s@, '\n', k + 1) =~= before + split_from(
            s@,
            '\n',
            start as int,
        ));
        start = k + 1;
    }
}


// ---------------------------------------------------------------------------
// Tokens

/// The characters that separate tokens: space, comma and tab.
pub open spec fn is_delimiter(c: char) -> bool {
    c == ' ' || c == ',' || c == '\t'
}

/// The first index at or after `i` that holds no delimiter (or the length).
pub open spec fn skip_delims(s: Seq<char>, i: int) -> int
    decreases s.len() - i,
{
    if 0 <= i < s.len() && is_delimiter(s[i]) {
        skip_delims(s, i + 1)
    } else {
        i
    }
}

/// The first index at or after `i` that holds a delimiter (or the length).
pub open spec fn token_end(s: Seq<char>, i: int) -> int
    decreases s.len() - i,
{
    if 0 <= i < s.len() && !is_delimiter(s[i]) {
        token_end(s, i + 1)
    } else {
        i
    }
}

pub proof fn lemma_skip_delims(s: Seq<char>, i: int)
    requires
        0 <= i <= s.len(),
    ensures
        i <= skip_delims(s, i) <= s.len(),
        skip_delims(s, i) < s.len() ==> !is_delimiter(s[skip_delims(s, i)]),
    decreases s.len() - i,
{
    if i < s.len() && is_delimiter(s[i]) {
        lemma_skip_delims(s, i + 1);
    }
}

pub proof fn lemma_token_end(s: Seq<char>, i: int)
    requires
        0 <= i <= s.len(),
    ensures
        i <= token_end(s, i) <= s.len(),
        i < s.len() && !is_delimiter(s[i]) ==> token_end(s, i) > i,
    decreases s.len() - i,
{
    if i < s.len() && !is_delimiter(s[i]) {
        lemma_token_end(s, i + 1);
    }
}

/// The tokens of `s[i..]`: its maximal runs of characters other than
/// delimiters, in order.
pub open spec fn tokens_from(s: Seq<char>, i: int) -> Seq<Seq<char>>
    decreases s.len() - i,
{
    if i < 0 || i > s.len() {
        Seq::empty()
    } else {
        let a = skip_delims(s, i);
        if a >= s.len() {
            Seq::empty()
        } else {
            proof {
                lemma_skip_delims(s, i);
                lemma_token_end(s, a);
            }
            let b = token_end(s, a);
            seq![s.subrange(a, b)] + tokens_from(s, b)
        }
    }
}

/// The tokens of `s`: what splitting at spaces, commas and tabs and dropping
/// the empty pieces leaves.
pub open spec fn tokens(s: Seq<char>) -> Seq<Seq<char>> {
    tokens_from(s, 0)
}

pub fn is_delimiter_char(c: char) -> (b: bool)
    ensures
        b == is_delimiter(c),
{
    c == ' ' || c == ',' || c == '\t'
}

/// The tokens of `s` (see `tokens`).
pub fn split_tokens(s: &Vec<char>) -> (r: Vec<Vec<char>>)
    ensures
        seqs_of(r@) == tokens(s@),
{
    let n = s.len();
    let mut r: Vec<Vec<char>> = Vec::new();
    let mut i: usize = 0;
    loop
        invariant
            n == s@.len(),
            i <= n,
            seqs_of(r@) + tokens_from(s@, i as int) == tokens(s@),
        decreases n - i,
    {
        let mut a = i;
        while a < n && is_delimiter_char(s[a])
            invariant
                i <= a <= n == s@.len(),
                skip_delims(s@, a as int) == skip_delims(s@, i as int),
            decreases n - a,
        {
            a += 1;
        }
        if a >= n {
            assert(tokens_from(s@, i as int) =~= Seq::<Seq<char>>::empty());
            assert(seqs_of(r@) =~= tokens(s@));
            return r;
        }
        let mut b = a;
        while b < n && !is_delimiter_char(s[b])
            invariant
                a <= b <= n == s@.len(),
                token_end(s@, b as int) == token_end(s@, a as int),
            decreases n - b,
        {
            b += 1;
        }
        proof {
            lemma_skip_delims(s@, i as int);
            lemma_token_end(s@, a as int);
        }
        let piece = copy_range(s, a, b);
        let ghost before = seqs_of(r@);
        r.push(piece);
        assert(seqs_of(r@) =~= before.push(piece@));
        assert(tokens_from(s@, i as int) == seq![piece@] + tokens_from(s@, b as int));
        assert(seqs_of(r@) + tokens_from(s@, b as int) =~= before + tokens_from(s@, i as int));
        i = b;
    }
}

// ---------------------------------------------------------------------------
// Numbers

/// The value of a digit in base 10 or 16 (hex digits in either case).
pub open spec fn digit_value(c: char, radix: nat) -> Option<nat> {
    if '0' <= c && c <= '9' {
        Some((c as int - '0' as int) as nat)
    } else if radix == 16 && 'a' <= c && c <= 'f' {
        Some((c as int - 'a' as int + 10) as nat)
    } else if radix == 16 && 'A' <= c && c <= 'F' {
        Some((c as int - 'A' as int + 10) as nat)
    } else {
        None
    }
}

/// The value of a string of digits (0 for no digits), `None` when a
/// character is not a digit.
pub open spec fn digits_value(s: Seq<char>, radix: nat) -> Option<nat>
    decreases s.len(),
{
    if s.len() == 0 {
        Some(0)
    } else {
        match (digits_value(s.drop_last(), radix), digit_value(s.last(), radix)) {
            (Some(v), Some(d)) => Some(v * radix + d),
            _ => None,
        }
    }
}

/// The value that `from_str_radix` reads for an unsigned type, before its
/// range check: an optional `+`, then one or more digits and nothing else.
pub open spec fn unsigned_value(s: Seq<char>, radix: nat) -> Option<nat> {
    let body = if s.len() > 0 && s[0] == '+' {
        s.drop_first()
    } else {
        s
    };
    if body.len() == 0 {
        None
    } else {
        digits_value(body, radix)
    }
}

/// A bound above every value that fits in 16 bits.
pub const NUMBER_CAP: u32 = 65536;

pub open spec fn capped(v: nat) -> u32 {
    if v < NUMBER_CAP {
        v as u32
    } else {
        NUMBER_CAP
    }
}

proof fn lemma_digits_none_extends(s: Seq<char>, radix: nat, i: int, j: int)
    requires
        0 <= i <= j <= s.len(),
        digits_value(s.take(i), radix) is None,
    ensures
        digits_value(s.take(j), radix) is None,
    decreases j - i,
{
    if i < j {
        lemma_digits_none_extends(s, radix, i, j - 1);
        assert(s.take(j).drop_last() =~= s.take(j - 1));
    }
}

fn digit_of(c: char, radix: u32) -> (r: Option<u32>)
    requires
        radix == 10 || radix == 16,
    ensures
        r matches Some(d) ==> digit_value(c, radix as nat) == Some(d as nat) && d < radix,
        r is None ==> digit_value(c, radix as nat) is None,
{
    if '0' <= c && c <= '9' {
        Some((c as u32) - ('0' as u32))
    } else if radix == 16 && 'a' <= c && c <= 'f' {
        Some((c as u32) - ('a' as u32) + 10)
    } else if radix == 16 && 'A' <= c && c <= 'F' {
        Some((c as u32) - ('A' as u32) + 10)
    } else {
        None
    }
}

/// Reads `s[start..]` as an unsigned number in base `radix` (see
/// `unsigned_value`); a value of 65536 or more comes back as 65536.
pub fn parse_unsigned(s: &Vec<char>, start: usize, radix: u32) -> (r: Option<u32>)
    requires
        radix == 10 || radix == 16,
        start <= s@.len(),
    ensures
        r matches Some(v) ==> unsigned_value(s@.skip(start as int), radix as nat) matches Some(
            w,
        ) && v == capped(w),
        r is None ==> unsigned_value(s@.skip(start as int), radix as nat) is None,
{
    let ghost t = s@.skip(start as int);
    let n = s.len();
    let mut b = start;
    if b < n && s[b] == '+' {
        b += 1;
    }
    let ghost body = s@.skip(b as int);
    assert(body =~= (if t.len() > 0 && t[0] == '+' {
        t.drop_first()
    } else {
        t
    }));
    if b >= n {
        return None;
    }
    let mut acc: u32 = 0;
    let mut i = b;
    while i < n
        invariant
            b <= i <= n == s@.len(),
            b < n,
            body == s@.skip(b as int),
            t == s@.skip(start as int),
            body == (if t.len() > 0 && t[0] == '+' {
                t.drop_first()
            } else {
                t
            }),
            radix == 10 || radix == 16,
            digits_value(body.take(i - b), radix as nat) matches Some(w) && acc == capped(w),
        decreases n - i,
    {
        let ghost w = digits_value(body.take(i - b), radix as nat)->Some_0;
        assert(body.take(i - b + 1).drop_last() =~= body.take(i - b));
        assert(body.take(i - b + 1).last() == s@[i as int]);
        match digit_of(s[i], radix) {
            None => {
                proof {
                    assert(digits_value(body.take(i - b + 1), radix as nat) is None);
                    lemma_digits_none_extends(body, radix as nat, i - b + 1, body.len() as int);
                    assert(body.take(body.len() as int) =~= body);
                    assert(body.len() > 0);
                    assert(unsigned_value(t, radix as nat) == digits_value(body, radix as nat));
                }
                return None;
            },
            Some(d) => {
                if acc >= NUMBER_CAP {
                    assert(w * radix + d >= NUMBER_CAP) by (nonlinear_arith)
                        requires
                            w >= NUMBER_CAP,
                            radix >= 10,
                    ;
                } else {
                    assert(acc * radix + d < 0x1_0000_0000) by (nonlinear_arith)
                        requires
                            acc < NUMBER_CAP,
                            radix <= 16,
                            d < radix,
                    ;
                    let next = acc * radix + d;
                    acc = if next >= NUMBER_CAP {
                        NUMBER_CAP
                    } else {
                        next
                    };
                }
            },
        }
        i += 1;
    }
    assert(body.take(n - b) =~= body);
    Some(acc)
}

// ---------------------------------------------------------------------------
// Calls into std that vstd does not specify

/// Names what `str::to_lowercase` returns for a string: its Unicode
/// lowercase mapping.
pub uninterp spec fn lowercase(s: Seq<char>) -> Seq<char>;

/// The ASCII lowercase of a character (the identity outside `A`-`Z`).
pub open spec fn ascii_lower(c: char) -> char {
    if 'A' <= c && c <= 'Z' {
        (c as u32 + 32) as char
    } else {
        c
    }
}

/// Calls `str::to_lowercase` on the string of `s`. Claimed: the result is
/// `lowercase(s)`, and for ASCII text it is the ASCII lowercase of each
/// character. The full Unicode mapping is not stated.
#[verifier::external_body]
pub fn to_lowercase(s: &Vec<char>) -> (r: Vec<char>)
    ensures
        r@ == lowercase(s@),
        (forall|i: int| 0 <= i < s@.len() ==> (s@[i] as u32) < 128) ==> r@ == s@.map_values(
            |c: char| ascii_lower(c),
        ),
{
    let text: String = s.iter().collect();
    text.to_lowercase().chars().collect()
}

/// Collects characters into a `String` (`FromIterator<&char> for String`).
/// Claimed: the string holds exactly these characters.
#[verifier::external_body]
pub fn string_of(s: &Vec<char>) -> (r: String)
    ensures
        r@ == s@,
{
    s.iter().collect()
}

} // verus!
