//! Text utilities: whitespace tokenization, prefix stripping, and
//! decimal rendering of numbers, all specified over character sequences.

use vstd::prelude::*;

verus! {

/// The whitespace characters commands are split on.
pub open spec fn is_space(c: char) -> bool {
    c == ' ' || c == '\t' || c == '\n' || c == '\r' || c == '\u{b}' || c == '\u{c}'
}

/// Decides [`is_space`].
pub fn is_space_char(c: char) -> (b: bool)
    ensures
        b == is_space(c),
{
    c == ' ' || c == '\t' || c == '\n' || c == '\r' || c == '\u{b}' || c == '\u{c}'
}

/// The first position at or after `i` that is not whitespace (or the end).
pub open spec fn ws_end(s: Seq<char>, i: int) -> int
    decreases s.len() - i,
        when 0 <= i <= s.len()
{
    if i < s.len() && is_space(s[i]) {
        ws_end(s, i + 1)
    } else {
        i
    }
}

/// The first position at or after `i` that is whitespace (or the end).
pub open spec fn tok_end(s: Seq<char>, i: int) -> int
    decreases s.len() - i,
        when 0 <= i <= s.len()
{
    if i < s.len() && !is_space(s[i]) {
        tok_end(s, i + 1)
    } else {
        i
    }
}

pub proof fn lemma_ws_end_bounds(s: Seq<char>, i: int)
    requires
        0 <= i <= s.len(),
    ensures
        i <= ws_end(s, i) <= s.len(),
    decreases s.len() - i,
{
    if i < s.len() && is_space(s[i]) {
        lemma_ws_end_bounds(s, i + 1);
    }
}

pub proof fn lemma_tok_end_bounds(s: Seq<char>, i: int)
    requires
        0 <= i <= s.len(),
    ensures
        i <= tok_end(s, i) <= s.len(),
    decreases s.len() - i,
{
    if i < s.len() && !is_space(s[i]) {
        lemma_tok_end_bounds(s, i + 1);
    }
}

/// Whitespace skipping stops at the end or at a non-whitespace character.
pub proof fn lemma_ws_end_stop(s: Seq<char>, i: int)
    requires
        0 <= i <= s.len(),
    ensures
        ws_end(s, i) == s.len() || !is_space(s[ws_end(s, i)]),
    decreases s.len() - i,
{
    if i < s.len() && is_space(s[i]) {
        lemma_ws_end_stop(s, i + 1);
    }
}

/// No character strictly inside a token's span is whitespace.
pub proof fn lemma_tok_chars(s: Seq<char>, i: int)
    requires
        0 <= i <= s.len(),
    ensures
        forall|k: int| i <= k < tok_end(s, i) ==> !is_space(s[k]),
    decreases s.len() - i,
{
    if i < s.len() && !is_space(s[i]) {
        lemma_tok_chars(s, i + 1);
    }
}

/// The whitespace-delimited tokens of `s`, from position `i` on.
pub open spec fn tokens_from(s: Seq<char>, i: int) -> Seq<Seq<char>>
    decreases s.len() - i,
        when 0 <= i <= s.len()
        via tokens_from_decreases
{
    let j = ws_end(s, i);
    if j >= s.len() {
        seq![]
    } else {
        seq![s.subrange(j, tok_end(s, j))] + tokens_from(s, tok_end(s, j))
    }
}

#[via_fn]
proof fn tokens_from_decreases(s: Seq<char>, i: int) {
    lemma_ws_end_bounds(s, i);
    lemma_ws_end_stop(s, i);
    let j = ws_end(s, i);
    if j < s.len() {
        assert(tok_end(s, j) == tok_end(s, j + 1));
        lemma_tok_end_bounds(s, j + 1);
    }
}

/// The whitespace-delimited tokens of `s`: non-empty maximal runs of
/// non-whitespace characters, in order.
pub open spec fn tokens(s: Seq<char>) -> Seq<Seq<char>> {
    tokens_from(s, 0)
}

/// A token: non-empty, with no whitespace inside.
pub open spec fn valid_token(t: Seq<char>) -> bool {
    t.len() > 0 && forall|k: int| 0 <= k < t.len() ==> !is_space(t[k])
}

/// Every token produced by tokenization is a valid token.
pub proof fn lemma_tokens_valid(s: Seq<char>, i: int)
    requires
        0 <= i <= s.len(),
    ensures
        forall|k: int|
            0 <= k < tokens_from(s, i).len() ==> #[trigger] valid_token(tokens_from(s, i)[k]),
    decreases s.len() - i,
{
    lemma_ws_end_bounds(s, i);
    lemma_ws_end_stop(s, i);
    let j = ws_end(s, i);
    if j < s.len() {
        lemma_tok_end_bounds(s, j + 1);
        assert(tok_end(s, j) == tok_end(s, j + 1));
        let t = s.subrange(j, tok_end(s, j));
        lemma_tok_chars(s, j);
        assert(tok_end(s, j) > j);
        assert(valid_token(t));
        lemma_tokens_valid(s, tok_end(s, j));
        assert(forall|k: int|
            1 <= k < tokens_from(s, i).len() ==> tokens_from(s, i)[k] == tokens_from(
                s,
                tok_end(s, j),
            )[k - 1]);
    }
}

/// Splits a string into its whitespace-delimited tokens.
pub fn tokenize(s: &str) -> (toks: Vec<String>)
    ensures
        toks@.map_values(|t: String| t@) == tokens(s@),
{
    let n = s.unicode_len();
    let mut toks: Vec<String> = Vec::new();
    let mut i: usize = 0;
    while i < n
        invariant
            i <= n,
            n == s@.len(),
            tokens(s@) =~= toks@.map_values(|t: String| t@) + tokens_from(s@, i as int),
        decreases n - i,
    {
        let ghost i0 = i as int;
        while i < n && is_space_char(s.get_char(i))
            invariant
                i0 <= i <= n,
                n == s@.len(),
                ws_end(s@, i0) == ws_end(s@, i as int),
            decreases n - i,
        {
            i = i + 1;
        }
        assert(ws_end(s@, i as int) == i as int);
        assert(ws_end(s@, i0) == i as int);
        if i < n {
            let j = i;
            while i < n && !is_space_char(s.get_char(i))
                invariant
                    j <= i <= n,
                    n == s@.len(),
                    tok_end(s@, j as int) == tok_end(s@, i as int),
                decreases n - i,
            {
                i = i + 1;
            }
            assert(tok_end(s@, i as int) == i as int);
            assert(tok_end(s@, j as int) == i as int);
            let t = s.substring_char(j, i).to_owned();
            proof {
                assert(tokens_from(s@, i0) == seq![s@.subrange(j as int, i as int)]
                    + tokens_from(s@, i as int));
                assert((toks@.push(t)).map_values(|t: String| t@) =~= toks@.map_values(
                    |t: String| t@,
                ).push(t@));
            }
            toks.push(t);
            proof {
                assert(tokens(s@) =~= toks@.map_values(|t: String| t@) + tokens_from(
                    s@,
                    i as int,
                ));
            }
        } else {
            assert(tokens_from(s@, i0) =~= Seq::<Seq<char>>::empty());
            assert(tokens_from(s@, i as int) =~= Seq::<Seq<char>>::empty());
        }
    }
    proof {
        assert(tokens_from(s@, i as int) =~= Seq::<Seq<char>>::empty());
        assert(toks@.map_values(|t: String| t@) =~= tokens(s@));
    }
    toks
}

/// `p` is a prefix of `s`.
pub open spec fn starts_with(s: Seq<char>, p: Seq<char>) -> bool {
    p.len() <= s.len() && s.subrange(0, p.len() as int) == p
}

/// Decides [`starts_with`].
pub fn str_starts_with(s: &str, p: &str) -> (b: bool)
    ensures
        b == starts_with(s@, p@),
{
    let n = s.unicode_len();
    let m = p.unicode_len();
    if m > n {
        return false;
    }
    let mut i: usize = 0;
    while i < m
        invariant
            i <= m,
            m == p@.len(),
            n == s@.len(),
            m <= n,
            forall|k: int| 0 <= k < i ==> s@[k] == p@[k],
        decreases m - i,
    {
        if s.get_char(i) != p.get_char(i) {
            assert(s@.subrange(0, m as int)[i as int] != p@[i as int]);
            return false;
        }
        i = i + 1;
    }
    proof {
        assert(s@.subrange(0, m as int) =~= p@);
    }
    true
}

/// `s` with every leading repetition of `p` removed.
pub open spec fn strip_reps(s: Seq<char>, p: Seq<char>) -> Seq<char>
    decreases s.len(),
        when p.len() > 0
{
    if starts_with(s, p) {
        strip_reps(s.skip(p.len() as int), p)
    } else {
        s
    }
}

/// Removes every leading repetition of `p` from `s`.
pub fn strip_prefix_repeated(s: &str, p: &str) -> (r: String)
    requires
        p@.len() > 0,
    ensures
        r@ == strip_reps(s@, p@),
{
    let mut cur: &str = s;
    let plen = p.unicode_len();
    while str_starts_with(cur, p)
        invariant
            plen == p@.len(),
            plen >= 1,
            strip_reps(s@, p@) == strip_reps(cur@, p@),
        decreases cur@.len(),
    {
        let cn = cur.unicode_len();
        let next = cur.substring_char(plen, cn);
        proof {
            assert(next@ =~= cur@.skip(plen as int));
        }
        cur = next;
    }
    cur.to_owned()
}

/// The decimal digit for a value below ten.
pub open spec fn digit_char(d: int) -> char {
    if d == 0 {
        '0'
    } else if d == 1 {
        '1'
    } else if d == 2 {
        '2'
    } else if d == 3 {
        '3'
    } else if d == 4 {
        '4'
    } else if d == 5 {
        '5'
    } else if d == 6 {
        '6'
    } else if d == 7 {
        '7'
    } else if d == 8 {
        '8'
    } else {
        '9'
    }
}

/// The decimal rendering of a non-negative number, most significant digit
/// first, with no leading zeros (except for zero itself).
pub open spec fn dec_rep(n: int) -> Seq<char>
    decreases n,
        when n >= 0
{
    if n < 10 {
        seq![digit_char(n)]
    } else {
        dec_rep(n / 10).push(digit_char(n % 10))
    }
}

fn digit_str(d: u64) -> (r: &'static str)
    requires
        d < 10,
    ensures
        r@ == seq![digit_char(d as int)],
{
    proof {
        reveal_strlit("0");
        reveal_strlit("1");
        reveal_strlit("2");
        reveal_strlit("3");
        reveal_strlit("4");
        reveal_strlit("5");
        reveal_strlit("6");
        reveal_strlit("7");
        reveal_strlit("8");
        reveal_strlit("9");
    }
    if d == 0 {
        "0"
    } else if d == 1 {
        "1"
    } else if d == 2 {
        "2"
    } else if d == 3 {
        "3"
    } else if d == 4 {
        "4"
    } else if d == 5 {
        "5"
    } else if d == 6 {
        "6"
    } else if d == 7 {
        "7"
    } else if d == 8 {
        "8"
    } else {
        "9"
    }
}

/// Renders a number in decimal.
pub fn u64_to_string(n: u64) -> (r: String)
    ensures
        r@ == dec_rep(n as int),
    decreases n,
{
    if n < 10 {
        digit_str(n).to_owned()
    } else {
        let mut r = u64_to_string(n / 10);
        r.append(digit_str(n % 10));
        proof {
            assert(dec_rep(n as int / 10) + seq![digit_char(n as int % 10)] =~= dec_rep(
                n as int,
            ));
        }
        r
    }
}

/// `k` copies of the character `c`.
pub open spec fn repeat_char(c: char, k: int) -> Seq<char>
    decreases k,
{
    if k <= 0 {
        Seq::empty()
    } else {
        repeat_char(c, k - 1).push(c)
    }
}

/// `s`, padded on the left with `c` up to width `w`.
pub open spec fn pad_left(s: Seq<char>, c: char, w: int) -> Seq<char> {
    if s.len() >= w {
        s
    } else {
        repeat_char(c, w - s.len()) + s
    }
}

/// `s`, padded on the right with `c` up to width `w`.
pub open spec fn pad_right(s: Seq<char>, c: char, w: int) -> Seq<char> {
    if s.len() >= w {
        s
    } else {
        s + repeat_char(c, w - s.len())
    }
}

/// Renders a number in decimal, left-padded with zeros to `width`.
pub fn u64_to_string_padded(n: u64, width: usize) -> (r: String)
    ensures
        r@ == pad_left(dec_rep(n as int), '0', width as int),
{
    let d = u64_to_string(n);
    let dlen = d.as_str().unicode_len();
    if dlen >= width {
        return d;
    }
    let mut r = String::new();
    let mut k: usize = 0;
    while k < width - dlen
        invariant
            k <= width - dlen,
            dlen == dec_rep(n as int).len(),
            dlen < width,
            r@ =~= repeat_char('0', k as int),
        decreases width - dlen - k,
    {
        r.append("0");
        proof {
            reveal_strlit("0");
            assert("0"@ =~= seq!['0']);
            assert(r@ =~= repeat_char('0', k as int + 1));
        }
        k = k + 1;
    }
    r.append(d.as_str());
    r
}

/// Pads a string on the right with spaces up to `width`.
pub fn pad_right_spaces(s: &str, width: usize) -> (r: String)
    ensures
        r@ == pad_right(s@, ' ', width as int),
{
    let slen = s.unicode_len();
    let mut r = s.to_owned();
    if slen >= width {
        proof {
            assert(r@ =~= pad_right(s@, ' ', width as int));
        }
        return r;
    }
    let mut k: usize = 0;
    while k < width - slen
        invariant
            k <= width - slen,
            slen == s@.len(),
            slen < width,
            r@ =~= s@ + repeat_char(' ', k as int),
        decreases width - slen - k,
    {
        r.append(" ");
        proof {
            reveal_strlit(" ");
            assert(" "@ =~= seq![' ']);
            assert(r@ =~= s@ + repeat_char(' ', k as int + 1));
        }
        k = k + 1;
    }
    r
}

/// The rendering of a year as a four-character field: zero-padded, with
/// a leading minus sign counted in the width for negative years.
pub open spec fn signed_pad4(y: int) -> Seq<char> {
    if y >= 0 {
        pad_left(dec_rep(y), '0', 4)
    } else {
        seq!['-'] + pad_left(dec_rep(-y), '0', 3)
    }
}

/// Renders a year, zero-padded to four characters.
pub fn format_year(y: i32) -> (r: String)
    ensures
        r@ == signed_pad4(y as int),
{
    if y >= 0 {
        u64_to_string_padded(y as u64, 4)
    } else {
        let m = (-(y as i64)) as u64;
        let mut r = String::new();
        proof {
            reveal_strlit("-");
        }
        r.append("-");
        let rest = u64_to_string_padded(m, 3);
        r.append(rest.as_str());
        proof {
            assert("-"@ =~= seq!['-']);
            assert(r@ =~= signed_pad4(y as int));
        }
        r
    }
}

} // verus!
