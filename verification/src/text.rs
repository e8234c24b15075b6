//! Character-level helpers on strings, each stated over the `Seq<char>` view.

use vstd::prelude::*;

verus! {

/// `String::push` from std: appends one character.
#[verifier::external_body]
pub(crate) fn push_char(s: &mut String, c: char)
    ensures
        final(s)@ == old(s)@.push(c),
{
    s.push(c);
}

/// The characters of `s`, in order.
pub fn chars_of(s: &str) -> (v: Vec<char>)
    ensures
        v@ == s@,
{
    let mut v: Vec<char> = Vec::new();
    for c in it: s.chars()
        invariant
            v@ == it.seq().take(it.index() as int),
            it.seq() == s@,
    {
        v.push(c);
    }
    v
}

/// A string made of the given characters.
pub fn string_of(cs: &[char]) -> (s: String)
    ensures
        s@ == cs@,
{
    let mut s = String::new();
    let n = cs.len();
    for i in 0..n
        invariant
            n == cs@.len(),
            s@ == cs@.take(i as int),
    {
        push_char(&mut s, cs[i]);
        assert(cs@.take(i + 1) == cs@.take(i as int).push(cs@[i as int]));
    }
    assert(cs@.take(n as int) == cs@);
    s
}

/// Appends `t` to `s`.
pub fn append_str(s: &mut String, t: &str)
    ensures
        final(s)@ == old(s)@ + t@,
{
    s.append(t);
}

/// Unicode `White_Space`, the property that `char::is_whitespace` tests.
pub open spec fn is_white_space(c: char) -> bool {
    let u = c as u32;
    ||| 0x9 <= u <= 0xD
    ||| u == 0x20
    ||| u == 0x85
    ||| u == 0xA0
    ||| u == 0x1680
    ||| 0x2000 <= u <= 0x200A
    ||| u == 0x2028
    ||| u == 0x2029
    ||| u == 0x202F
    ||| u == 0x205F
    ||| u == 0x3000
}

/// `char::is_whitespace`.
pub fn white_space(c: char) -> (b: bool)
    ensures
        b == is_white_space(c),
{
    let u = c as u32;
    (0x9 <= u && u <= 0xD) || u == 0x20 || u == 0x85 || u == 0xA0 || u == 0x1680 || (0x2000 <= u
        && u <= 0x200A) || u == 0x2028 || u == 0x2029 || u == 0x202F || u == 0x205F || u == 0x3000
}

/// The decimal digit `d` (for `0 <= d < 10`).
pub open spec fn digit_char(d: int) -> char {
    if d == 0 { '0' }
    else if d == 1 { '1' }
    else if d == 2 { '2' }
    else if d == 3 { '3' }
    else if d == 4 { '4' }
    else if d == 5 { '5' }
    else if d == 6 { '6' }
    else if d == 7 { '7' }
    else if d == 8 { '8' }
    else { '9' }
}

/// The decimal numeral of `n`, without sign or leading zeros, as `{}` prints it.
pub open spec fn decimal(n: nat) -> Seq<char>
    decreases n,
{
    if n < 10 {
        seq![digit_char(n as int)]
    } else {
        decimal(n / 10).push(digit_char((n % 10) as int))
    }
}

fn digit(d: u64) -> (c: char)
    requires
        d < 10,
    ensures
        c == digit_char(d as int),
{
    if d == 0 { '0' }
    else if d == 1 { '1' }
    else if d == 2 { '2' }
    else if d == 3 { '3' }
    else if d == 4 { '4' }
    else if d == 5 { '5' }
    else if d == 6 { '6' }
    else if d == 7 { '7' }
    else if d == 8 { '8' }
    else { '9' }
}

/// Appends the decimal numeral of `n` to `out`.
pub fn push_decimal(out: &mut String, n: u64)
    ensures
        final(out)@ == old(out)@ + decimal(n as nat),
    decreases n,
{
    if n >= 10 {
        push_decimal(out, n / 10);
    }
    push_char(out, digit(n % 10));
}

/// The decimal numeral of `n`.
pub fn decimal_string(n: u64) -> (s: String)
    ensures
        s@ == decimal(n as nat),
{
    let mut s = String::new();
    push_decimal(&mut s, n);
    s
}

/// `n` spaces.
pub open spec fn spaces(n: int) -> Seq<char> {
    Seq::new(if n > 0 { n as nat } else { 0 }, |i: int| ' ')
}

/// `s` followed by spaces up to `width` characters, as `{:width}` prints a string.
pub open spec fn pad_end(s: Seq<char>, width: nat) -> Seq<char> {
    s + spaces(width - s.len())
}

/// Spaces up to `width` characters followed by `s`, as `{:>width}` prints it.
pub open spec fn pad_start(s: Seq<char>, width: nat) -> Seq<char> {
    spaces(width - s.len()) + s
}

fn push_spaces(out: &mut String, n: usize)
    ensures
        final(out)@ == old(out)@ + spaces(n as int),
{
    let ghost start = out@;
    for i in 0..n
        invariant
            out@ == start + spaces(i as int),
    {
        push_char(out, ' ');
        assert(start + spaces(i + 1) == (start + spaces(i as int)).push(' '));
    }
}

/// Appends `s` padded with spaces on the right to `width` characters.
pub fn push_padded_end(out: &mut String, s: &str, width: usize)
    ensures
        final(out)@ == old(out)@ + pad_end(s@, width as nat),
{
    let n = s.unicode_len();
    append_str(out, s);
    let ghost mid = out@;
    if n < width {
        push_spaces(out, width - n);
    } else {
        push_spaces(out, 0);
    }
    assert(spaces(width - n) == spaces(if n < width { (width - n) as int } else { 0 }));
    assert(mid + spaces(width - n) == old(out)@ + pad_end(s@, width as nat));
}

/// Appends `s` padded with spaces on the left to `width` characters.
pub fn push_padded_start(out: &mut String, s: &str, width: usize)
    ensures
        final(out)@ == old(out)@ + pad_start(s@, width as nat),
{
    let n = s.unicode_len();
    if n < width {
        push_spaces(out, width - n);
    } else {
        push_spaces(out, 0);
    }
    assert(spaces(width - n) == spaces(if n < width { (width - n) as int } else { 0 }));
    let ghost mid = out@;
    append_str(out, s);
    assert(mid + s@ == old(out)@ + pad_start(s@, width as nat));
}

/// Whether `s` begins with `p`.
pub open spec fn has_prefix(s: Seq<char>, p: Seq<char>) -> bool {
    p.len() <= s.len() && s.take(p.len() as int) == p
}

/// Whether `s` ends with `p`.
pub open spec fn has_suffix(s: Seq<char>, p: Seq<char>) -> bool {
    p.len() <= s.len() && s.skip(s.len() - p.len()) == p
}

/// `str::starts_with` for a string pattern.
pub fn starts_with(s: &str, p: &str) -> (b: bool)
    ensures
        b == has_prefix(s@, p@),
{
    let sv = chars_of(s);
    let pv = chars_of(p);
    if pv.len() > sv.len() {
        return false;
    }
    let n = pv.len();
    for i in 0..n
        invariant
            n == pv@.len(),
            n <= sv@.len(),
            sv@ == s@,
            pv@ == p@,
            forall|j: int| 0 <= j < i ==> sv@[j] == pv@[j],
    {
        if sv[i] != pv[i] {
            assert(s@.take(n as int)[i as int] != p@[i as int]);
            return false;
        }
    }
    assert(s@.take(n as int) =~= p@);
    true
}

/// `str::ends_with` for a string pattern.
pub fn ends_with(s: &str, p: &str) -> (b: bool)
    ensures
        b == has_suffix(s@, p@),
{
    let sv = chars_of(s);
    let pv = chars_of(p);
    if pv.len() > sv.len() {
        return false;
    }
    let n = pv.len();
    let d = sv.len() - n;
    for i in 0..n
        invariant
            n == pv@.len(),
            d + n == sv@.len(),
            sv@.len() <= usize::MAX,
            sv@ == s@,
            pv@ == p@,
            forall|j: int| 0 <= j < i ==> sv@[d + j] == pv@[j],
    {
        if sv[d + i] != pv[i] {
            assert(s@.skip(d as int)[i as int] != p@[i as int]);
            return false;
        }
    }
    assert(s@.skip(d as int) =~= p@);
    true
}

/// The words of `s`: its maximal runs of characters that are not white space,
/// in order, as `str::split_whitespace` yields them.
pub open spec fn words(s: Seq<char>) -> Seq<Seq<char>>
    decreases s.len(),
{
    if s.len() == 0 {
        seq![]
    } else {
        let prev = words(s.drop_last());
        let c = s.last();
        if is_white_space(c) {
            prev
        } else if s.len() >= 2 && !is_white_space(s[s.len() - 2]) {
            prev.update(prev.len() - 1, prev.last().push(c))
        } else {
            prev.push(seq![c])
        }
    }
}

/// The pieces of `ws` joined with `sep` between neighbours, as `[..].join(sep)`.
pub open spec fn join_with(ws: Seq<Seq<char>>, sep: Seq<char>) -> Seq<char>
    decreases ws.len(),
{
    if ws.len() == 0 {
        seq![]
    } else if ws.len() == 1 {
        ws[0]
    } else {
        join_with(ws.drop_last(), sep) + sep + ws.last()
    }
}

/// `s` with its words joined by single spaces:
/// `s.split_whitespace().collect::<Vec<_>>().join(" ")`.
pub open spec fn collapse_white_space(s: Seq<char>) -> Seq<char> {
    join_with(words(s), seq![' '])
}

proof fn lemma_words_nonempty_when_in_word(s: Seq<char>)
    requires
        s.len() > 0,
        !is_white_space(s.last()),
    ensures
        words(s).len() > 0,
    decreases s.len(),
{
    if s.len() >= 2 && !is_white_space(s[s.len() - 2]) {
        assert(s.drop_last().last() == s[s.len() - 2]);
        lemma_words_nonempty_when_in_word(s.drop_last());
    }
}

proof fn lemma_join_extend_last(ws: Seq<Seq<char>>, sep: Seq<char>, c: char)
    requires
        ws.len() > 0,
    ensures
        join_with(ws.update(ws.len() - 1, ws.last().push(c)), sep) == join_with(ws, sep).push(c),
{
    let ws2 = ws.update(ws.len() - 1, ws.last().push(c));
    if ws.len() > 1 {
        assert(ws2.drop_last() =~= ws.drop_last());
        assert(join_with(ws2, sep) =~= join_with(ws, sep).push(c));
    }
}

/// Joining one more piece adds the separator and the piece, unless it is the first.
pub proof fn lemma_join_push(ws: Seq<Seq<char>>, sep: Seq<char>, w: Seq<char>)
    ensures
        join_with(ws.push(w), sep) == if ws.len() == 0 { w } else { join_with(ws, sep) + sep + w },
{
    assert(ws.push(w).drop_last() =~= ws);
}

proof fn lemma_join_empty_iff(ws: Seq<Seq<char>>, sep: Seq<char>)
    requires
        forall|i: int| 0 <= i < ws.len() ==> #[trigger] ws[i].len() > 0,
    ensures
        (join_with(ws, sep).len() == 0) == (ws.len() == 0),
    decreases ws.len(),
{
    if ws.len() > 1 {
        lemma_join_empty_iff(ws.drop_last(), sep);
    }
}

proof fn lemma_words_nonempty(s: Seq<char>)
    ensures
        forall|i: int| 0 <= i < words(s).len() ==> #[trigger] words(s)[i].len() > 0,
    decreases s.len(),
{
    if s.len() > 0 {
        lemma_words_nonempty(s.drop_last());
        let prev = words(s.drop_last());
        if !is_white_space(s.last()) && s.len() >= 2 && !is_white_space(s[s.len() - 2]) {
            assert(s.drop_last().last() == s[s.len() - 2]);
            lemma_words_nonempty_when_in_word(s.drop_last());
        }
    }
}

/// Whether the only white space in `r` is single spaces, each between two
/// characters that are not white space.
pub open spec fn is_tidy(r: Seq<char>) -> bool {
    forall|k: int|
        0 <= k < r.len() && is_white_space(#[trigger] r[k]) ==> r[k] == ' ' && 0 < k < r.len() - 1
            && !is_white_space(r[k - 1]) && !is_white_space(r[k + 1])
}

proof fn lemma_words_clean(s: Seq<char>)
    ensures
        forall|i: int, k: int|
            0 <= i < words(s).len() && 0 <= k < words(s)[i].len() ==> !is_white_space(
                #[trigger] words(s)[i][k],
            ),
    decreases s.len(),
{
    if s.len() > 0 {
        lemma_words_clean(s.drop_last());
        let prev = words(s.drop_last());
        if !is_white_space(s.last()) && s.len() >= 2 && !is_white_space(s[s.len() - 2]) {
            assert(s.drop_last().last() == s[s.len() - 2]);
            lemma_words_nonempty_when_in_word(s.drop_last());
        }
        assert forall|i: int, k: int|
            0 <= i < words(s).len() && 0 <= k < words(s)[i].len() implies !is_white_space(
            #[trigger] words(s)[i][k],
        ) by {
            if i < prev.len() && k < prev[i].len() {
                assert(words(s)[i][k] == prev[i][k]);
            }
        }
    }
}

proof fn lemma_join_tidy(ws: Seq<Seq<char>>)
    requires
        forall|i: int| 0 <= i < ws.len() ==> #[trigger] ws[i].len() > 0,
        forall|i: int, k: int|
            0 <= i < ws.len() && 0 <= k < ws[i].len() ==> !is_white_space(#[trigger] ws[i][k]),
    ensures
        is_tidy(join_with(ws, seq![' '])),
        ws.len() > 0 ==> join_with(ws, seq![' ']).len() > 0 && !is_white_space(
            join_with(ws, seq![' ']).last(),
        ),
    decreases ws.len(),
{
    if ws.len() == 1 {
        assert(ws[0].last() == ws[0][ws[0].len() - 1]);
    } else if ws.len() > 1 {
        let x = join_with(ws.drop_last(), seq![' ']);
        let w = ws.last();
        lemma_join_tidy(ws.drop_last());
        let r = join_with(ws, seq![' ']);
        assert(r == x + seq![' '] + w);
        assert(w == ws[ws.len() - 1]);
        assert(x.last() == x[x.len() - 1]);
        assert forall|k: int| 0 <= k < r.len() && is_white_space(#[trigger] r[k]) implies r[k] == ' '
            && 0 < k < r.len() - 1 && !is_white_space(r[k - 1]) && !is_white_space(r[k + 1]) by {
            if k < x.len() {
                assert(r[k] == x[k]);
                if k == x.len() - 1 {
                } else {
                    assert(r[k + 1] == x[k + 1]);
                    assert(is_white_space(x[k]));
                    if k > 0 {
                        assert(r[k - 1] == x[k - 1]);
                    }
                }
            } else if k == x.len() {
                assert(r[k + 1] == w[0]);
            } else {
                assert(r[k] == w[k - x.len() - 1]);
            }
        }
        assert(r.last() == w.last());
        assert(w.last() == w[w.len() - 1]);
    }
}

/// Collapsing white space leaves only single spaces between other characters.
pub proof fn lemma_collapse_is_tidy(s: Seq<char>)
    ensures
        is_tidy(collapse_white_space(s)),
{
    lemma_words_nonempty(s);
    lemma_words_clean(s);
    lemma_join_tidy(words(s));
}

/// `s.split_whitespace().collect::<Vec<_>>().join(" ")`.
pub fn collapse_spaces(s: &str) -> (r: String)
    ensures
        r@ == collapse_white_space(s@),
{
    let v = chars_of(s);
    let n = v.len();
    let mut out = String::new();
    let mut in_word = false;
    for i in 0..n
        invariant
            n == v@.len(),
            v@ == s@,
            out@ == collapse_white_space(s@.take(i as int)),
            (out@.len() == 0) == (words(s@.take(i as int)).len() == 0),
            in_word == (i > 0 && !is_white_space(s@[i - 1])),
    {
        let c = v[i];
        let ghost pre = s@.take(i as int);
        let ghost next = s@.take(i + 1);
        assert(next.drop_last() =~= pre);
        assert(next.last() == c);
        proof {
            lemma_words_nonempty(next);
        }
        if white_space(c) {
            in_word = false;
        } else if in_word {
            proof {
                assert(next[next.len() - 2] == s@[i - 1]);
                lemma_words_nonempty_when_in_word(pre);
                lemma_join_extend_last(words(pre), seq![' '], c);
            }
            push_char(&mut out, c);
        } else {
            proof {
                lemma_join_push(words(pre), seq![' '], seq![c]);
            }
            if out.unicode_len() > 0 {
                push_char(&mut out, ' ');
            }
            push_char(&mut out, c);
            in_word = true;
            proof {
                if words(pre).len() > 0 {
                    assert(out@ =~= join_with(words(pre), seq![' ']) + seq![' '] + seq![c]);
                } else {
                    assert(out@ =~= seq![c]);
                }
            }
        }
        proof {
            lemma_join_empty_iff(words(next), seq![' ']);
        }
    }
    assert(s@.take(n as int) =~= s@);
    out
}

/// `s` without its leading white space.
pub open spec fn trim_start(s: Seq<char>) -> Seq<char>
    decreases s.len(),
{
    if s.len() > 0 && is_white_space(s[0]) {
        trim_start(s.drop_first())
    } else {
        s
    }
}

/// `s` without its trailing white space.
pub open spec fn trim_end(s: Seq<char>) -> Seq<char>
    decreases s.len(),
{
    if s.len() > 0 && is_white_space(s.last()) {
        trim_end(s.drop_last())
    } else {
        s
    }
}

/// `str::trim`: `s` without leading and trailing white space.
pub open spec fn trim(s: Seq<char>) -> Seq<char> {
    trim_end(trim_start(s))
}

/// `str::trim`.
pub fn trimmed(s: &str) -> (r: String)
    ensures
        r@ == trim(s@),
{
    let v = chars_of(s);
    let n = v.len();
    let mut i: usize = 0;
    assert(s@.skip(0) =~= s@);
    while i < n && white_space(v[i])
        invariant
            i <= n,
            n == v@.len(),
            v@ == s@,
            trim_start(s@) == trim_start(s@.skip(i as int)),
        decreases n - i,
    {
        assert(s@.skip(i as int).drop_first() =~= s@.skip(i + 1));
        i = i + 1;
    }
    assert(trim_start(s@.skip(i as int)) == s@.skip(i as int));
    let mut j: usize = n;
    while j > i && white_space(v[j - 1])
        invariant
            i <= j <= n,
            n == v@.len(),
            v@ == s@,
            trim_end(s@.skip(i as int)) == trim_end(s@.subrange(i as int, j as int)),
        decreases j,
    {
        assert(s@.subrange(i as int, j as int).drop_last() =~= s@.subrange(i as int, j - 1));
        j = j - 1;
    }
    assert(s@.skip(i as int) =~= s@.subrange(i as int, n as int));
    let r = string_of(&v.as_slice()[i..j]);
    assert(v@.subrange(i as int, j as int) == s@.subrange(i as int, j as int));
    r
}

/// The pieces of `s` between occurrences of `sep`, as `str::split(sep)` yields them
/// (always at least one piece).
pub open spec fn split_on(s: Seq<char>, sep: char) -> Seq<Seq<char>>
    decreases s.len(),
{
    if s.len() == 0 {
        seq![seq![]]
    } else {
        let prev = split_on(s.drop_last(), sep);
        if s.last() == sep {
            prev.push(seq![])
        } else {
            prev.update(prev.len() - 1, prev.last().push(s.last()))
        }
    }
}

/// `split_on` always yields at least one piece.
pub proof fn lemma_split_nonempty(s: Seq<char>, sep: char)
    ensures
        split_on(s, sep).len() > 0,
    decreases s.len(),
{
    if s.len() > 0 {
        lemma_split_nonempty(s.drop_last(), sep);
    }
}

/// No piece of `split_on(s, sep)` contains `sep`.
pub proof fn lemma_split_pieces_exclude(s: Seq<char>, sep: char)
    ensures
        forall|i: int, k: int|
            0 <= i < split_on(s, sep).len() && 0 <= k < split_on(s, sep)[i].len() ==> #[trigger] split_on(
                s,
                sep,
            )[i][k] != sep,
    decreases s.len(),
{
    if s.len() > 0 {
        lemma_split_pieces_exclude(s.drop_last(), sep);
        lemma_split_nonempty(s.drop_last(), sep);
        let prev = split_on(s.drop_last(), sep);
        assert forall|i: int, k: int|
            0 <= i < split_on(s, sep).len() && 0 <= k < split_on(s, sep)[i].len() implies #[trigger] split_on(
            s,
            sep,
        )[i][k] != sep by {
            if s.last() != sep && i == prev.len() - 1 && k == prev[i].len() {
                assert(split_on(s, sep)[i][k] == s.last());
            } else if i < prev.len() {
                assert(split_on(s, sep)[i][k] == prev[i][k]);
            }
        }
    }
}

/// `s.split(sep)`, collected.
pub fn split_at_char(s: &str, sep: char) -> (r: Vec<String>)
    ensures
        r@.len() == split_on(s@, sep).len(),
        forall|k: int| 0 <= k < r@.len() ==> #[trigger] r@[k]@ == split_on(s@, sep)[k],
{
    let v = chars_of(s);
    let n = v.len();
    let mut pieces: Vec<String> = Vec::new();
    let mut cur = String::new();
    for i in 0..n
        invariant
            n == v@.len(),
            v@ == s@,
            pieces@.len() + 1 == split_on(s@.take(i as int), sep).len(),
            forall|k: int|
                0 <= k < pieces@.len() ==> #[trigger] pieces@[k]@ == split_on(
                    s@.take(i as int),
                    sep,
                )[k],
            cur@ == split_on(s@.take(i as int), sep).last(),
    {
        let ghost pre = s@.take(i as int);
        let ghost next = s@.take(i + 1);
        assert(next.drop_last() =~= pre);
        proof {
            lemma_split_nonempty(pre, sep);
        }
        if v[i] == sep {
            pieces.push(cur);
            cur = String::new();
        } else {
            push_char(&mut cur, v[i]);
        }
    }
    assert(s@.take(n as int) =~= s@);
    pieces.push(cur);
    pieces
}

/// Whether `c` is one of `0`..=`9`.
pub open spec fn is_ascii_digit(c: char) -> bool {
    48 <= (c as u32) <= 57
}

/// The number written by the decimal digits `ds`.
pub open spec fn digits_value(ds: Seq<char>) -> nat
    decreases ds.len(),
{
    if ds.len() == 0 {
        0
    } else {
        digits_value(ds.drop_last()) * 10 + ((ds.last() as u32) - 48) as nat
    }
}

/// `s` without one leading `+`, if it has one.
pub open spec fn unsigned_digits(s: Seq<char>) -> Seq<char> {
    if s.len() > 0 && s[0] == '+' {
        s.drop_first()
    } else {
        s
    }
}

/// Whether every character of `ds` is a decimal digit.
pub open spec fn all_digits(ds: Seq<char>) -> bool {
    forall|i: int| 0 <= i < ds.len() ==> #[trigger] is_ascii_digit(ds[i])
}

/// What `s.parse::<usize>().ok()` gives: an optional `+` followed by at least
/// one decimal digit and nothing else, with a value that fits in `usize`.
pub open spec fn parsed_usize(s: Seq<char>) -> Option<usize> {
    let ds = unsigned_digits(s);
    if ds.len() > 0 && all_digits(ds) && digits_value(ds) <= usize::MAX {
        Some(digits_value(ds) as usize)
    } else {
        None
    }
}

proof fn lemma_digits_value_prefix(ds: Seq<char>, k: int)
    requires
        0 <= k <= ds.len(),
        all_digits(ds),
    ensures
        digits_value(ds.take(k)) <= digits_value(ds),
    decreases ds.len() - k,
{
    if k < ds.len() {
        lemma_digits_value_prefix(ds, k + 1);
        assert(ds.take(k + 1).drop_last() =~= ds.take(k));
    } else {
        assert(ds.take(k) =~= ds);
    }
}

/// `s.parse::<usize>().ok()`.
pub fn parse_usize(s: &str) -> (r: Option<usize>)
    ensures
        r == parsed_usize(s@),
{
    let v = chars_of(s);
    let n = v.len();
    let start: usize = if n > 0 && v[0] == '+' { 1 } else { 0 };
    let ghost ds = unsigned_digits(s@);
    assert(ds =~= s@.skip(start as int));
    if start == n {
        return None;
    }
    let mut value: usize = 0;
    let mut i: usize = start;
    while i < n
        invariant
            start <= i <= n,
            n == v@.len(),
            v@ == s@,
            ds == s@.skip(start as int),
            ds == unsigned_digits(s@),
            forall|k: int| 0 <= k < i - start ==> #[trigger] is_ascii_digit(ds[k]),
            value == digits_value(ds.take(i - start)),
        decreases n - i,
    {
        let c = v[i];
        let u = c as u32;
        assert(ds[i - start] == c);
        if u < 48 || u > 57 {
            assert(!is_ascii_digit(ds[i - start]));
            return None;
        }
        assert(ds.take(i - start + 1).drop_last() =~= ds.take(i - start));
        assert(ds.take(i - start + 1).last() == c);
        let d = (u - 48) as usize;
        match value.checked_mul(10) {
            Some(m) => match m.checked_add(d) {
                Some(x) => {
                    value = x;
                }
                None => {
                    proof {
                        if all_digits(ds) {
                            lemma_digits_value_prefix(ds, i - start + 1);
                        }
                    }
                    return None;
                }
            },
            None => {
                proof {
                    if all_digits(ds) {
                        lemma_digits_value_prefix(ds, i - start + 1);
                    }
                }
                return None;
            }
        }
        i = i + 1;
    }
    assert(ds.take(n - start) =~= ds);
    Some(value)
}

/// `s` with every `c` taken out.
pub open spec fn without_char(s: Seq<char>, c: char) -> Seq<char>
    decreases s.len(),
{
    if s.len() == 0 {
        seq![]
    } else if s.last() == c {
        without_char(s.drop_last(), c)
    } else {
        without_char(s.drop_last(), c).push(s.last())
    }
}

/// `s.replace(c, "")`.
pub fn remove_char(s: &str, c: char) -> (r: String)
    ensures
        r@ == without_char(s@, c),
{
    let v = chars_of(s);
    let n = v.len();
    let mut out = String::new();
    for i in 0..n
        invariant
            n == v@.len(),
            v@ == s@,
            out@ == without_char(s@.take(i as int), c),
    {
        assert(s@.take(i + 1).drop_last() =~= s@.take(i as int));
        if v[i] != c {
            push_char(&mut out, v[i]);
        }
    }
    assert(s@.take(n as int) =~= s@);
    out
}

/// `c` with an ASCII capital letter replaced by its small letter.
pub open spec fn ascii_lower_char(c: char) -> char {
    if 'A' <= c && c <= 'Z' {
        ((c as u32) + 32) as char
    } else {
        c
    }
}

/// `s` with its ASCII capital letters replaced by small letters.
pub open spec fn ascii_lower(s: Seq<char>) -> Seq<char> {
    s.map_values(|c: char| ascii_lower_char(c))
}

/// Whether every character of `s` is ASCII.
pub open spec fn all_ascii(s: Seq<char>) -> bool {
    forall|i: int| 0 <= i < s.len() ==> (s[i] as u32) < 128
}

/// What `str::to_lowercase` returns for `s`: its lowercase form as Unicode
/// defines it, mostly each character's own lowercase mapping, except that a
/// capital sigma at the end of a word becomes a final sigma, so that a
/// character's image may depend on its neighbours.
pub uninterp spec fn lowercase(s: Seq<char>) -> Seq<char>;

/// `str::to_lowercase` from std, whose result depends on `s` alone. On text of
/// ASCII characters only it lowercases the ASCII letters, as std documents; on
/// any text, lowercasing the ASCII letters first changes nothing (their
/// lowercase mapping is the small letter, which maps to itself, and a letter
/// stays a cased letter for the final-sigma rule). Beyond that the Unicode
/// lowercase mapping and its context rule for the final sigma are not written
/// out here.
#[verifier::external_body]
pub(crate) fn to_lowercase(s: &str) -> (r: String)
    ensures
        r@ == lowercase(s@),
        r@ == lowercase(ascii_lower(s@)),
        all_ascii(s@) ==> r@ == ascii_lower(s@),
{
    s.to_lowercase()
}

/// The position of the last `c` in `s`, if any.
pub open spec fn last_index_of(s: Seq<char>, c: char) -> Option<int>
    decreases s.len(),
{
    if s.len() == 0 {
        None
    } else if s.last() == c {
        Some(s.len() - 1)
    } else {
        last_index_of(s.drop_last(), c)
    }
}

proof fn lemma_last_index_in_bounds(s: Seq<char>, c: char)
    ensures
        last_index_of(s, c) matches Some(p) ==> 0 <= p < s.len() && s[p] == c,
    decreases s.len(),
{
    if s.len() > 0 && s.last() != c {
        lemma_last_index_in_bounds(s.drop_last(), c);
    }
}

/// The position of the last `c` in `s`, if any.
pub fn last_index(s: &Vec<char>, c: char) -> (r: Option<usize>)
    ensures
        match r {
            Some(p) => last_index_of(s@, c) == Some(p as int),
            None => last_index_of(s@, c) is None,
        },
{
    let mut j = s.len();
    assert(s@.take(j as int) =~= s@);
    while j > 0
        invariant
            j <= s@.len(),
            last_index_of(s@, c) == last_index_of(s@.take(j as int), c),
        decreases j,
    {
        assert(s@.take(j as int).drop_last() =~= s@.take(j - 1));
        if s[j - 1] == c {
            return Some(j - 1);
        }
        j = j - 1;
    }
    None
}

/// A single path component without its extension, as
/// `PathBuf::from(name).with_extension("")` leaves it: the part before the last
/// `.`, unless that `.` is the first character or `name` is `..`.
pub open spec fn without_extension(name: Seq<char>) -> Seq<char> {
    if name == ".."@ {
        name
    } else {
        match last_index_of(name, '.') {
            Some(p) => if p > 0 {
                name.take(p)
            } else {
                name
            },
            None => name,
        }
    }
}

/// A name without its extension is a prefix of the name.
pub proof fn lemma_without_extension_prefix(name: Seq<char>)
    ensures
        without_extension(name).len() <= name.len(),
        forall|k: int|
            0 <= k < without_extension(name).len() ==> #[trigger] without_extension(name)[k] == name[k],
{
    lemma_last_index_in_bounds(name, '.');
}

/// `PathBuf::from(name).with_extension("")` for a name without `/`.
pub fn strip_extension(name: &str) -> (r: String)
    ensures
        r@ == without_extension(name@),
{
    let v = chars_of(name);
    if v.len() == 2 && v[0] == '.' && v[1] == '.' {
        proof {
            reveal_strlit("..");
        }
        assert(name@ =~= ".."@);
        return string_of(v.as_slice());
    }
    proof {
        reveal_strlit("..");
        if name@ == ".."@ {
            assert(name@.len() == 2);
        }
    }
    proof {
        lemma_last_index_in_bounds(v@, '.');
    }
    match last_index(&v, '.') {
        Some(p) => if p > 0 {
            let r = string_of(&v.as_slice()[0..p]);
            assert(v@.subrange(0, p as int) =~= name@.take(p as int));
            r
        } else {
            string_of(v.as_slice())
        },
        None => string_of(v.as_slice()),
    }
}

} // verus!
