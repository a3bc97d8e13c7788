//! Small verified toolkit for the string work the renderers and parsers
//! share: character-level equality, decimal formatting, line splitting and
//! joining, trimming and whitespace splitting.

use vstd::prelude::*;

verus! {

/// Character-for-character equality of two strings.
pub fn str_eq(a: &str, b: &str) -> (r: bool)
    ensures
        r == (a@ == b@),
{
    let alen = a.unicode_len();
    let blen = b.unicode_len();
    if alen != blen {
        return false;
    }
    let mut i: usize = 0;
    while i < alen
        invariant
            i <= alen,
            alen == a@.len(),
            alen == b@.len(),
            forall|j: int| 0 <= j < i ==> a@[j] == b@[j],
        decreases alen - i,
    {
        if a.get_char(i) != b.get_char(i) {
            return false;
        }
        i += 1;
    }
    proof {
        assert(a@ =~= b@);
    }
    true
}

/// The decimal digit character for a value below ten.
pub open spec fn digit_char(d: int) -> char {
    if d == 0 {
        '0'
    } else if d == 1 {
        '1'
    } else if d == 2 {
        '2'
    } else if d == 3 {
        '3'
    } else if d == 4 {
        '4'
    } else if d == 5 {
        '5'
    } else if d == 6 {
        '6'
    } else if d == 7 {
        '7'
    } else if d == 8 {
        '8'
    } else {
        '9'
    }
}

/// The usual decimal rendering of a natural number, most significant digit
/// first.
pub open spec fn spec_dec(n: nat) -> Seq<char>
    decreases n,
{
    if n < 10 {
        seq![digit_char(n as int)]
    } else {
        spec_dec(n / 10).push(digit_char((n % 10) as int))
    }
}

fn digit_str(d: u64) -> (r: &'static str)
    requires
        d < 10,
    ensures
        r@ == seq![digit_char(d as int)],
{
    proof {
        reveal_strlit("0");
        reveal_strlit("1");
        reveal_strlit("2");
        reveal_strlit("3");
        reveal_strlit("4");
        reveal_strlit("5");
        reveal_strlit("6");
        reveal_strlit("7");
        reveal_strlit("8");
        reveal_strlit("9");
    }
    match d {
        0 => "0",
        1 => "1",
        2 => "2",
        3 => "3",
        4 => "4",
        5 => "5",
        6 => "6",
        7 => "7",
        8 => "8",
        _ => "9",
    }
}

/// Append the decimal rendering of `n` to `out`.
pub fn push_dec(out: &mut String, n: u64)
    ensures
        final(out)@ == old(out)@ + spec_dec(n as nat),
    decreases n,
{
    if n < 10 {
        out.append(digit_str(n));
    } else {
        push_dec(out, n / 10);
        out.append(digit_str(n % 10));
    }
}

/// The decimal rendering of `n` as a fresh string.
pub fn dec_string(n: u64) -> (r: String)
    ensures
        r@ == spec_dec(n as nat),
{
    let mut out = String::new();
    push_dec(&mut out, n);
    out
}

/// Split a character sequence at every occurrence of `sep`. The result
/// always holds at least one piece; separators at the edges yield empty
/// pieces, as `"a,,b".split(',')` would.
pub open spec fn spec_split(s: Seq<char>, sep: char) -> Seq<Seq<char>>
    decreases s.len(),
{
    if s.len() == 0 {
        seq![s]
    } else if s[0] == sep {
        seq![Seq::<char>::empty()] + spec_split(s.drop_first(), sep)
    } else {
        let rest = spec_split(s.drop_first(), sep);
        seq![seq![s[0]] + rest[0]] + rest.drop_first()
    }
}

pub proof fn lemma_split_len(s: Seq<char>, sep: char)
    ensures
        spec_split(s, sep).len() >= 1,
    decreases s.len(),
{
    if s.len() > 0 {
        lemma_split_len(s.drop_first(), sep);
    }
}

/// Appending one character to a string either opens a fresh empty piece
/// (when the character is the separator) or extends the final piece.
pub proof fn lemma_split_push(s: Seq<char>, c: char, sep: char)
    ensures
        c == sep ==> spec_split(s.push(c), sep) == spec_split(s, sep).push(Seq::<char>::empty()),
        c != sep ==> spec_split(s.push(c), sep) == spec_split(s, sep).drop_last().push(
            spec_split(s, sep).last().push(c),
        ),
    decreases s.len(),
{
    lemma_split_len(s, sep);
    if s.len() == 0 {
        if c == sep {
            assert(s.push(c).drop_first() =~= s);
            assert(spec_split(s.push(c), sep) =~~= spec_split(s, sep).push(Seq::<char>::empty()));
        } else {
            assert(s.push(c).drop_first() =~= s);
            assert(spec_split(s.push(c), sep) =~~= spec_split(s, sep).drop_last().push(
                spec_split(s, sep).last().push(c),
            ));
        }
    } else {
        let t = s.drop_first();
        lemma_split_len(t, sep);
        assert(s.push(c).drop_first() =~= t.push(c));
        lemma_split_push(t, c, sep);
        if c == sep {
            assert(spec_split(s.push(c), sep) =~~= spec_split(s, sep).push(Seq::<char>::empty()));
        } else {
            if s[0] == sep {
                assert(spec_split(s.push(c), sep) =~~= spec_split(s, sep).drop_last().push(
                    spec_split(s, sep).last().push(c),
                ));
            } else {
                let rest = spec_split(t, sep);
                let restp = spec_split(t.push(c), sep);
                assert(restp == rest.drop_last().push(rest.last().push(c)));
                if rest.len() == 1 {
                    assert(restp[0] == rest[0].push(c));
                    assert(spec_split(s, sep) =~~= seq![seq![s[0]] + rest[0]]);
                    assert((seq![s[0]] + rest[0]).push(c) =~= seq![s[0]] + rest[0].push(c));
                    assert(spec_split(s.push(c), sep) =~~= spec_split(s, sep).drop_last().push(
                        spec_split(s, sep).last().push(c),
                    ));
                } else {
                    assert(restp[0] == rest[0]);
                    assert(spec_split(s, sep).last() == rest.last());
                    assert(restp.drop_first() =~~= rest.drop_first().drop_last().push(
                        rest.last().push(c),
                    ));
                    assert(spec_split(s.push(c), sep) =~~= spec_split(s, sep).drop_last().push(
                        spec_split(s, sep).last().push(c),
                    ));
                }
            }
        }
    }
}

/// Split a string at every occurrence of `sep`.
pub fn split_char(s: &str, sep: char) -> (r: Vec<String>)
    ensures
        r.deep_view() == spec_split(s@, sep),
{
    let len = s.unicode_len();
    let mut pieces: Vec<String> = Vec::new();
    let mut start: usize = 0;
    let mut i: usize = 0;
    proof {
        assert(s@.take(0) =~= Seq::<char>::empty());
        assert(spec_split(s@.take(0), sep) =~~= pieces.deep_view().push(s@.subrange(0, 0)));
    }
    while i < len
        invariant
            0 <= start <= i <= len,
            len == s@.len(),
            spec_split(s@.take(i as int), sep) == pieces.deep_view().push(
                s@.subrange(start as int, i as int),
            ),
        decreases len - i,
    {
        let c = s.get_char(i);
        proof {
            assert(s@.take(i + 1) =~= s@.take(i as int).push(s@[i as int]));
            lemma_split_push(s@.take(i as int), s@[i as int], sep);
        }
        if c == sep {
            let piece = s.substring_char(start, i);
            pieces.push(String::from_str(piece));
            start = i + 1;
            proof {
                assert(spec_split(s@.take(i + 1), sep) =~~= pieces.deep_view().push(
                    s@.subrange(start as int, i + 1),
                ));
            }
        } else {
            proof {
                let old_last = s@.subrange(start as int, i as int);
                assert(old_last.push(s@[i as int]) =~= s@.subrange(start as int, i + 1));
                assert(pieces.deep_view().push(old_last).drop_last() =~~= pieces.deep_view());
                assert(pieces.deep_view().push(old_last).last() == old_last);
                assert(spec_split(s@.take(i + 1), sep) =~~= pieces.deep_view().push(
                    s@.subrange(start as int, i + 1),
                ));
            }
        }
        i += 1;
    }
    let piece = s.substring_char(start, len);
    pieces.push(String::from_str(piece));
    proof {
        assert(s@.take(len as int) =~= s@);
        assert(pieces.deep_view() =~~= spec_split(s@, sep));
    }
    pieces
}

/// Split a string at every newline character.
pub fn split_str_lines(s: &str) -> (r: Vec<String>)
    ensures
        r.deep_view() == spec_split(s@, '\n'),
{
    split_char(s, '\n')
}

/// A line with a trailing carriage return loses it; any other line is kept
/// as it is.
pub open spec fn spec_strip_cr(l: Seq<char>) -> Seq<char> {
    if l.len() > 0 && l.last() == '\r' {
        l.drop_last()
    } else {
        l
    }
}

/// Strip the trailing carriage return from every line of a sequence.
pub open spec fn spec_strip_all(q: Seq<Seq<char>>) -> Seq<Seq<char>>
    decreases q.len(),
{
    if q.len() == 0 {
        Seq::<Seq<char>>::empty()
    } else {
        spec_strip_all(q.drop_last()).push(spec_strip_cr(q.last()))
    }
}

/// The lines of a string, as `str::lines` sees them: pieces between
/// newlines, a trailing carriage return removed from each, and no final
/// empty line for a string that ends with a newline.
pub open spec fn spec_lines(s: Seq<char>) -> Seq<Seq<char>> {
    if s.len() == 0 {
        Seq::<Seq<char>>::empty()
    } else {
        let p = spec_split(s, '\n');
        let q = if p.last().len() == 0 {
            p.drop_last()
        } else {
            p
        };
        spec_strip_all(q)
    }
}

/// Split a string into its lines.
pub fn lines_of(s: &str) -> (r: Vec<String>)
    ensures
        r.deep_view() == spec_lines(s@),
{
    if s.unicode_len() == 0 {
        let r: Vec<String> = Vec::new();
        proof {
            assert(r.deep_view() =~~= spec_lines(s@));
        }
        return r;
    }
    let mut pieces = split_str_lines(s);
    proof {
        lemma_split_len(s@, '\n');
    }
    let plen = pieces.len();
    let last_is_empty = pieces[plen - 1].as_str().unicode_len() == 0;
    if last_is_empty {
        pieces.pop();
    }
    let ghost q = if spec_split(s@, '\n').last().len() == 0 {
        spec_split(s@, '\n').drop_last()
    } else {
        spec_split(s@, '\n')
    };
    proof {
        assert(pieces.deep_view() =~~= q);
    }
    let mut out: Vec<String> = Vec::new();
    let n = pieces.len();
    let mut i: usize = 0;
    while i < n
        invariant
            i <= n,
            n == pieces.deep_view().len(),
            pieces.deep_view() == q,
            out.deep_view() == spec_strip_all(q.take(i as int)),
        decreases n - i,
    {
        let line = &pieces[i];
        let llen = line.as_str().unicode_len();
        let stripped: String = if llen > 0 && line.as_str().get_char(llen - 1) == '\r' {
            String::from_str(line.as_str().substring_char(0, llen - 1))
        } else {
            line.clone()
        };
        proof {
            assert(line@ == q[i as int]);
            if llen > 0 && line@.last() == '\r' {
                assert(line@.subrange(0, llen - 1) =~= line@.drop_last());
            }
            assert(stripped@ == spec_strip_cr(q[i as int]));
        }
        let ghost old_dv = out.deep_view();
        out.push(stripped);
        proof {
            assert(out.deep_view() =~~= old_dv.push(stripped@));
            assert(q.take(i + 1).drop_last() =~~= q.take(i as int));
            assert(q.take(i + 1).last() == q[i as int]);
            assert(out.deep_view() == spec_strip_all(q.take(i + 1)));
        }
        i += 1;
    }
    proof {
        assert(q.take(n as int) =~~= q);
        assert(out.deep_view() == spec_lines(s@));
    }
    out
}

/// Lines joined with a newline between each pair, no trailing newline.
pub open spec fn spec_join_nl(lines: Seq<Seq<char>>) -> Seq<char>
    decreases lines.len(),
{
    if lines.len() == 0 {
        Seq::<char>::empty()
    } else if lines.len() == 1 {
        lines[0]
    } else {
        spec_join_nl(lines.drop_last()) + seq!['\n'] + lines.last()
    }
}

/// Every line followed by a newline, the shape of a rendered text file.
pub open spec fn spec_join_term(lines: Seq<Seq<char>>) -> Seq<char>
    decreases lines.len(),
{
    if lines.len() == 0 {
        Seq::<char>::empty()
    } else {
        spec_join_term(lines.drop_last()) + lines.last() + seq!['\n']
    }
}

/// Join lines with single newlines between them.
pub fn join_lines(lines: &Vec<String>) -> (r: String)
    ensures
        r@ == spec_join_nl(lines.deep_view()),
{
    let mut out = String::new();
    let n = lines.len();
    let mut i: usize = 0;
    proof {
        reveal_strlit("\n");
    }
    while i < n
        invariant
            i <= n,
            n == lines.deep_view().len(),
            out@ == spec_join_nl(lines.deep_view().take(i as int)),
            "\n"@ == seq!['\n'],
        decreases n - i,
    {
        if i > 0 {
            out.append("\n");
        }
        out.append(lines[i].as_str());
        proof {
            let dv = lines.deep_view();
            assert(dv.take(i + 1).drop_last() =~~= dv.take(i as int));
            assert(dv.take(i + 1).last() == dv[i as int]);
            if i == 0 {
                assert(out@ =~= spec_join_nl(dv.take(i + 1)));
            } else {
                assert(out@ =~= spec_join_nl(dv.take(i + 1)));
            }
        }
        i += 1;
    }
    proof {
        assert(lines.deep_view().take(n as int) =~~= lines.deep_view());
    }
    out
}

/// Join lines with a newline after every line.
pub fn join_lines_term(lines: &Vec<String>) -> (r: String)
    ensures
        r@ == spec_join_term(lines.deep_view()),
{
    let mut out = String::new();
    let n = lines.len();
    let mut i: usize = 0;
    proof {
        reveal_strlit("\n");
    }
    while i < n
        invariant
            i <= n,
            n == lines.deep_view().len(),
            out@ == spec_join_term(lines.deep_view().take(i as int)),
            "\n"@ == seq!['\n'],
        decreases n - i,
    {
        out.append(lines[i].as_str());
        out.append("\n");
        proof {
            let dv = lines.deep_view();
            assert(dv.take(i + 1).drop_last() =~~= dv.take(i as int));
            assert(dv.take(i + 1).last() == dv[i as int]);
            assert(out@ =~= spec_join_term(dv.take(i + 1)));
        }
        i += 1;
    }
    proof {
        assert(lines.deep_view().take(n as int) =~~= lines.deep_view());
    }
    out
}


/// The whitespace characters the parsers care about.
pub open spec fn is_ws(c: char) -> bool {
    c == ' ' || c == '\t' || c == '\r' || c == '\n'
}

/// Whether `c` is whitespace.
pub fn ws_char(c: char) -> (r: bool)
    ensures
        r == is_ws(c),
{
    c == ' ' || c == '\t' || c == '\r' || c == '\n'
}

/// A string without its leading whitespace.
pub open spec fn spec_trim_front(s: Seq<char>) -> Seq<char>
    decreases s.len(),
{
    if s.len() > 0 && is_ws(s[0]) {
        spec_trim_front(s.drop_first())
    } else {
        s
    }
}

/// A string without its trailing whitespace.
pub open spec fn spec_trim_back(s: Seq<char>) -> Seq<char>
    decreases s.len(),
{
    if s.len() > 0 && is_ws(s.last()) {
        spec_trim_back(s.drop_last())
    } else {
        s
    }
}

/// A string without leading or trailing whitespace.
pub open spec fn spec_trim(s: Seq<char>) -> Seq<char> {
    spec_trim_back(spec_trim_front(s))
}

proof fn lemma_trim_front_range(s: Seq<char>, i: int)
    requires
        0 <= i <= s.len(),
        forall|j: int| 0 <= j < i ==> is_ws(s[j]),
        i == s.len() || !is_ws(s[i]),
    ensures
        spec_trim_front(s) == s.subrange(i, s.len() as int),
    decreases i,
{
    if i == 0 {
        assert(s.subrange(0, s.len() as int) =~= s);
    } else {
        let t = s.drop_first();
        lemma_trim_front_range(t, i - 1);
        assert(t.subrange(i - 1, t.len() as int) =~= s.subrange(i, s.len() as int));
    }
}

proof fn lemma_trim_back_range(s: Seq<char>, b: int)
    requires
        0 <= b <= s.len(),
        forall|j: int| b <= j < s.len() ==> is_ws(s[j]),
        b == 0 || !is_ws(s[b - 1]),
    ensures
        spec_trim_back(s) == s.subrange(0, b),
    decreases s.len(),
{
    if b == s.len() {
        assert(s.subrange(0, b) =~= s);
    } else {
        let t = s.drop_last();
        lemma_trim_back_range(t, b);
        assert(t.subrange(0, b) =~= s.subrange(0, b));
    }
}

/// Trim whitespace from both ends of a string.
pub fn trim_str(s: &str) -> (r: String)
    ensures
        r@ == spec_trim(s@),
{
    let len = s.unicode_len();
    let mut a: usize = 0;
    while a < len && ws_char(s.get_char(a))
        invariant
            0 <= a <= len,
            len == s@.len(),
            forall|j: int| 0 <= j < a ==> is_ws(s@[j]),
        decreases len - a,
    {
        a += 1;
    }
    let mut b: usize = len;
    while b > a && ws_char(s.get_char(b - 1))
        invariant
            a <= b <= len,
            len == s@.len(),
            forall|j: int| b <= j < len ==> is_ws(s@[j]),
        decreases b,
    {
        b -= 1;
    }
    proof {
        lemma_trim_front_range(s@, a as int);
        let t = s@.subrange(a as int, len as int);
        lemma_trim_back_range(t, b - a);
        assert(t.subrange(0, b - a) =~= s@.subrange(a as int, b as int));
    }
    String::from_str(s.substring_char(a, b))
}

/// The length of the leading run of non-whitespace characters.
pub open spec fn spec_token_len(s: Seq<char>) -> nat
    decreases s.len(),
{
    if s.len() > 0 && !is_ws(s[0]) {
        1 + spec_token_len(s.drop_first())
    } else {
        0
    }
}

/// The whitespace-separated fields of a string, in order, with no empty
/// fields.
pub open spec fn spec_split_ws(s: Seq<char>) -> Seq<Seq<char>>
    decreases s.len(),
    via spec_split_ws_decreases
{
    if s.len() == 0 {
        Seq::<Seq<char>>::empty()
    } else if is_ws(s[0]) {
        spec_split_ws(s.drop_first())
    } else {
        seq![s.take(spec_token_len(s) as int)] + spec_split_ws(s.skip(spec_token_len(s) as int))
    }
}

proof fn lemma_token_len_le(s: Seq<char>)
    ensures
        spec_token_len(s) <= s.len(),
    decreases s.len(),
{
    if s.len() > 0 && !is_ws(s[0]) {
        lemma_token_len_le(s.drop_first());
    }
}

#[via_fn]
proof fn spec_split_ws_decreases(s: Seq<char>) {
    if s.len() > 0 && !is_ws(s[0]) {
        assert(spec_token_len(s) >= 1);
        lemma_token_len_le(s);
    }
}

proof fn lemma_token_len_range(s: Seq<char>, j: int)
    requires
        0 <= j <= s.len(),
        forall|k: int| 0 <= k < j ==> !is_ws(s[k]),
        j == s.len() || is_ws(s[j]),
    ensures
        spec_token_len(s) == j,
    decreases j,
{
    if j == 0 {
    } else {
        let t = s.drop_first();
        lemma_token_len_range(t, j - 1);
    }
}

/// Split a string on runs of whitespace.
pub fn split_whitespace_of(s: &str) -> (r: Vec<String>)
    ensures
        r.deep_view() == spec_split_ws(s@),
{
    let len = s.unicode_len();
    let mut out: Vec<String> = Vec::new();
    let mut i: usize = 0;
    proof {
        assert(s@.skip(0) =~= s@);
    }
    while i < len
        invariant
            0 <= i <= len,
            len == s@.len(),
            spec_split_ws(s@) == out.deep_view() + spec_split_ws(s@.skip(i as int)),
        decreases len - i,
    {
        if ws_char(s.get_char(i)) {
            proof {
                assert(s@.skip(i as int).drop_first() =~= s@.skip(i + 1));
            }
            i += 1;
        } else {
            let mut j: usize = i + 1;
            while j < len && !ws_char(s.get_char(j))
                invariant
                    i < j <= len,
                    len == s@.len(),
                    forall|k: int| i <= k < j ==> !is_ws(s@[k]),
                decreases len - j,
            {
                j += 1;
            }
            let token = String::from_str(s.substring_char(i, j));
            let ghost old_dv = out.deep_view();
            out.push(token);
            proof {
                let rest = s@.skip(i as int);
                assert forall|k: int| 0 <= k < j - i implies !is_ws(rest[k]) by {
                    assert(rest[k] == s@[i + k]);
                }
                if j < len {
                    assert(rest[j - i] == s@[j as int]);
                }
                lemma_token_len_range(rest, j - i);
                assert(rest.take(j - i) =~= s@.subrange(i as int, j as int));
                assert(rest.skip(j - i) =~= s@.skip(j as int));
                assert(out.deep_view() =~~= old_dv.push(s@.subrange(i as int, j as int)));
                assert(out.deep_view() + spec_split_ws(s@.skip(j as int)) =~~= old_dv + (seq![
                    s@.subrange(i as int, j as int),
                ] + spec_split_ws(s@.skip(j as int))));
                assert(spec_split_ws(s@) == out.deep_view() + spec_split_ws(s@.skip(j as int)));
            }
            i = j;
        }
    }
    proof {
        assert(s@.skip(len as int) =~= Seq::<char>::empty());
        assert(out.deep_view() =~~= spec_split_ws(s@));
    }
    out
}

/// Whether `p` is a prefix of `s`.
pub fn str_starts_with(s: &str, p: &str) -> (r: bool)
    ensures
        r == p@.is_prefix_of(s@),
{
    let plen = p.unicode_len();
    let slen = s.unicode_len();
    if plen > slen {
        return false;
    }
    let mut i: usize = 0;
    while i < plen
        invariant
            0 <= i <= plen <= slen,
            plen == p@.len(),
            slen == s@.len(),
            forall|j: int| 0 <= j < i ==> p@[j] == s@[j],
        decreases plen - i,
    {
        if p.get_char(i) != s.get_char(i) {
            proof {
                assert(!(p@ =~= s@.subrange(0, plen as int)));
            }
            return false;
        }
        i += 1;
    }
    proof {
        assert(p@ =~= s@.subrange(0, plen as int));
    }
    true
}

/// Whether `p` is a suffix of `s`.
pub fn str_ends_with(s: &str, p: &str) -> (r: bool)
    ensures
        r == p@.is_suffix_of(s@),
{
    let plen = p.unicode_len();
    let slen = s.unicode_len();
    if plen > slen {
        return false;
    }
    let off = slen - plen;
    let mut i: usize = 0;
    while i < plen
        invariant
            0 <= i <= plen <= slen,
            plen == p@.len(),
            slen == s@.len(),
            off == slen - plen,
            forall|j: int| 0 <= j < i ==> p@[j] == s@[off + j],
        decreases plen - i,
    {
        if p.get_char(i) != s.get_char(off + i) {
            proof {
                assert(!(p@ =~= s@.subrange(off as int, slen as int)));
            }
            return false;
        }
        i += 1;
    }
    proof {
        assert(p@ =~= s@.subrange(off as int, slen as int));
    }
    true
}

/// The string with the given suffix removed, when it is there.
pub fn strip_suffix_str(s: &str, p: &str) -> (r: Option<String>)
    ensures
        p@.is_suffix_of(s@) ==> (r is Some && r->0@ == s@.take(s@.len() - p@.len())),
        !p@.is_suffix_of(s@) ==> r is None,
{
    if str_ends_with(s, p) {
        let cut = s.unicode_len() - p.unicode_len();
        let head = String::from_str(s.substring_char(0, cut));
        proof {
            assert(s@.subrange(0, cut as int) =~= s@.take(s@.len() - p@.len()));
        }
        Some(head)
    } else {
        None
    }
}

/// The part of a path after its final `/`, or the whole string when it has
/// none.
pub open spec fn spec_basename(s: Seq<char>) -> Seq<char>
    decreases s.len(),
{
    if s.len() == 0 {
        s
    } else if s.last() == '/' {
        Seq::<char>::empty()
    } else {
        spec_basename(s.drop_last()).push(s.last())
    }
}

proof fn lemma_basename_slash(s: Seq<char>, idx: int)
    requires
        0 <= idx < s.len(),
        s[idx] == '/',
        forall|j: int| idx < j < s.len() ==> s[j] != '/',
    ensures
        spec_basename(s) == s.subrange(idx + 1, s.len() as int),
    decreases s.len(),
{
    if idx == s.len() - 1 {
        assert(s.subrange(idx + 1, s.len() as int) =~= Seq::<char>::empty());
    } else {
        let t = s.drop_last();
        lemma_basename_slash(t, idx);
        assert(t.subrange(idx + 1, t.len() as int).push(s.last()) =~= s.subrange(
            idx + 1,
            s.len() as int,
        ));
    }
}

proof fn lemma_basename_noslash(s: Seq<char>)
    requires
        forall|j: int| 0 <= j < s.len() ==> s[j] != '/',
    ensures
        spec_basename(s) == s,
    decreases s.len(),
{
    if s.len() > 0 {
        let t = s.drop_last();
        lemma_basename_noslash(t);
        assert(t.push(s.last()) =~= s);
    }
}

/// The basename of a path: everything after the final separator.
pub fn basename_of(s: &str) -> (r: String)
    ensures
        r@ == spec_basename(s@),
{
    let len = s.unicode_len();
    let mut k: usize = len;
    while k > 0 && s.get_char(k - 1) != '/'
        invariant
            0 <= k <= len,
            len == s@.len(),
            forall|j: int| k <= j < len ==> s@[j] != '/',
        decreases k,
    {
        k -= 1;
    }
    proof {
        if k == 0 {
            lemma_basename_noslash(s@);
            assert(s@.subrange(0, len as int) =~= s@);
        } else {
            lemma_basename_slash(s@, k - 1);
        }
    }
    String::from_str(s.substring_char(k, len))
}

/// Whether a string ends in two newlines.
pub open spec fn ends_two_nl(s: Seq<char>) -> bool {
    s.len() >= 2 && s[s.len() - 1] == '\n' && s[s.len() - 2] == '\n'
}

/// The string with every run of three or more newlines shortened to two;
/// a blank-line normaliser for generated configuration text.
pub open spec fn spec_cap_nl(s: Seq<char>) -> Seq<char>
    decreases s.len(),
{
    if s.len() == 0 {
        s
    } else {
        let p = spec_cap_nl(s.drop_last());
        if s.last() == '\n' && ends_two_nl(p) {
            p
        } else {
            p.push(s.last())
        }
    }
}

/// Shorten every run of three or more newlines to exactly two.
pub fn collapse_blank_lines(s: &str) -> (r: String)
    ensures
        r@ == spec_cap_nl(s@),
{
    let len = s.unicode_len();
    let mut out = String::new();
    let mut prev: Option<char> = None;
    let mut prev2: Option<char> = None;
    let mut i: usize = 0;
    proof {
        assert(s@.take(0) =~= Seq::<char>::empty());
    }
    while i < len
        invariant
            0 <= i <= len,
            len == s@.len(),
            out@ == spec_cap_nl(s@.take(i as int)),
            out@.len() == 0 ==> prev is None,
            out@.len() >= 1 ==> prev == Some(out@[out@.len() - 1]),
            out@.len() == 1 ==> prev2 is None,
            out@.len() >= 2 ==> prev2 == Some(out@[out@.len() - 2]),
        decreases len - i,
    {
        let c = s.get_char(i);
        proof {
            assert(s@.take(i + 1).drop_last() =~= s@.take(i as int));
            assert(s@.take(i + 1).last() == s@[i as int]);
        }
        let skip = c == '\n' && prev == Some('\n') && prev2 == Some('\n');
        if !skip {
            let piece = s.substring_char(i, i + 1);
            proof {
                assert(piece@ =~= seq![s@[i as int]]);
            }
            out.append(piece);
            prev2 = prev;
            prev = Some(c);
            proof {
                assert(out@ =~= spec_cap_nl(s@.take(i as int)).push(s@[i as int]));
            }
        }
        i += 1;
    }
    proof {
        assert(s@.take(len as int) =~= s@);
    }
    out
}

/// Append a name to a list only when the list does not hold it yet.
pub open spec fn spec_push_unique(v: Seq<Seq<char>>, x: Seq<char>) -> Seq<Seq<char>> {
    if v.contains(x) {
        v
    } else {
        v.push(x)
    }
}

/// Whether the list holds the given string.
pub fn vec_contains_str(v: &Vec<String>, x: &str) -> (r: bool)
    ensures
        r == v.deep_view().contains(x@),
{
    let n = v.len();
    let mut i: usize = 0;
    while i < n
        invariant
            0 <= i <= n,
            n == v.deep_view().len(),
            forall|j: int| 0 <= j < i ==> v.deep_view()[j] != x@,
        decreases n - i,
    {
        if str_eq(v[i].as_str(), x) {
            proof {
                assert(v.deep_view()[i as int] == x@);
            }
            return true;
        }
        i += 1;
    }
    false
}

/// Push a name unless it is already present, keeping first-seen order.
pub fn push_unique(v: &mut Vec<String>, x: String)
    ensures
        final(v).deep_view() == spec_push_unique(old(v).deep_view(), x@),
{
    let ghost old_dv = v.deep_view();
    if !vec_contains_str(v, x.as_str()) {
        v.push(x);
        proof {
            assert(v.deep_view() =~~= old_dv.push(x@));
        }
    }
}

/// Appending separator-free text extends the final piece of a split.
pub proof fn lemma_split_append_nosep(t: Seq<char>, x: Seq<char>, sep: char)
    requires
        !x.contains(sep),
    ensures
        spec_split(t + x, sep) == spec_split(t, sep).drop_last().push(
            spec_split(t, sep).last() + x,
        ),
    decreases x.len(),
{
    lemma_split_len(t, sep);
    if x.len() == 0 {
        assert(t + x =~= t);
        assert(spec_split(t, sep).last() + x =~= spec_split(t, sep).last());
        assert(spec_split(t, sep).drop_last().push(spec_split(t, sep).last() + x) =~~= spec_split(
            t,
            sep,
        ));
    } else {
        let x0 = x.drop_last();
        assert(!x0.contains(sep)) by {
            assert forall|j: int| 0 <= j < x0.len() implies x0[j] != sep by {
                assert(x0[j] == x[j]);
            }
        }
        lemma_split_append_nosep(t, x0, sep);
        assert(t + x =~= (t + x0).push(x.last()));
        assert(x.last() != sep) by {
            assert(x[x.len() - 1] == x.last());
        }
        lemma_split_push(t + x0, x.last(), sep);
        let base = spec_split(t, sep);
        let mid = spec_split(t + x0, sep);
        assert(mid == base.drop_last().push(base.last() + x0));
        assert(mid.last() == base.last() + x0);
        assert(mid.drop_last() =~~= base.drop_last());
        assert((base.last() + x0).push(x.last()) =~= base.last() + x);
        assert(spec_split(t + x, sep) =~~= base.drop_last().push(base.last() + x));
    }
}

proof fn lemma_split_join_term(lines: Seq<Seq<char>>)
    requires
        forall|i: int| 0 <= i < lines.len() ==> !(#[trigger] lines[i]).contains('\n'),
    ensures
        spec_split(spec_join_term(lines), '\n') == lines.push(Seq::<char>::empty()),
    decreases lines.len(),
{
    if lines.len() == 0 {
        assert(spec_split(spec_join_term(lines), '\n') =~~= lines.push(Seq::<char>::empty()));
    } else {
        let l0 = lines.drop_last();
        lemma_split_join_term(l0);
        let jt0 = spec_join_term(l0);
        lemma_split_append_nosep(jt0, lines.last(), '\n');
        let a = spec_split(jt0, '\n');
        assert(a == l0.push(Seq::<char>::empty()));
        assert(a.drop_last() =~~= l0);
        assert(a.last() =~= Seq::<char>::empty());
        assert(a.last() + lines.last() =~= lines.last());
        assert(spec_split(jt0 + lines.last(), '\n') =~~= l0.push(lines.last()));
        assert(spec_join_term(lines) =~= (jt0 + lines.last()).push('\n'));
        lemma_split_push(jt0 + lines.last(), '\n', '\n');
        assert(l0.push(lines.last()) =~~= lines);
        assert(spec_split(spec_join_term(lines), '\n') =~~= lines.push(Seq::<char>::empty()));
    }
}

proof fn lemma_strip_all_id(q: Seq<Seq<char>>)
    requires
        forall|i: int| 0 <= i < q.len() ==> !(#[trigger] q[i]).contains('\r'),
    ensures
        spec_strip_all(q) == q,
    decreases q.len(),
{
    if q.len() > 0 {
        let t = q.drop_last();
        lemma_strip_all_id(t);
        if q.last().len() > 0 {
            assert(q.last()[q.last().len() - 1] == q.last().last());
        }
        assert(spec_strip_cr(q.last()) == q.last());
        assert(t.push(q.last()) =~~= q);
    }
}

/// Splitting a rendered document back into lines recovers exactly the lines
/// it was rendered from, as long as no line carries a newline or carriage
/// return of its own.
pub proof fn lemma_lines_round_trip(lines: Seq<Seq<char>>)
    requires
        forall|i: int| 0 <= i < lines.len() ==> !(#[trigger] lines[i]).contains('\n'),
        forall|i: int| 0 <= i < lines.len() ==> !(#[trigger] lines[i]).contains('\r'),
    ensures
        spec_lines(spec_join_term(lines)) == lines,
{
    if lines.len() == 0 {
        assert(spec_lines(spec_join_term(lines)) =~~= lines);
    } else {
        let jt = spec_join_term(lines);
        assert(jt.len() >= 1) by {
            assert(jt =~= (spec_join_term(lines.drop_last()) + lines.last()).push('\n'));
        }
        lemma_split_join_term(lines);
        let p = spec_split(jt, '\n');
        assert(p.last().len() == 0);
        assert(p.drop_last() =~~= lines);
        lemma_strip_all_id(lines);
    }
}


/// Pieces joined with `sep` between each pair.
pub open spec fn spec_join_sep(pieces: Seq<Seq<char>>, sep: Seq<char>) -> Seq<char>
    decreases pieces.len(),
{
    if pieces.len() == 0 {
        Seq::<char>::empty()
    } else if pieces.len() == 1 {
        pieces[0]
    } else {
        spec_join_sep(pieces.drop_last(), sep) + sep + pieces.last()
    }
}

/// Join pieces with the given separator between each pair.
pub fn join_with(pieces: &Vec<String>, sep: &str) -> (r: String)
    ensures
        r@ == spec_join_sep(pieces.deep_view(), sep@),
{
    let mut out = String::new();
    let n = pieces.len();
    let mut i: usize = 0;
    while i < n
        invariant
            i <= n,
            n == pieces.deep_view().len(),
            out@ == spec_join_sep(pieces.deep_view().take(i as int), sep@),
        decreases n - i,
    {
        if i > 0 {
            out.append(sep);
        }
        out.append(pieces[i].as_str());
        proof {
            let dv = pieces.deep_view();
            assert(dv.take(i + 1).drop_last() =~~= dv.take(i as int));
            assert(dv.take(i + 1).last() == dv[i as int]);
            if i == 0 {
                assert(out@ =~= spec_join_sep(dv.take(i + 1), sep@));
            } else {
                assert(out@ =~= spec_join_sep(dv.take(i + 1), sep@));
            }
        }
        i += 1;
    }
    proof {
        assert(pieces.deep_view().take(n as int) =~~= pieces.deep_view());
    }
    out
}

/// The index of the first occurrence of `c`, when there is one.
pub fn find_char(s: &str, c: char) -> (r: Option<usize>)
    ensures
        match r {
            Some(i) => i < s@.len() && s@[i as int] == c && forall|j: int|
                0 <= j < i ==> s@[j] != c,
            None => forall|j: int| 0 <= j < s@.len() ==> s@[j] != c,
        },
{
    let len = s.unicode_len();
    let mut i: usize = 0;
    while i < len
        invariant
            0 <= i <= len,
            len == s@.len(),
            forall|j: int| 0 <= j < i ==> s@[j] != c,
        decreases len - i,
    {
        if s.get_char(i) == c {
            return Some(i);
        }
        i += 1;
    }
    None
}


/// Text that holds neither a newline nor a carriage return, so it can
/// stand inside a single line of a rendered document.
pub open spec fn nl_free(s: Seq<char>) -> bool {
    !s.contains('\n') && !s.contains('\r')
}

pub proof fn lemma_nl_free_drop_last(s: Seq<char>)
    requires
        nl_free(s),
        s.len() > 0,
    ensures
        nl_free(s.drop_last()),
{
    if s.drop_last().contains('\n') {
        let i = choose|i: int| 0 <= i < s.drop_last().len() && s.drop_last()[i] == '\n';
        assert(s[i] == '\n');
        assert(s.contains('\n'));
    }
    if s.drop_last().contains('\r') {
        let i = choose|i: int| 0 <= i < s.drop_last().len() && s.drop_last()[i] == '\r';
        assert(s[i] == '\r');
        assert(s.contains('\r'));
    }
}

pub proof fn lemma_nl_free_push(s: Seq<char>, c: char)
    requires
        nl_free(s),
        c != '\n',
        c != '\r',
    ensures
        nl_free(s.push(c)),
{
    if s.push(c).contains('\n') {
        let i = choose|i: int| 0 <= i < s.push(c).len() && s.push(c)[i] == '\n';
        if i < s.len() {
            assert(s[i] == '\n');
            assert(s.contains('\n'));
        }
    }
    if s.push(c).contains('\r') {
        let i = choose|i: int| 0 <= i < s.push(c).len() && s.push(c)[i] == '\r';
        if i < s.len() {
            assert(s[i] == '\r');
            assert(s.contains('\r'));
        }
    }
}

/// The basename of single-line text is single-line text.
pub proof fn lemma_basename_nl_free(s: Seq<char>)
    requires
        nl_free(s),
    ensures
        nl_free(spec_basename(s)),
    decreases s.len(),
{
    if s.len() == 0 {
    } else if s.last() == '/' {
        assert(!Seq::<char>::empty().contains('\n'));
        assert(!Seq::<char>::empty().contains('\r'));
    } else {
        lemma_nl_free_drop_last(s);
        lemma_basename_nl_free(s.drop_last());
        assert(s.last() != '\n' && s.last() != '\r') by {
            assert(s[s.len() - 1] == s.last());
            if s.last() == '\n' {
                assert(s.contains('\n'));
            }
            if s.last() == '\r' {
                assert(s.contains('\r'));
            }
        }
        lemma_nl_free_push(spec_basename(s.drop_last()), s.last());
    }
}


pub proof fn lemma_split_first_none(s: Seq<char>, sep: char)
    requires
        forall|j: int| 0 <= j < s.len() ==> s[j] != sep,
    ensures
        spec_split(s, sep) == seq![s],
    decreases s.len(),
{
    if s.len() > 0 {
        let t = s.drop_first();
        assert forall|j: int| 0 <= j < t.len() implies t[j] != sep by {
            assert(t[j] == s[j + 1]);
        }
        lemma_split_first_none(t, sep);
        assert(seq![s[0]] + t =~= s);
        assert(spec_split(s, sep) =~~= seq![s]);
    }
}

/// The first piece of a split is the text before the first separator.
pub proof fn lemma_split_first_at(s: Seq<char>, i: int, sep: char)
    requires
        0 <= i < s.len(),
        s[i] == sep,
        forall|j: int| 0 <= j < i ==> s[j] != sep,
    ensures
        spec_split(s, sep)[0] == s.take(i),
    decreases i,
{
    lemma_split_len(s, sep);
    if i == 0 {
        assert(s.take(0) =~= Seq::<char>::empty());
    } else {
        let t = s.drop_first();
        assert forall|j: int| 0 <= j < i - 1 implies t[j] != sep by {
            assert(t[j] == s[j + 1]);
        }
        assert(t[i - 1] == s[i]);
        lemma_split_first_at(t, i - 1, sep);
        lemma_split_len(t, sep);
        assert(spec_split(s, sep)[0] == seq![s[0]] + t.take(i - 1));
        assert(seq![s[0]] + t.take(i - 1) =~= s.take(i));
    }
}


/// The index of the first occurrence of `c` in `s`, or a negative value
/// when there is none.
pub open spec fn first_at(s: Seq<char>, c: char) -> int
    decreases s.len(),
{
    if s.len() == 0 {
        -1
    } else if s[0] == c {
        0
    } else {
        let r = first_at(s.drop_first(), c);
        if r < 0 {
            -1
        } else {
            r + 1
        }
    }
}

pub proof fn lemma_first_at_some(s: Seq<char>, c: char, i: int)
    requires
        0 <= i < s.len(),
        s[i] == c,
        forall|j: int| 0 <= j < i ==> s[j] != c,
    ensures
        first_at(s, c) == i,
    decreases i,
{
    if i > 0 {
        let t = s.drop_first();
        assert forall|j: int| 0 <= j < i - 1 implies t[j] != c by {
            assert(t[j] == s[j + 1]);
        }
        assert(t[i - 1] == s[i]);
        lemma_first_at_some(t, c, i - 1);
    }
}

pub proof fn lemma_first_at_none(s: Seq<char>, c: char)
    requires
        forall|j: int| 0 <= j < s.len() ==> s[j] != c,
    ensures
        first_at(s, c) < 0,
    decreases s.len(),
{
    if s.len() > 0 {
        let t = s.drop_first();
        assert forall|j: int| 0 <= j < t.len() implies t[j] != c by {
            assert(t[j] == s[j + 1]);
        }
        lemma_first_at_none(t, c);
    }
}

} // verus!
