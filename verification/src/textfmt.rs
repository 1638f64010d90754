//! Text-level helpers: decimal rendering and parsing of integers, string
//! equality and prefix tests, and line splitting/joining, each tied to a
//! specification function over `Seq<char>`.

use vstd::prelude::*;

verus! {

/// The decimal digit character for a value below ten.
pub open spec fn digit_char(d: nat) -> char {
    if d == 0 {
        '0'
    } else if d == 1 {
        '1'
    } else if d == 2 {
        '2'
    } else if d == 3 {
        '3'
    } else if d == 4 {
        '4'
    } else if d == 5 {
        '5'
    } else if d == 6 {
        '6'
    } else if d == 7 {
        '7'
    } else if d == 8 {
        '8'
    } else {
        '9'
    }
}

/// The value of a decimal digit character, if it is one.
pub open spec fn digit_val(c: char) -> Option<u64> {
    match c {
        '0' => Some(0u64),
        '1' => Some(1u64),
        '2' => Some(2u64),
        '3' => Some(3u64),
        '4' => Some(4u64),
        '5' => Some(5u64),
        '6' => Some(6u64),
        '7' => Some(7u64),
        '8' => Some(8u64),
        '9' => Some(9u64),
        _ => None,
    }
}

/// The decimal rendering of a natural number, most significant digit first.
pub open spec fn dec_digits(n: nat) -> Seq<char>
    decreases n,
{
    if n < 10 {
        seq![digit_char(n)]
    } else {
        dec_digits(n / 10) + seq![digit_char(n % 10)]
    }
}

/// Decimal parsing: `Some(v)` when the text is one or more decimal digits
/// whose value fits in a `u64`, `None` otherwise.
pub open spec fn parse_u64(s: Seq<char>) -> Option<u64>
    decreases s.len(),
{
    if s.len() == 0 {
        None
    } else if s.len() == 1 {
        digit_val(s[0])
    } else {
        match parse_u64(s.drop_last()) {
            None => None,
            Some(v) => match digit_val(s.last()) {
                None => None,
                Some(d) => if v * 10 + d <= u64::MAX {
                    Some((v * 10 + d) as u64)
                } else {
                    None
                },
            },
        }
    }
}

/// Decimal rendering never produces an empty string, and produces digit
/// characters only.
pub proof fn lemma_dec_digits_digits(n: nat)
    ensures
        dec_digits(n).len() >= 1,
        forall|i: int|
            0 <= i < dec_digits(n).len() ==> (#[trigger] digit_val(dec_digits(n)[i])) is Some,
    decreases n,
{
    if n < 10 {
    } else {
        lemma_dec_digits_digits(n / 10);
        assert(forall|i: int|
            0 <= i < dec_digits(n / 10).len() ==> dec_digits(n)[i] == dec_digits(n / 10)[i]);
        assert(dec_digits(n).last() == digit_char(n % 10));
    }
}

/// Parsing a decimal rendering gives the value back.
pub proof fn lemma_dec_digits_roundtrip(n: u64)
    ensures
        parse_u64(dec_digits(n as nat)) == Some(n),
    decreases n,
{
    if n < 10 {
        assert(parse_u64(dec_digits(n as nat)) == digit_val(digit_char(n as nat)));
    } else {
        lemma_dec_digits_roundtrip(n / 10);
        lemma_dec_digits_digits((n / 10) as nat);
        let s = dec_digits(n as nat);
        assert(s == dec_digits((n / 10) as nat) + seq![digit_char((n % 10) as nat)]);
        assert(s.drop_last() =~= dec_digits((n / 10) as nat));
        assert(s.last() == digit_char((n % 10) as nat));
        assert(digit_val(digit_char((n % 10) as nat)) == Some((n % 10) as u64));
        assert((n / 10) * 10 + n % 10 == n) by (nonlinear_arith);
    }
}

/// Renders a value in decimal, most significant digit first.
pub fn u64_to_string(n: u64) -> (r: String)
    ensures
        r@ == dec_digits(n as nat),
    decreases n,
{
    if n < 10 {
        let mut s = String::new();
        s.append(digit_str(n));
        s
    } else {
        let mut s = u64_to_string(n / 10);
        s.append(digit_str(n % 10));
        assert(s@ == dec_digits((n / 10) as nat) + seq![digit_char((n % 10) as nat)]);
        s
    }
}

/// Holds when no character of `s` is a line break.
pub open spec fn no_nl(s: Seq<char>) -> bool {
    forall|i: int| 0 <= i < s.len() ==> s[i] != '\n'
}

/// A decimal rendering contains no line break.
pub proof fn lemma_dec_digits_no_nl(n: nat)
    ensures
        no_nl(dec_digits(n)),
{
    lemma_dec_digits_digits(n);
    assert forall|i: int| 0 <= i < dec_digits(n).len() implies dec_digits(n)[i] != '\n' by {
        assert(digit_val(dec_digits(n)[i]) is Some);
    }
}

/// Characters of `a` are the first characters of `a + b`.
pub proof fn lemma_concat_prefix(a: Seq<char>, b: Seq<char>)
    ensures
        a.is_prefix_of(a + b),
        (a + b).skip(a.len() as int) == b,
{
    assert((a + b).subrange(0, a.len() as int) =~= a);
    assert((a + b).skip(a.len() as int) =~= b);
}

/// A sequence that differs from `s` at a position inside both is no prefix of
/// `s` followed by anything.
pub proof fn lemma_not_prefix(k: Seq<char>, s: Seq<char>, idx: int, v: Seq<char>)
    requires
        0 <= idx < k.len(),
        idx < s.len(),
        k[idx] != s[idx],
    ensures
        !k.is_prefix_of(s + v),
{
    if k.is_prefix_of(s + v) {
        assert((s + v).subrange(0, k.len() as int)[idx] == (s + v)[idx]);
        assert((s + v)[idx] == s[idx]);
    }
}

/// A sequence longer than `s`, or differing inside `s`, is no prefix of `s`.
pub proof fn lemma_not_prefix_exact(k: Seq<char>, s: Seq<char>, idx: int)
    requires
        0 <= idx < k.len(),
        idx < s.len(),
        k[idx] != s[idx],
    ensures
        !k.is_prefix_of(s),
{
    if k.is_prefix_of(s) {
        assert(s.subrange(0, k.len() as int)[idx] == s[idx]);
    }
}

/// Equality of two string slices, decided character by character.
pub fn str_eq(a: &str, b: &str) -> (r: bool)
    ensures
        r == (a@ == b@),
{
    let an = a.unicode_len();
    let bn = b.unicode_len();
    if an != bn {
        return false;
    }
    let mut i: usize = 0;
    while i < an
        invariant
            0 <= i <= an,
            an == a@.len(),
            an == b@.len(),
            forall|j: int| 0 <= j < i ==> a@[j] == b@[j],
        decreases an - i,
    {
        if a.get_char(i) != b.get_char(i) {
            return false;
        }
        i = i + 1;
    }
    proof {
        assert(a@ =~= b@);
    }
    true
}

/// Whether `s` begins with `p`, decided character by character.
pub fn starts_with_str(s: &str, p: &str) -> (r: bool)
    ensures
        r == p@.is_prefix_of(s@),
{
    let sn = s.unicode_len();
    let pn = p.unicode_len();
    if pn > sn {
        proof {
            assert(!p@.is_prefix_of(s@));
        }
        return false;
    }
    let mut i: usize = 0;
    while i < pn
        invariant
            0 <= i <= pn <= sn,
            sn == s@.len(),
            pn == p@.len(),
            forall|j: int| 0 <= j < i ==> s@[j] == p@[j],
        decreases pn - i,
    {
        if s.get_char(i) != p.get_char(i) {
            proof {
                lemma_not_prefix_exact(p@, s@, i as int);
            }
            return false;
        }
        i = i + 1;
    }
    proof {
        assert(s@.subrange(0, p@.len() as int) =~= p@);
    }
    true
}

/// The text after the prefix `p` of `s`, when `s` begins with `p`.
pub fn strip_prefix_str(s: &str, p: &str) -> (r: Option<String>)
    ensures
        match r {
            Some(v) => p@.is_prefix_of(s@) && v@ == s@.skip(p@.len() as int),
            None => !p@.is_prefix_of(s@),
        },
{
    if starts_with_str(s, p) {
        let rest = s.substring_char(p.unicode_len(), s.unicode_len());
        Some(rest.to_owned())
    } else {
        None
    }
}

/// The concatenation of two string slices.
pub fn concat2(a: &str, b: &str) -> (r: String)
    ensures
        r@ == a@ + b@,
{
    let mut s = a.to_owned();
    s.append(b);
    s
}

/// ASCII lower-casing of one character.
pub open spec fn lower_char(c: char) -> char {
    match c {
        'A' => 'a',
        'B' => 'b',
        'C' => 'c',
        'D' => 'd',
        'E' => 'e',
        'F' => 'f',
        'G' => 'g',
        'H' => 'h',
        'I' => 'i',
        'J' => 'j',
        'K' => 'k',
        'L' => 'l',
        'M' => 'm',
        'N' => 'n',
        'O' => 'o',
        'P' => 'p',
        'Q' => 'q',
        'R' => 'r',
        'S' => 's',
        'T' => 't',
        'U' => 'u',
        'V' => 'v',
        'W' => 'w',
        'X' => 'x',
        'Y' => 'y',
        'Z' => 'z',
        _ => c,
    }
}

/// ASCII lower-casing of a text.
pub open spec fn to_lower(s: Seq<char>) -> Seq<char> {
    Seq::new(s.len(), |i: int| lower_char(s[i]))
}

/// ASCII lower-casing of one character.
fn lower_char_exec(c: char) -> (r: char)
    ensures
        r == lower_char(c),
{
    match c {
        'A' => 'a',
        'B' => 'b',
        'C' => 'c',
        'D' => 'd',
        'E' => 'e',
        'F' => 'f',
        'G' => 'g',
        'H' => 'h',
        'I' => 'i',
        'J' => 'j',
        'K' => 'k',
        'L' => 'l',
        'M' => 'm',
        'N' => 'n',
        'O' => 'o',
        'P' => 'p',
        'Q' => 'q',
        'R' => 'r',
        'S' => 's',
        'T' => 't',
        'U' => 'u',
        'V' => 'v',
        'W' => 'w',
        'X' => 'x',
        'Y' => 'y',
        'Z' => 'z',
        _ => c,
    }
}

/// Whether `s`, lower-cased, equals `t` exactly.
pub fn lower_matches(s: &str, t: &str) -> (r: bool)
    ensures
        r == (to_lower(s@) == t@),
{
    let sn = s.unicode_len();
    let tn = t.unicode_len();
    if sn != tn {
        return false;
    }
    let mut i: usize = 0;
    while i < sn
        invariant
            0 <= i <= sn,
            sn == s@.len(),
            tn == t@.len(),
            sn == tn,
            forall|j: int| 0 <= j < i ==> to_lower(s@)[j] == t@[j],
        decreases sn - i,
    {
        if lower_char_exec(s.get_char(i)) != t.get_char(i) {
            return false;
        }
        i = i + 1;
    }
    proof {
        assert(to_lower(s@) =~= t@);
    }
    true
}

/// Parses a decimal rendering, exactly as `parse_u64` describes.
pub fn parse_u64_str(s: &str) -> (r: Option<u64>)
    ensures
        r == parse_u64(s@),
    decreases s@.len(),
{
    let n = s.unicode_len();
    if n == 0 {
        None
    } else if n == 1 {
        digit_val_exec(s.get_char(0))
    } else {
        let rest = s.substring_char(0, n - 1);
        proof {
            assert(rest@ =~= s@.drop_last());
        }
        match parse_u64_str(rest) {
            None => None,
            Some(v) => match digit_val_exec(s.get_char(n - 1)) {
                None => None,
                Some(d) => {
                    if v <= (u64::MAX - d) / 10 {
                        proof {
                            assert(v * 10 + d <= u64::MAX) by (nonlinear_arith)
                                requires
                                    d < 10,
                                    v <= (u64::MAX - d) / 10,
                            ;
                        }
                        Some(v * 10 + d)
                    } else {
                        proof {
                            assert(v * 10 + d > u64::MAX) by (nonlinear_arith)
                                requires
                                    d < 10,
                                    v > (u64::MAX - d) / 10,
                            ;
                        }
                        None
                    }
                },
            },
        }
    }
}

/// The value of a decimal digit character, if it is one.
fn digit_val_exec(c: char) -> (r: Option<u64>)
    ensures
        r == digit_val(c),
{
    match c {
        '0' => Some(0u64),
        '1' => Some(1u64),
        '2' => Some(2u64),
        '3' => Some(3u64),
        '4' => Some(4u64),
        '5' => Some(5u64),
        '6' => Some(6u64),
        '7' => Some(7u64),
        '8' => Some(8u64),
        '9' => Some(9u64),
        _ => None,
    }
}

/// The index of the first line break in `s`, or `s.len()` if there is none.
pub open spec fn find_nl(s: Seq<char>) -> int
    decreases s.len(),
{
    if s.len() == 0 {
        0
    } else if s[0] == '\n' {
        0
    } else {
        1 + find_nl(s.skip(1))
    }
}

/// `find_nl` points at the first line break, or at the end.
pub proof fn lemma_find_nl(s: Seq<char>)
    ensures
        0 <= find_nl(s) <= s.len(),
        find_nl(s) < s.len() ==> s[find_nl(s)] == '\n',
        forall|j: int| 0 <= j < find_nl(s) ==> s[j] != '\n',
    decreases s.len(),
{
    if s.len() == 0 {
    } else if s[0] == '\n' {
    } else {
        lemma_find_nl(s.skip(1));
        assert(forall|j: int| 0 <= j < find_nl(s.skip(1)) ==> s.skip(1)[j] != '\n');
        assert forall|j: int| 0 <= j < find_nl(s) implies s[j] != '\n' by {
            if j > 0 {
                assert(s.skip(1)[j - 1] == s[j]);
            }
        }
    }
}

/// Any position with a line break at it and none before it is `find_nl`.
pub proof fn lemma_find_nl_unique(s: Seq<char>, k: int)
    requires
        0 <= k <= s.len(),
        k < s.len() ==> s[k] == '\n',
        k == s.len() ==> forall|j: int| 0 <= j < s.len() ==> s[j] != '\n',
        forall|j: int| 0 <= j < k ==> s[j] != '\n',
    ensures
        find_nl(s) == k,
    decreases s.len(),
{
    if s.len() == 0 {
    } else if s[0] == '\n' {
        assert(k == 0);
    } else {
        assert(k >= 1);
        assert forall|j: int| 0 <= j < k - 1 implies s.skip(1)[j] != '\n' by {
            assert(s.skip(1)[j] == s[j + 1]);
        }
        if k == s.len() {
            assert forall|j: int| 0 <= j < s.skip(1).len() implies s.skip(1)[j] != '\n' by {
                assert(s.skip(1)[j] == s[j + 1]);
            }
        } else {
            assert(s.skip(1)[k - 1] == s[k]);
        }
        lemma_find_nl_unique(s.skip(1), k - 1);
    }
}

/// The lines of `s`: the segments between line breaks, in order. Text without
/// a line break is a single line; each line break separates two lines.
pub open spec fn split_lines_spec(s: Seq<char>) -> Seq<Seq<char>>
    decreases s.len(),
{
    let i = find_nl(s);
    if 0 <= i < s.len() {
        seq![s.take(i)] + split_lines_spec(s.skip(i + 1))
    } else {
        seq![s]
    }
}

/// The joining of lines with a line break between each adjacent pair.
pub open spec fn join_lines_spec(ls: Seq<Seq<char>>) -> Seq<char>
    decreases ls.len(),
{
    if ls.len() == 0 {
        Seq::empty()
    } else if ls.len() == 1 {
        ls[0]
    } else {
        ls[0] + seq!['\n'] + join_lines_spec(ls.skip(1))
    }
}

/// Holds when every line of `ls` is free of line breaks.
pub open spec fn lines_ok(ls: Seq<Seq<char>>) -> bool {
    forall|i: int| 0 <= i < ls.len() ==> no_nl(#[trigger] ls[i])
}

/// The first line break of `a + '\n' + b` sits right after `a`, when `a` has
/// none of its own.
pub proof fn lemma_find_nl_concat(a: Seq<char>, b: Seq<char>)
    requires
        no_nl(a),
    ensures
        find_nl(a + seq!['\n'] + b) == a.len(),
{
    let s = a + seq!['\n'] + b;
    assert(s[a.len() as int] == '\n');
    assert forall|j: int| 0 <= j < a.len() implies s[j] != '\n' by {
        assert(s[j] == a[j]);
    }
    lemma_find_nl_unique(s, a.len() as int);
}

/// Splitting the joining of break-free lines gives the lines back.
pub proof fn lemma_split_join_roundtrip(ls: Seq<Seq<char>>)
    requires
        ls.len() >= 1,
        lines_ok(ls),
    ensures
        split_lines_spec(join_lines_spec(ls)) == ls,
    decreases ls.len(),
{
    if ls.len() == 1 {
        let s = join_lines_spec(ls);
        assert(s == ls[0]);
        lemma_find_nl(s);
        if find_nl(s) < s.len() {
            assert(s[find_nl(s)] == '\n');
            assert(no_nl(ls[0]));
        }
        assert(find_nl(s) == s.len());
        assert(split_lines_spec(s) =~= ls);
    } else {
        let a = ls[0];
        let rest = join_lines_spec(ls.skip(1));
        let s = join_lines_spec(ls);
        assert(s == a + seq!['\n'] + rest);
        assert(no_nl(a));
        lemma_find_nl_concat(a, rest);
        assert(find_nl(s) == a.len());
        assert(s.take(a.len() as int) =~= a);
        assert(s.skip(a.len() as int + 1) =~= rest);
        assert forall|i: int| 0 <= i < ls.skip(1).len() implies no_nl(#[trigger] ls.skip(1)[i]) by {
            assert(ls.skip(1)[i] == ls[i + 1]);
        }
        lemma_split_join_roundtrip(ls.skip(1));
        assert(split_lines_spec(s) =~= seq![a] + split_lines_spec(rest));
        assert(seq![a] + ls.skip(1) =~= ls);
    }
}

/// The index of the first line break at or after `from`, or the text's length.
fn find_newline(s: &str, from: usize) -> (r: usize)
    requires
        from <= s@.len(),
    ensures
        r == from + find_nl(s@.skip(from as int)),
        from <= r <= s@.len(),
    decreases s@.len() - from,
{
    let n = s.unicode_len();
    if from == n {
        proof {
            assert(s@.skip(from as int).len() == 0);
        }
        from
    } else if s.get_char(from) == '\n' {
        proof {
            assert(s@.skip(from as int)[0] == s@[from as int]);
        }
        from
    } else {
        proof {
            assert(s@.skip(from as int)[0] == s@[from as int]);
            assert(s@.skip(from as int).skip(1) =~= s@.skip(from as int + 1));
        }
        find_newline(s, from + 1)
    }
}

/// Splits text into its lines, exactly as `split_lines_spec` describes.
pub fn split_lines(s: &str) -> (r: Vec<String>)
    ensures
        r.deep_view() == split_lines_spec(s@),
    decreases s@.len(),
{
    let n = s.unicode_len();
    let i = find_newline(s, 0);
    proof {
        assert(s@.skip(0) =~= s@);
        lemma_find_nl(s@);
    }
    if i == n {
        let mut v: Vec<String> = Vec::new();
        v.push(s.to_owned());
        proof {
            assert(v.deep_view() =~= split_lines_spec(s@));
        }
        v
    } else {
        let line = s.substring_char(0, i).to_owned();
        let rest = s.substring_char(i + 1, n);
        let mut v = split_lines(rest);
        v.insert(0, line);
        proof {
            assert(rest@ == s@.skip(i + 1));
            assert(s@.take(i as int) == line@);
            assert(v.deep_view() =~= seq![line@] + split_lines_spec(rest@));
            assert(v.deep_view() =~= split_lines_spec(s@));
        }
        v
    }
}

/// Joins the lines from index `i` on with line breaks between them.
fn join_from(lines: &Vec<String>, i: usize) -> (r: String)
    requires
        i < lines.len(),
    ensures
        r@ == join_lines_spec(lines.deep_view().skip(i as int)),
    decreases lines.len() - i,
{
    proof {
        reveal_strlit("\n");
        assert("\n"@ =~= seq!['\n']);
    }
    if i == lines.len() - 1 {
        let r = lines[i].clone();
        proof {
            assert(lines.deep_view().skip(i as int).len() == 1);
            assert(lines.deep_view().skip(i as int)[0] == lines@[i as int]@);
        }
        r
    } else {
        let mut s = lines[i].clone();
        s.append("\n");
        let tail = join_from(lines, i + 1);
        s.append(tail.as_str());
        proof {
            let ls = lines.deep_view().skip(i as int);
            assert(ls[0] == lines@[i as int]@);
            assert(ls.skip(1) =~= lines.deep_view().skip(i as int + 1));
            assert(s@ == ls[0] + seq!['\n'] + join_lines_spec(ls.skip(1)));
        }
        s
    }
}

/// Joins lines with a line break between each adjacent pair.
pub fn join_lines(lines: &Vec<String>) -> (r: String)
    ensures
        r@ == join_lines_spec(lines.deep_view()),
{
    if lines.len() == 0 {
        String::new()
    } else {
        let r = join_from(lines, 0);
        proof {
            assert(lines.deep_view().skip(0) =~= lines.deep_view());
        }
        r
    }
}

/// A suffix of a text free of line breaks is free of line breaks.
pub proof fn lemma_no_nl_skip(s: Seq<char>, k: int)
    requires
        no_nl(s),
        0 <= k <= s.len(),
    ensures
        no_nl(s.skip(k)),
{
    assert forall|i: int| 0 <= i < s.skip(k).len() implies s.skip(k)[i] != '\n' by {
        assert(s.skip(k)[i] == s[k + i]);
    }
}

/// Every line that splitting yields is free of line breaks.
pub proof fn lemma_split_lines_no_nl(s: Seq<char>)
    ensures
        lines_ok(split_lines_spec(s)),
    decreases s.len(),
{
    lemma_find_nl(s);
    let i = find_nl(s);
    if 0 <= i < s.len() {
        assert(no_nl(s.take(i))) by {
            assert forall|j: int| 0 <= j < s.take(i).len() implies s.take(i)[j] != '\n' by {
                assert(s.take(i)[j] == s[j]);
            }
        }
        lemma_split_lines_no_nl(s.skip(i + 1));
        let rest = split_lines_spec(s.skip(i + 1));
        assert forall|k: int| 0 <= k < split_lines_spec(s).len() implies no_nl(
            #[trigger] split_lines_spec(s)[k],
        ) by {
            if k == 0 {
                assert(split_lines_spec(s)[0] == s.take(i));
            } else {
                assert(split_lines_spec(s)[k] == rest[k - 1]);
                assert(no_nl(rest[k - 1]));
            }
        }
    } else {
        assert(i == s.len());
        assert(no_nl(s));
        assert(split_lines_spec(s) == seq![s]);
    }
}

/// Texts free of line breaks concatenate to a text free of line breaks.
pub proof fn lemma_no_nl_concat(a: Seq<char>, b: Seq<char>)
    requires
        no_nl(a),
        no_nl(b),
    ensures
        no_nl(a + b),
{
    assert forall|i: int| 0 <= i < (a + b).len() implies (a + b)[i] != '\n' by {
        if i < a.len() {
            assert((a + b)[i] == a[i]);
        } else {
            assert((a + b)[i] == b[i - a.len()]);
        }
    }
}

/// The joining of texts with `sep` between each adjacent pair.
pub open spec fn join_with(items: Seq<Seq<char>>, sep: Seq<char>) -> Seq<char>
    decreases items.len(),
{
    if items.len() == 0 {
        Seq::empty()
    } else if items.len() == 1 {
        items[0]
    } else {
        items[0] + sep + join_with(items.skip(1), sep)
    }
}

/// Joins the texts from index `i` on with `sep` between them.
fn join_strings_from(items: &Vec<String>, i: usize, sep: &str) -> (r: String)
    requires
        i < items.len(),
    ensures
        r@ == join_with(items.deep_view().skip(i as int), sep@),
    decreases items.len() - i,
{
    if i == items.len() - 1 {
        let r = items[i].clone();
        proof {
            assert(items.deep_view().skip(i as int).len() == 1);
            assert(items.deep_view().skip(i as int)[0] == items@[i as int]@);
        }
        r
    } else {
        let mut s = items[i].clone();
        s.append(sep);
        let tail = join_strings_from(items, i + 1, sep);
        s.append(tail.as_str());
        proof {
            let parts = items.deep_view().skip(i as int);
            assert(parts[0] == items@[i as int]@);
            assert(parts.skip(1) =~= items.deep_view().skip(i as int + 1));
            assert(s@ == parts[0] + sep@ + join_with(parts.skip(1), sep@));
        }
        s
    }
}

/// Joins texts with `sep` between each adjacent pair.
pub fn join_strings(items: &Vec<String>, sep: &str) -> (r: String)
    ensures
        r@ == join_with(items.deep_view(), sep@),
{
    if items.len() == 0 {
        String::new()
    } else {
        let r = join_strings_from(items, 0, sep);
        proof {
            assert(items.deep_view().skip(0) =~= items.deep_view());
        }
        r
    }
}

/// The one-character string for a decimal digit below ten.
fn digit_str(d: u64) -> (r: &'static str)
    requires
        d < 10,
    ensures
        r@ == seq![digit_char(d as nat)],
{
    proof {
        reveal_strlit("0");
        reveal_strlit("1");
        reveal_strlit("2");
        reveal_strlit("3");
        reveal_strlit("4");
        reveal_strlit("5");
        reveal_strlit("6");
        reveal_strlit("7");
        reveal_strlit("8");
        reveal_strlit("9");
    }
    if d == 0 {
        let r = "0";
        assert(r@ =~= seq![digit_char(d as nat)]);
        r
    } else if d == 1 {
        let r = "1";
        assert(r@ =~= seq![digit_char(d as nat)]);
        r
    } else if d == 2 {
        let r = "2";
        assert(r@ =~= seq![digit_char(d as nat)]);
        r
    } else if d == 3 {
        let r = "3";
        assert(r@ =~= seq![digit_char(d as nat)]);
        r
    } else if d == 4 {
        let r = "4";
        assert(r@ =~= seq![digit_char(d as nat)]);
        r
    } else if d == 5 {
        let r = "5";
        assert(r@ =~= seq![digit_char(d as nat)]);
        r
    } else if d == 6 {
        let r = "6";
        assert(r@ =~= seq![digit_char(d as nat)]);
        r
    } else if d == 7 {
        let r = "7";
        assert(r@ =~= seq![digit_char(d as nat)]);
        r
    } else if d == 8 {
        let r = "8";
        assert(r@ =~= seq![digit_char(d as nat)]);
        r
    } else {
        let r = "9";
        assert(r@ =~= seq![digit_char(d as nat)]);
        r
    }
}


/// The index of the last occurrence of `c` in `s`, if any.
pub open spec fn rfind(s: Seq<char>, c: char) -> Option<int>
    decreases s.len(),
{
    if s.len() == 0 {
        None
    } else if s.last() == c {
        Some(s.len() - 1)
    } else {
        rfind(s.drop_last(), c)
    }
}

/// Finds the last occurrence of `c`, exactly as `rfind` describes.
pub fn rfind_str(s: &str, c: char) -> (r: Option<usize>)
    ensures
        match r {
            Some(i) => rfind(s@, c) == Some(i as int) && i < s@.len(),
            None => rfind(s@, c) is None,
        },
    decreases s@.len(),
{
    let n = s.unicode_len();
    if n == 0 {
        None
    } else if s.get_char(n - 1) == c {
        Some(n - 1)
    } else {
        let rest = s.substring_char(0, n - 1);
        proof {
            assert(rest@ =~= s@.drop_last());
        }
        rfind_str(rest, c)
    }
}

} // verus!
