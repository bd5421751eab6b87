//! Character and string utilities shared by the parsing and ranking modules.

use vstd::prelude::*;

verus! {

/// The Unicode white-space characters, the set that line and token trimming
/// works with.
pub open spec fn is_space_char(c: char) -> bool {
    let u = c as u32;
    u == 0x20 || u == 0x09 || u == 0x0a || u == 0x0b || u == 0x0c || u == 0x0d || u == 0x85
        || u == 0xa0 || u == 0x1680 || (0x2000 <= u && u <= 0x200a) || u == 0x2028 || u == 0x2029
        || u == 0x202f || u == 0x205f || u == 0x3000
}

pub fn is_space(c: char) -> (b: bool)
    ensures
        b == is_space_char(c),
{
    let u = c as u32;
    u == 0x20 || (0x09 <= u && u <= 0x0d) || u == 0x85 || u == 0xa0 || u == 0x1680 || (0x2000 <= u
        && u <= 0x200a) || u == 0x2028 || u == 0x2029 || u == 0x202f || u == 0x205f || u == 0x3000
}

/// What is left after dropping white space from the front.
pub open spec fn trim_start_spec(s: Seq<char>) -> Seq<char>
    decreases s.len(),
{
    if s.len() > 0 && is_space_char(s[0]) {
        trim_start_spec(s.drop_first())
    } else {
        s
    }
}

/// What is left after dropping white space from the back.
pub open spec fn trim_end_spec(s: Seq<char>) -> Seq<char>
    decreases s.len(),
{
    if s.len() > 0 && is_space_char(s.last()) {
        trim_end_spec(s.drop_last())
    } else {
        s
    }
}

/// What is left after dropping white space from both ends.
pub open spec fn trim_spec(s: Seq<char>) -> Seq<char> {
    trim_end_spec(trim_start_spec(s))
}

proof fn lemma_trim_start_skip(s: Seq<char>, i: int)
    requires
        0 <= i <= s.len(),
        forall|k: int| 0 <= k < i ==> is_space_char(s[k]),
    ensures
        trim_start_spec(s) == trim_start_spec(s.skip(i)),
    decreases i,
{
    if i > 0 {
        assert(s.skip(0) =~= s);
        assert(s.drop_first() =~= s.skip(1));
        lemma_trim_start_skip(s.drop_first(), i - 1);
        assert(s.drop_first().skip(i - 1) =~= s.skip(i));
    } else {
        assert(s.skip(0) =~= s);
    }
}

proof fn lemma_trim_start_fixed(s: Seq<char>)
    requires
        s.len() == 0 || !is_space_char(s[0]),
    ensures
        trim_start_spec(s) == s,
{
}

proof fn lemma_trim_end_take(s: Seq<char>, j: int)
    requires
        0 <= j <= s.len(),
        forall|k: int| j <= k < s.len() ==> is_space_char(s[k]),
    ensures
        trim_end_spec(s) == trim_end_spec(s.take(j)),
    decreases s.len() - j,
{
    if j < s.len() {
        assert(s.take(s.len() as int) =~= s);
        assert(s.drop_last() =~= s.take(s.len() - 1));
        lemma_trim_end_take(s.drop_last(), j);
        assert(s.drop_last().take(j) =~= s.take(j));
    } else {
        assert(s.take(s.len() as int) =~= s);
    }
}

proof fn lemma_trim_end_fixed(s: Seq<char>)
    requires
        s.len() == 0 || !is_space_char(s.last()),
    ensures
        trim_end_spec(s) == s,
{
}

/// Trims white space from both ends, as the history and selection grammars
/// require before any token is looked at.
pub fn trim_str<'a>(s: &'a str) -> (r: &'a str)
    ensures
        r@ == trim_spec(s@),
{
    let n = s.unicode_len();
    let mut i: usize = 0;
    while i < n
        invariant_except_break
            0 <= i <= n,
            n == s@.len(),
            forall|k: int| 0 <= k < i ==> is_space_char(s@[k]),
        ensures
            0 <= i <= n,
            n == s@.len(),
            forall|k: int| 0 <= k < i ==> is_space_char(s@[k]),
            i < n ==> !is_space_char(s@[i as int]),
        decreases n - i,
    {
        if !is_space(s.get_char(i)) {
            break ;
        }
        i = i + 1;
    }
    let mut j: usize = n;
    while j > i
        invariant_except_break
            i <= j <= n,
            n == s@.len(),
            forall|k: int| j <= k < n ==> is_space_char(s@[k]),
        ensures
            i <= j <= n,
            n == s@.len(),
            forall|k: int| j <= k < n ==> is_space_char(s@[k]),
            j > i ==> !is_space_char(s@[j - 1]),
        decreases j,
    {
        if !is_space(s.get_char(j - 1)) {
            break ;
        }
        j = j - 1;
    }
    let r = s.substring_char(i, j);
    proof {
        lemma_trim_start_skip(s@, i as int);
        let t = s@.skip(i as int);
        assert(r@ =~= t.take(j - i));
        if j > i {
            assert(!is_space_char(s@[i as int]));
            assert(t[0] == s@[i as int]);
            lemma_trim_start_fixed(t);
            assert(forall|k: int| j - i <= k < t.len() ==> is_space_char(#[trigger] t[k]));
            lemma_trim_end_take(t, j - i);
            assert(t.take(j - i).last() == s@[j - 1]);
            lemma_trim_end_fixed(t.take(j - i));
        } else {
            // everything was white space: the trimmed string is empty
            assert(forall|k: int| 0 <= k < t.len() ==> is_space_char(#[trigger] t[k]));
            lemma_trim_start_skip(t, t.len() as int);
            assert(t.skip(t.len() as int) =~= Seq::<char>::empty());
            assert(trim_start_spec(t).len() == 0);
            assert(r@ =~= Seq::<char>::empty());
        }
    }
    r
}

/// The characters of `s`, one vector element per character.
pub fn chars_of(s: &str) -> (v: Vec<char>)
    ensures
        v@ == s@,
{
    let n = s.unicode_len();
    let mut v: Vec<char> = Vec::new();
    let mut i: usize = 0;
    while i < n
        invariant
            0 <= i <= n,
            n == s@.len(),
            v@ =~= s@.take(i as int),
        decreases n - i,
    {
        v.push(s.get_char(i));
        i = i + 1;
    }
    proof {
        assert(v@ =~= s@);
    }
    v
}

/// Strict lexicographic order on character sequences, by Unicode scalar
/// value; it agrees with the byte order `String` comparison uses.
pub open spec fn lex_lt(a: Seq<char>, b: Seq<char>) -> bool
    decreases a.len(),
{
    if b.len() == 0 {
        false
    } else if a.len() == 0 {
        true
    } else if a[0] != b[0] {
        (a[0] as u32) < (b[0] as u32)
    } else {
        lex_lt(a.drop_first(), b.drop_first())
    }
}

pub fn str_lex_lt(a: &str, b: &str) -> (r: bool)
    ensures
        r == lex_lt(a@, b@),
{
    let va = chars_of(a);
    let vb = chars_of(b);
    let na = va.len();
    let nb = vb.len();
    let mut i: usize = 0;
    proof {
        assert(a@.skip(0) =~= a@);
        assert(b@.skip(0) =~= b@);
    }
    while i < na && i < nb
        invariant
            0 <= i <= na,
            0 <= i <= nb,
            na == a@.len(),
            nb == b@.len(),
            va@ == a@,
            vb@ == b@,
            lex_lt(a@, b@) == lex_lt(a@.skip(i as int), b@.skip(i as int)),
        decreases na - i,
    {
        let ca = va[i];
        let cb = vb[i];
        proof {
            assert(a@.skip(i as int)[0] == ca);
            assert(b@.skip(i as int)[0] == cb);
        }
        if ca != cb {
            return (ca as u32) < (cb as u32);
        }
        proof {
            assert(a@.skip(i as int).drop_first() =~= a@.skip(i + 1));
            assert(b@.skip(i as int).drop_first() =~= b@.skip(i + 1));
        }
        i = i + 1;
    }
    proof {
        assert(a@.skip(i as int).len() == na - i);
        assert(b@.skip(i as int).len() == nb - i);
    }
    na < nb
}

/// `needle` occurs as a contiguous run inside `hay`.
pub open spec fn contains_seq(hay: Seq<char>, needle: Seq<char>) -> bool {
    exists|i: int|
        0 <= i && i + needle.len() <= hay.len() && #[trigger] hay.subrange(i, i + needle.len())
            == needle
}

pub fn str_contains(hay: &str, needle: &str) -> (r: bool)
    ensures
        r == contains_seq(hay@, needle@),
{
    let vh = chars_of(hay);
    let vn = chars_of(needle);
    let nh = vh.len();
    let nn = vn.len();
    if nn > nh {
        return false;
    }
    if nn == 0 {
        proof {
            assert(hay@.subrange(0, 0 + needle@.len() as int) =~= needle@);
            assert(contains_seq(hay@, needle@));
        }
        return true;
    }
    let mut i: usize = 0;
    while i <= nh - nn
        invariant
            0 <= i <= nh - nn + 1,
            1 <= nn <= nh,
            nh == hay@.len(),
            nn == needle@.len(),
            vh@ == hay@,
            vn@ == needle@,
            forall|j: int| 0 <= j < i ==> #[trigger] hay@.subrange(j, j + nn) != needle@,
        decreases nh - nn - i + 1,
    {
        let mut k: usize = 0;
        let mut matched: bool = true;
        while k < nn
            invariant_except_break
                0 <= k <= nn,
                matched,
                i + nn <= nh,
                nh == hay@.len(),
                nn == needle@.len(),
                vh@ == hay@,
                vn@ == needle@,
                forall|m: int| 0 <= m < k ==> hay@[i + m] == needle@[m],
            ensures
                matched ==> forall|m: int| 0 <= m < nn ==> hay@[i + m] == needle@[m],
                !matched ==> hay@.subrange(i as int, i + nn) != needle@,
            decreases nn - k,
        {
            if vh[i + k] != vn[k] {
                matched = false;
                proof {
                    assert(hay@.subrange(i as int, i + nn)[k as int] == hay@[i + k]);
                }
                break ;
            }
            k = k + 1;
        }
        if matched {
            proof {
                assert(hay@.subrange(i as int, i + nn) =~= needle@);
            }
            return true;
        }
        i = i + 1;
    }
    proof {
        assert(forall|j: int|
            0 <= j && j + needle@.len() <= hay@.len() ==> #[trigger] hay@.subrange(
                j,
                j + needle@.len(),
            ) != needle@);
    }
    false
}

/// A decimal digit.
pub open spec fn is_digit_char(c: char) -> bool {
    0x30 <= c as u32 && c as u32 <= 0x39
}

pub open spec fn digit_of(c: char) -> nat {
    (c as u32 - 0x30) as nat
}

pub open spec fn all_digits(s: Seq<char>) -> bool {
    forall|k: int| 0 <= k < s.len() ==> is_digit_char(s[k])
}

/// The value of a run of decimal digits, most significant first.
pub open spec fn dec_val(s: Seq<char>) -> nat
    decreases s.len(),
{
    if s.len() == 0 {
        0
    } else {
        dec_val(s.drop_last()) * 10 + digit_of(s.last())
    }
}

/// The digits of a number token, with an optional leading `+` sign removed,
/// mirroring what `usize::from_str` accepts.
pub open spec fn digits_part(s: Seq<char>) -> Seq<char> {
    if s.len() > 0 && s[0] == '+' {
        s.drop_first()
    } else {
        s
    }
}

pub open spec fn is_number_token(s: Seq<char>) -> bool {
    digits_part(s).len() > 0 && all_digits(digits_part(s))
}

pub open spec fn number_value(s: Seq<char>) -> nat {
    dec_val(digits_part(s))
}

proof fn lemma_dec_val_prefix_le(s: Seq<char>, j: int)
    requires
        0 <= j <= s.len(),
    ensures
        dec_val(s.take(j)) <= dec_val(s),
    decreases s.len(),
{
    if j < s.len() {
        assert(s.drop_last().take(j) =~= s.take(j));
        lemma_dec_val_prefix_le(s.drop_last(), j);
    } else {
        assert(s.take(j) =~= s);
    }
}

/// Parses a token the way `usize::from_str` does after trimming: an optional
/// `+` sign, then one or more decimal digits; anything else, or a value that
/// does not fit in `usize`, fails.
pub fn parse_usize(token: &str) -> (r: Option<usize>)
    ensures
        ({
            let t = trim_spec(token@);
            match r {
                Some(v) => is_number_token(t) && number_value(t) == v as nat,
                None => !is_number_token(t) || number_value(t) > usize::MAX,
            }
        }),
{
    let t = trim_str(token);
    let v = chars_of(t);
    let n = v.len();
    let start: usize = if n > 0 && v[0] == '+' {
        1
    } else {
        0
    };
    let ghost ds = digits_part(t@);
    proof {
        assert(ds =~= t@.skip(start as int));
    }
    if n == start {
        return None;
    }
    let mut acc: usize = 0;
    let mut k: usize = start;
    while k < n
        invariant
            start <= k <= n,
            n == t@.len(),
            v@ == t@,
            start <= 1,
            ds == t@.skip(start as int),
            ds == digits_part(trim_spec(token@)),
            acc as nat == dec_val(ds.take((k - start) as int)),
            all_digits(ds.take((k - start) as int)),
        decreases n - k,
    {
        let c = v[k];
        let u = c as u32;
        if !(0x30 <= u && u <= 0x39) {
            proof {
                assert(ds[(k - start) as int] == t@[k as int]);
                assert(!is_digit_char(ds[(k - start) as int]));
            }
            return None;
        }
        let d = (u - 0x30) as usize;
        if acc > (usize::MAX - d) / 10 {
            proof {
                let j = (k - start) as int;
                assert(ds.take(j + 1).drop_last() =~= ds.take(j));
                assert(ds.take(j + 1).last() == ds[j] == t@[k as int]);
                assert(dec_val(ds.take(j + 1)) == acc as nat * 10 + d as nat);
                assert(acc as nat * 10 + d as nat > usize::MAX) by (nonlinear_arith)
                    requires
                        acc > (usize::MAX - d) / 10,
                        d <= 9,
                        d <= usize::MAX,
                ;
                lemma_dec_val_prefix_le(ds, j + 1);
            }
            return None;
        }
        proof {
            assert(acc * 10 + d <= usize::MAX) by (nonlinear_arith)
                requires
                    d <= 9,
                    acc <= (usize::MAX - d) / 10,
            ;
            let j = (k - start) as int;
            assert(ds.take(j + 1).drop_last() =~= ds.take(j));
            assert(ds.take(j + 1).last() == ds[j] == t@[k as int]);
            assert(is_digit_char(t@[k as int]));
        }
        acc = acc * 10 + d;
        k = k + 1;
    }
    proof {
        assert(ds.take((n - start) as int) =~= ds);
    }
    Some(acc)
}

/// The character for one decimal digit.
pub open spec fn dec_digit(d: nat) -> char {
    if d == 0 {
        '0'
    } else if d == 1 {
        '1'
    } else if d == 2 {
        '2'
    } else if d == 3 {
        '3'
    } else if d == 4 {
        '4'
    } else if d == 5 {
        '5'
    } else if d == 6 {
        '6'
    } else if d == 7 {
        '7'
    } else if d == 8 {
        '8'
    } else {
        '9'
    }
}

/// The decimal rendering of a number, without sign or leading zeros.
pub open spec fn dec_str(n: nat) -> Seq<char>
    decreases n,
{
    if n < 10 {
        seq![dec_digit(n)]
    } else {
        dec_str(n / 10).push(dec_digit(n % 10))
    }
}

fn digit_char_str(d: usize) -> (r: &'static str)
    requires
        d < 10,
    ensures
        r@ =~= seq![dec_digit(d as nat)],
{
    proof {
        reveal_strlit("0");
        reveal_strlit("1");
        reveal_strlit("2");
        reveal_strlit("3");
        reveal_strlit("4");
        reveal_strlit("5");
        reveal_strlit("6");
        reveal_strlit("7");
        reveal_strlit("8");
        reveal_strlit("9");
    }
    if d == 0 {
        "0"
    } else if d == 1 {
        "1"
    } else if d == 2 {
        "2"
    } else if d == 3 {
        "3"
    } else if d == 4 {
        "4"
    } else if d == 5 {
        "5"
    } else if d == 6 {
        "6"
    } else if d == 7 {
        "7"
    } else if d == 8 {
        "8"
    } else {
        "9"
    }
}

/// The digit characters of a least-significant-first digit list, read back
/// most significant first.
spec fn rev_digit_chars(s: Seq<usize>) -> Seq<char> {
    Seq::new(s.len(), |i: int| dec_digit(s[s.len() - 1 - i] as nat))
}

/// Renders a number in decimal, as the error messages need.
pub fn usize_to_string(n: usize) -> (s: String)
    ensures
        s@ == dec_str(n as nat),
{
    if n == 0 {
        let s = String::from_str(digit_char_str(0));
        proof {
            assert(s@ =~= dec_str(0));
        }
        return s;
    }
    let mut rev: Vec<usize> = Vec::new();
    let mut m: usize = n;
    while m > 0
        invariant
            n > 0,
            m > 0 ==> dec_str(n as nat) =~= dec_str(m as nat) + rev_digit_chars(rev@),
            m == 0 ==> dec_str(n as nat) =~= rev_digit_chars(rev@),
            forall|j: int| 0 <= j < rev@.len() ==> rev@[j] < 10,
        decreases m,
    {
        let d = m % 10;
        proof {
            let r0 = rev@;
            assert(rev_digit_chars(r0.push(d)) =~= seq![dec_digit(d as nat)] + rev_digit_chars(
                r0,
            ));
            if m < 10 {
                assert(dec_str(m as nat) =~= seq![dec_digit(d as nat)]);
                assert(dec_str(n as nat) =~= rev_digit_chars(r0.push(d)));
            } else {
                assert(dec_str(m as nat) =~= dec_str((m / 10) as nat) + seq![
                    dec_digit(d as nat),
                ]);
                assert(dec_str(n as nat) =~= dec_str((m / 10) as nat) + rev_digit_chars(
                    r0.push(d),
                ));
            }
        }
        rev.push(d);
        m = m / 10;
    }
    let len = rev.len();
    let mut s = String::new();
    let mut k: usize = len;
    while k > 0
        invariant
            0 <= k <= len,
            len == rev@.len(),
            forall|j: int| 0 <= j < rev@.len() ==> rev@[j] < 10,
            dec_str(n as nat) =~= rev_digit_chars(rev@),
            s@ =~= rev_digit_chars(rev@).take((len - k) as int),
        decreases k,
    {
        let d = rev[k - 1];
        proof {
            assert(rev_digit_chars(rev@)[(len - k) as int] == dec_digit(d as nat));
            assert(rev_digit_chars(rev@).take((len - k + 1) as int) =~= rev_digit_chars(
                rev@,
            ).take((len - k) as int) + seq![dec_digit(d as nat)]);
        }
        s.append(digit_char_str(d));
        k = k - 1;
    }
    proof {
        assert(s@ =~= dec_str(n as nat));
    }
    s
}

/// The lexicographic order never holds both ways round.
pub proof fn lemma_lex_lt_asym(a: Seq<char>, b: Seq<char>)
    ensures
        !(lex_lt(a, b) && lex_lt(b, a)),
    decreases a.len(),
{
    if a.len() > 0 && b.len() > 0 && a[0] == b[0] {
        lemma_lex_lt_asym(a.drop_first(), b.drop_first());
    }
}

/// The lexicographic order is transitive.
pub proof fn lemma_lex_lt_trans(a: Seq<char>, b: Seq<char>, c: Seq<char>)
    requires
        lex_lt(a, b),
        lex_lt(b, c),
    ensures
        lex_lt(a, c),
    decreases a.len(),
{
    if a.len() > 0 && b.len() > 0 && c.len() > 0 && a[0] == b[0] && b[0] == c[0] {
        lemma_lex_lt_trans(a.drop_first(), b.drop_first(), c.drop_first());
    }
}

/// The decimal rendering consists of digits and is never empty.
pub proof fn lemma_dec_str_digits(n: nat)
    ensures
        all_digits(dec_str(n)),
        dec_str(n).len() > 0,
        is_digit_char(dec_str(n)[0]),
    decreases n,
{
    if n < 10 {
        assert(is_digit_char(dec_digit(n)));
        assert(forall|k: int| 0 <= k < 1 ==> is_digit_char(seq![dec_digit(n)][k]));
    } else {
        lemma_dec_str_digits(n / 10);
        assert(is_digit_char(dec_digit(n % 10)));
        let s = dec_str(n / 10).push(dec_digit(n % 10));
        assert(forall|k: int|
            0 <= k < s.len() - 1 ==> s[k] == dec_str(n / 10)[k]);
        assert(forall|k: int| 0 <= k < s.len() ==> is_digit_char(s[k]));
    }
}

/// Rendering a number and reading the digits back gives the number.
pub proof fn lemma_dec_str_val(n: nat)
    ensures
        dec_val(dec_str(n)) == n,
    decreases n,
{
    if n < 10 {
        assert(seq![dec_digit(n)].drop_last() =~= Seq::<char>::empty());
        assert(seq![dec_digit(n)].last() == dec_digit(n));
        assert(dec_val(Seq::<char>::empty()) == 0);
        assert(digit_of(dec_digit(n)) == n);
        assert(dec_val(seq![dec_digit(n)]) == dec_val(seq![dec_digit(n)].drop_last()) * 10
            + digit_of(seq![dec_digit(n)].last()));
    } else {
        lemma_dec_str_val(n / 10);
        let s = dec_str(n);
        assert(0 <= n % 10 < 10) by (nonlinear_arith);
        assert(s.drop_last() =~= dec_str(n / 10));
        assert(s.last() == dec_digit(n % 10));
        assert(digit_of(dec_digit(n % 10)) == n % 10);
        assert(s.len() > 0);
        assert(dec_val(s) == dec_val(s.drop_last()) * 10 + digit_of(s.last()));
        assert(dec_val(s.drop_last()) == n / 10);
        assert(n == (n / 10) * 10 + (n % 10)) by (nonlinear_arith);
    }
}

/// Digits are not white space, so an all-digit text trims to itself.
pub proof fn lemma_trim_digits(s: Seq<char>)
    requires
        all_digits(s),
    ensures
        trim_spec(s) == s,
{
    if s.len() > 0 {
        assert(is_digit_char(s[0]) && !is_space_char(s[0]));
        assert(is_digit_char(s.last()) && !is_space_char(s.last()));
    }
}

/// The position of the first occurrence of `c` in `s`, or -1 when `c` does
/// not occur.
pub open spec fn first_index_of(s: Seq<char>, c: char) -> int
    decreases s.len(),
{
    if s.len() == 0 {
        -1
    } else if s[0] == c {
        0
    } else {
        let r = first_index_of(s.drop_first(), c);
        if r < 0 {
            -1
        } else {
            r + 1
        }
    }
}

pub proof fn lemma_first_index_at(s: Seq<char>, c: char, i: int)
    requires
        0 <= i < s.len(),
        s[i] == c,
        forall|k: int| 0 <= k < i ==> s[k] != c,
    ensures
        first_index_of(s, c) == i,
    decreases i,
{
    if i > 0 {
        assert(s.drop_first()[i - 1] == s[i]);
        assert(forall|k: int| 0 <= k < i - 1 ==> s.drop_first()[k] == s[k + 1]);
        lemma_first_index_at(s.drop_first(), c, i - 1);
    }
}

pub proof fn lemma_first_index_none(s: Seq<char>, c: char)
    requires
        forall|k: int| 0 <= k < s.len() ==> s[k] != c,
    ensures
        first_index_of(s, c) == -1,
    decreases s.len(),
{
    if s.len() > 0 {
        assert(forall|k: int| 0 <= k < s.len() - 1 ==> s.drop_first()[k] == s[k + 1]);
        lemma_first_index_none(s.drop_first(), c);
    }
}

/// The keyword `all`, compared without regard to ASCII case.
pub open spec fn is_all_keyword(s: Seq<char>) -> bool {
    s.len() == 3 && (s[0] == 'a' || s[0] == 'A') && (s[1] == 'l' || s[1] == 'L') && (s[2] == 'l'
        || s[2] == 'L')
}

pub fn str_is_all(s: &str) -> (b: bool)
    ensures
        b == is_all_keyword(s@),
{
    let n = s.unicode_len();
    if n != 3 {
        return false;
    }
    let c0 = s.get_char(0);
    let c1 = s.get_char(1);
    let c2 = s.get_char(2);
    (c0 == 'a' || c0 == 'A') && (c1 == 'l' || c1 == 'L') && (c2 == 'l' || c2 == 'L')
}

} // verus!
