//! The multi-select expression parser: `all`, comma or space separated
//! indices, and `start-end` ranges, validated against a bound.

use vstd::prelude::*;
use crate::text::{all_digits, dec_str, dec_val, digit_of, digits_part, first_index_of,
    is_all_keyword, is_digit_char, is_number_token, is_space_char, lemma_first_index_at,
    lemma_first_index_none, number_value, parse_usize, str_is_all, trim_end_spec, trim_spec,
    trim_start_spec, trim_str, usize_to_string};
use super::recommend::views_of;
use super::types::{RecView, Recommendation};

verus! {

/// Why a selection expression was rejected.
#[derive(Debug)]
pub enum SelectionError {
    /// An index of 0 or above the bound.
    OutOfRange(usize),
    /// A token that is not a decimal number.
    NotANumber(String),
    /// A `start-end` range with `start > end`.
    InvalidRange(String),
    /// Tokens were given but none selected anything.
    NoValidSelection,
}

/// The mathematical shape of a selection error.
pub enum SelErrView {
    OutOfRange(nat),
    NotANumber(Seq<char>),
    InvalidRange(Seq<char>),
    NoValidSelection,
}

impl View for SelectionError {
    type V = SelErrView;

    open spec fn view(&self) -> SelErrView {
        match self {
            SelectionError::OutOfRange(v) => SelErrView::OutOfRange(*v as nat),
            SelectionError::NotANumber(t) => SelErrView::NotANumber(t@),
            SelectionError::InvalidRange(t) => SelErrView::InvalidRange(t@),
            SelectionError::NoValidSelection => SelErrView::NoValidSelection,
        }
    }
}

impl SelectionError {
    /// The message shown for this error.
    pub open spec fn message_spec(e: SelErrView) -> Seq<char> {
        match e {
            SelErrView::OutOfRange(v) => "out of range: "@ + dec_str(v),
            SelErrView::NotANumber(t) => "not a number: "@ + t,
            SelErrView::InvalidRange(t) => "invalid range: "@ + t,
            SelErrView::NoValidSelection => "no valid selection"@,
        }
    }

    /// Renders the error the way it is reported to the user.
    pub fn message(&self) -> (r: String)
        ensures
            r@ == Self::message_spec(self@),
    {
        match self {
            SelectionError::OutOfRange(v) => {
                let mut s = String::from_str("out of range: ");
                let num = usize_to_string(*v);
                s.append(num.as_str());
                s
            },
            SelectionError::NotANumber(t) => {
                let mut s = String::from_str("not a number: ");
                s.append(t.as_str());
                s
            },
            SelectionError::InvalidRange(t) => {
                let mut s = String::from_str("invalid range: ");
                s.append(t.as_str());
                s
            },
            SelectionError::NoValidSelection => String::from_str("no valid selection"),
        }
    }
}

/// A separator in a selection expression: a comma or white space.
pub open spec fn is_sep_char(c: char) -> bool {
    c == ',' || is_space_char(c)
}

/// The tokens of the remaining input `s`, with `cur` the partial token read
/// so far.
pub open spec fn tokens_acc(s: Seq<char>, cur: Seq<char>) -> Seq<Seq<char>>
    decreases s.len(),
{
    if s.len() == 0 {
        if cur.len() > 0 {
            seq![cur]
        } else {
            seq![]
        }
    } else if is_sep_char(s[0]) {
        if cur.len() > 0 {
            seq![cur] + tokens_acc(s.drop_first(), seq![])
        } else {
            tokens_acc(s.drop_first(), seq![])
        }
    } else {
        tokens_acc(s.drop_first(), cur.push(s[0]))
    }
}

/// The tokens of a selection expression: the maximal runs free of commas and
/// white space.
pub open spec fn tokens_of(s: Seq<char>) -> Seq<Seq<char>> {
    tokens_acc(s, seq![])
}

/// What one bare index token means: its decimal value, or a not-a-number
/// error carrying the token.
pub open spec fn single_index_spec(t: Seq<char>) -> Result<usize, SelErrView> {
    let tt = trim_spec(t);
    if is_number_token(tt) && number_value(tt) <= usize::MAX {
        Ok(number_value(tt) as usize)
    } else {
        Err(SelErrView::NotANumber(t))
    }
}

/// What one token means as a range: nothing when it has no `-`; otherwise
/// both sides must be indices, in order.
pub open spec fn parse_range_spec(t: Seq<char>) -> Result<Option<(usize, usize)>, SelErrView> {
    let p = first_index_of(t, '-');
    if !(0 <= p < t.len()) {
        Ok(None)
    } else {
        match single_index_spec(t.subrange(0, p)) {
            Err(e) => Err(e),
            Ok(sv) => match single_index_spec(t.subrange(p + 1, t.len() as int)) {
                Err(e) => Err(e),
                Ok(ev) => if sv > ev {
                    Err(SelErrView::InvalidRange(t))
                } else {
                    Ok(Some((sv, ev)))
                },
            },
        }
    }
}

/// Adding one index: 0 and anything above the bound are fatal; a repeated
/// index is dropped; a fresh one is appended.
pub open spec fn push_index_spec(idx: usize, max: usize, acc: Seq<usize>) -> Result<
    Seq<usize>,
    SelErrView,
> {
    if idx == 0 || idx > max {
        Err(SelErrView::OutOfRange(idx as nat))
    } else if acc.contains(idx) {
        Ok(acc)
    } else {
        Ok(acc.push(idx))
    }
}

/// Adding every index from `i` through `end`, in order, stopping at the
/// first out-of-range one.
pub open spec fn add_range_spec(i: usize, end: usize, max: usize, acc: Seq<usize>) -> Result<
    Seq<usize>,
    SelErrView,
>
    decreases end - i,
{
    if i > end {
        Ok(acc)
    } else {
        match push_index_spec(i, max, acc) {
            Err(e) => Err(e),
            Ok(acc2) => if i == end {
                Ok(acc2)
            } else {
                add_range_spec((i + 1) as usize, end, max, acc2)
            },
        }
    }
}

/// What one token contributes: a range expands element by element, anything
/// else must be a bare index.
pub open spec fn token_step_spec(t: Seq<char>, max: usize, acc: Seq<usize>) -> Result<
    Seq<usize>,
    SelErrView,
> {
    match parse_range_spec(t) {
        Err(e) => Err(e),
        Ok(Some((start, end))) => add_range_spec(start, end, max, acc),
        Ok(None) => match single_index_spec(t) {
            Err(e) => Err(e),
            Ok(v) => push_index_spec(v, max, acc),
        },
    }
}

/// The indices all tokens together contribute, processed left to right.
pub open spec fn tokens_step_spec(ts: Seq<Seq<char>>, max: usize, acc: Seq<usize>) -> Result<
    Seq<usize>,
    SelErrView,
>
    decreases ts.len(),
{
    if ts.len() == 0 {
        Ok(acc)
    } else {
        match token_step_spec(ts[0], max, acc) {
            Err(e) => Err(e),
            Ok(acc2) => tokens_step_spec(ts.drop_first(), max, acc2),
        }
    }
}

/// The indices 1 through `max`, in ascending order.
pub open spec fn seq_1_to(max: usize) -> Seq<usize> {
    Seq::new(max as nat, |i: int| (i + 1) as usize)
}

/// What a whole selection expression means: nothing for blank input, every
/// index for `all`, else the tokens' indices, which must not come out empty.
pub open spec fn parse_selection_spec(input: Seq<char>, max: usize) -> Result<
    Seq<usize>,
    SelErrView,
> {
    let t = trim_spec(input);
    if t.len() == 0 {
        Ok(seq![])
    } else if is_all_keyword(t) {
        Ok(seq_1_to(max))
    } else {
        match tokens_step_spec(tokens_of(t), max, seq![]) {
            Err(e) => Err(e),
            Ok(ids) => if ids.len() == 0 {
                Err(SelErrView::NoValidSelection)
            } else {
                Ok(ids)
            },
        }
    }
}

proof fn lemma_tokens_acc_no_sep(s: Seq<char>, cur: Seq<char>)
    requires
        forall|k: int| 0 <= k < s.len() ==> !is_sep_char(s[k]),
    ensures
        tokens_acc(s, cur) == (if cur.len() + s.len() > 0 {
            seq![cur + s]
        } else {
            Seq::<Seq<char>>::empty()
        }),
    decreases s.len(),
{
    if s.len() == 0 {
        assert(cur + s =~= cur);
        if cur.len() > 0 {
            assert(tokens_acc(s, cur) =~= seq![cur + s]);
        } else {
            assert(tokens_acc(s, cur) =~= Seq::<Seq<char>>::empty());
        }
    } else {
        assert(forall|k: int|
            0 <= k < s.len() - 1 ==> s.drop_first()[k] == s[k + 1]);
        lemma_tokens_acc_no_sep(s.drop_first(), cur.push(s[0]));
        assert(cur.push(s[0]) + s.drop_first() =~= cur + s);
    }
}

proof fn lemma_tokens_no_sep(s: Seq<char>)
    requires
        s.len() > 0,
        forall|k: int| 0 <= k < s.len() ==> !is_sep_char(s[k]),
    ensures
        tokens_of(s) == seq![s],
{
    lemma_tokens_acc_no_sep(s, seq![]);
    assert(seq![] + s =~= s);
}

proof fn lemma_digits_not_sep(t: Seq<char>)
    requires
        all_digits(t),
    ensures
        forall|k: int| 0 <= k < t.len() ==> !is_sep_char(t[k]),
{
    assert(forall|k: int|
        0 <= k < t.len() ==> is_digit_char(t[k]) && !is_sep_char(t[k]));
}

proof fn lemma_dec_val_single(c: char)
    ensures
        dec_val(seq![c]) == digit_of(c),
{
    assert(seq![c].drop_last() =~= Seq::<char>::empty());
    assert(dec_val(Seq::<char>::empty()) == 0);
    assert(seq![c].last() == c);
    assert(dec_val(seq![c]) == dec_val(seq![c].drop_last()) * 10 + digit_of(seq![c].last()));
}

proof fn lemma_digit_token(t: Seq<char>)
    requires
        t.len() > 0,
        all_digits(t),
        dec_val(t) <= usize::MAX,
    ensures
        single_index_spec(t) == Ok::<usize, SelErrView>(dec_val(t) as usize),
{
    crate::text::lemma_trim_digits(t);
    assert(is_digit_char(t[0]) && t[0] != '+');
    assert(digits_part(t) == t);
}

proof fn lemma_digit_token_no_range(t: Seq<char>)
    requires
        all_digits(t),
    ensures
        parse_range_spec(t) == Ok::<Option<(usize, usize)>, SelErrView>(None),
{
    assert(forall|k: int|
        0 <= k < t.len() ==> is_digit_char(t[k]) && t[k] != '-');
    crate::text::lemma_first_index_none(t, '-');
}

proof fn lemma_single_number_input(t: Seq<char>, max: usize)
    requires
        t.len() > 0,
        all_digits(t),
    ensures
        dec_val(t) > usize::MAX ==> parse_selection_spec(t, max) == Err::<Seq<usize>, SelErrView>(
            SelErrView::NotANumber(t),
        ),
        dec_val(t) <= usize::MAX && (dec_val(t) == 0 || dec_val(t) > max)
            ==> parse_selection_spec(t, max) == Err::<Seq<usize>, SelErrView>(
            SelErrView::OutOfRange(dec_val(t)),
        ),
        dec_val(t) <= usize::MAX && 1 <= dec_val(t) <= max ==> parse_selection_spec(t, max)
            == Ok::<Seq<usize>, SelErrView>(seq![dec_val(t) as usize]),
{
    crate::text::lemma_trim_digits(t);
    assert(is_digit_char(t[0]));
    assert(!(t[0] == 'a' || t[0] == 'A'));
    assert(!is_all_keyword(t));
    lemma_digits_not_sep(t);
    lemma_tokens_no_sep(t);
    lemma_digit_token_no_range(t);
    let ts = seq![t];
    assert(ts[0] == t);
    assert(ts.drop_first() =~= Seq::<Seq<char>>::empty());
    assert(digits_part(t) == t);
    if dec_val(t) > usize::MAX {
        assert(single_index_spec(t) == Err::<usize, SelErrView>(SelErrView::NotANumber(t)));
    } else {
        lemma_digit_token(t);
        let v = dec_val(t) as usize;
        if v == 0 || v > max {
            assert(push_index_spec(v, max, seq![]) == Err::<Seq<usize>, SelErrView>(
                SelErrView::OutOfRange(dec_val(t)),
            ));
        } else {
            assert(!Seq::<usize>::empty().contains(v));
            assert(seq![] =~= Seq::<usize>::empty());
            assert(push_index_spec(v, max, seq![]) == Ok::<Seq<usize>, SelErrView>(seq![v]));
            assert(tokens_step_spec(Seq::<Seq<char>>::empty(), max, seq![v]) == Ok::<
                Seq<usize>,
                SelErrView,
            >(seq![v]));
            assert(tokens_step_spec(ts, max, seq![]) == Ok::<Seq<usize>, SelErrView>(seq![v]));
        }
    }
}

/// The selection-set invariant: only indices in `[1, max]`, each at most
/// once.
pub open spec fn valid_selection(ids: Seq<usize>, max: usize) -> bool {
    &&& forall|k: int| 0 <= k < ids.len() ==> 1 <= #[trigger] ids[k] <= max
    &&& forall|k1: int, k2: int|
        0 <= k1 < k2 < ids.len() ==> ids[k1] != ids[k2]
}

proof fn lemma_push_index_valid(idx: usize, max: usize, acc: Seq<usize>)
    requires
        valid_selection(acc, max),
    ensures
        push_index_spec(idx, max, acc) matches Ok(ids) ==> valid_selection(ids, max),
{
    if !(idx == 0 || idx > max) && !acc.contains(idx) {
        let ids = acc.push(idx);
        assert forall|k1: int, k2: int| 0 <= k1 < k2 < ids.len() implies ids[k1] != ids[k2] by {
            if k2 == acc.len() {
                if ids[k1] == idx {
                    assert(acc[k1] == idx);
                    assert(acc.contains(idx));
                }
            }
        }
    }
}

proof fn lemma_add_range_valid(i: usize, end: usize, max: usize, acc: Seq<usize>)
    requires
        valid_selection(acc, max),
    ensures
        add_range_spec(i, end, max, acc) matches Ok(ids) ==> valid_selection(ids, max),
    decreases end - i,
{
    if i <= end {
        lemma_push_index_valid(i, max, acc);
        match push_index_spec(i, max, acc) {
            Ok(acc2) => {
                if i != end {
                    lemma_add_range_valid((i + 1) as usize, end, max, acc2);
                }
            },
            Err(_) => {
            },
        }
    }
}

proof fn lemma_token_step_valid(t: Seq<char>, max: usize, acc: Seq<usize>)
    requires
        valid_selection(acc, max),
    ensures
        token_step_spec(t, max, acc) matches Ok(ids) ==> valid_selection(ids, max),
{
    match parse_range_spec(t) {
        Ok(Some((start, end))) => {
            lemma_add_range_valid(start, end, max, acc);
        },
        Ok(None) => {
            match single_index_spec(t) {
                Ok(v) => {
                    lemma_push_index_valid(v, max, acc);
                },
                Err(_) => {
                },
            }
        },
        Err(_) => {
        },
    }
}

proof fn lemma_tokens_step_valid(ts: Seq<Seq<char>>, max: usize, acc: Seq<usize>)
    requires
        valid_selection(acc, max),
    ensures
        tokens_step_spec(ts, max, acc) matches Ok(ids) ==> valid_selection(ids, max),
    decreases ts.len(),
{
    if ts.len() > 0 {
        lemma_token_step_valid(ts[0], max, acc);
        match token_step_spec(ts[0], max, acc) {
            Ok(acc2) => {
                lemma_tokens_step_valid(ts.drop_first(), max, acc2);
            },
            Err(_) => {
            },
        }
    }
}

/// Index-set invariant: whatever the parser accepts holds only indices in
/// `[1, max]`, each at most once.
pub proof fn lemma_selection_in_bounds(input: Seq<char>, max: usize)
    ensures
        parse_selection_spec(input, max) matches Ok(ids) ==> valid_selection(ids, max),
{
    let t = trim_spec(input);
    if t.len() == 0 {
    } else if is_all_keyword(t) {
        assert(valid_selection(seq_1_to(max), max));
    } else {
        assert(valid_selection(Seq::<usize>::empty(), max));
        assert(seq![] =~= Seq::<usize>::empty());
        lemma_tokens_step_valid(tokens_of(t), max, seq![]);
    }
}

/// Empty-input law: input that trims to nothing selects nothing and is no
/// error.
pub proof fn lemma_blank_input_selects_nothing(input: Seq<char>, max: usize)
    requires
        trim_spec(input).len() == 0,
    ensures
        parse_selection_spec(input, max) == Ok::<Seq<usize>, SelErrView>(Seq::<usize>::empty()),
{
    assert(seq![] =~= Seq::<usize>::empty());
}

/// Selection idempotence: `all` yields every index from 1 through the
/// bound, whatever the bound is.
pub proof fn lemma_all_selects_all(max: usize)
    ensures
        parse_selection_spec("all"@, max) == Ok::<Seq<usize>, SelErrView>(seq_1_to(max)),
        seq_1_to(max).len() == max,
        forall|i: int| 0 <= i < max ==> seq_1_to(max)[i] == i + 1,
{
    reveal_strlit("all");
    let s = "all"@;
    assert(!is_space_char(s[0]));
    assert(trim_start_spec(s) == s);
    assert(!is_space_char(s.last()));
    assert(trim_end_spec(s) == s);
    assert(is_all_keyword(s));
}

/// Selection dedup: a repeated index is kept once, under any bound large
/// enough for it.
pub proof fn lemma_duplicate_indices_collapse(max: usize)
    requires
        max >= 2,
    ensures
        parse_selection_spec("2,2"@, max) == Ok::<Seq<usize>, SelErrView>(seq![2usize]),
{
    reveal_strlit("2,2");
    let s = "2,2"@;
    assert(!is_space_char(s[0]));
    assert(trim_start_spec(s) == s);
    assert(!is_space_char(s.last()));
    assert(trim_end_spec(s) == s);
    assert(!is_all_keyword(s));
    let t = seq!['2'];
    // the comma splits the expression into two copies of the digit token
    let s1 = s.drop_first();
    let s2 = s1.drop_first();
    let s3 = s2.drop_first();
    assert(s1[0] == ',' && s1.len() == 2);
    assert(s2[0] == '2' && s2.len() == 1);
    assert(s3.len() == 0);
    assert(!is_sep_char(s[0]));
    assert(tokens_acc(s, seq![]) == tokens_acc(s1, seq![].push(s[0])));
    assert(seq![].push(s[0]) =~= t);
    assert(is_sep_char(s1[0]));
    assert(tokens_acc(s1, t) == seq![t] + tokens_acc(s2, seq![]));
    assert(!is_sep_char(s2[0]));
    assert(tokens_acc(s2, seq![]) == tokens_acc(s3, seq![].push(s2[0])));
    assert(seq![].push(s2[0]) =~= t);
    assert(tokens_acc(s3, t) == seq![t]);
    assert(tokens_of(s) == seq![t] + seq![t]);
    let ts = seq![t] + seq![t];
    assert(all_digits(t));
    lemma_dec_val_single('2');
    assert(dec_val(t) == 2);
    lemma_digit_token_no_range(t);
    lemma_digit_token(t);
    // first token adds 2, the second sees it is already there
    assert(!Seq::<usize>::empty().contains(2usize));
    assert(seq![] =~= Seq::<usize>::empty());
    assert(push_index_spec(2usize, max, seq![]) == Ok::<Seq<usize>, SelErrView>(seq![2usize]));
    assert(seq![2usize][0] == 2usize);
    assert(seq![2usize].contains(2usize));
    assert(push_index_spec(2usize, max, seq![2usize]) == Ok::<Seq<usize>, SelErrView>(
        seq![2usize],
    ));
    assert(ts[0] == t);
    assert(ts.drop_first() =~= seq![t]);
    assert(seq![t][0] == t);
    assert(seq![t].drop_first() =~= Seq::<Seq<char>>::empty());
    assert(tokens_step_spec(Seq::<Seq<char>>::empty(), max, seq![2usize]) == Ok::<
        Seq<usize>,
        SelErrView,
    >(seq![2usize]));
    assert(tokens_step_spec(seq![t], max, seq![2usize]) == Ok::<Seq<usize>, SelErrView>(
        seq![2usize],
    ));
    assert(tokens_step_spec(ts, max, seq![]) == Ok::<Seq<usize>, SelErrView>(seq![2usize]));
}

/// Range expansion: `1-3` yields 1, 2, 3 under any bound of at least 3.
pub proof fn lemma_range_expansion(max: usize)
    requires
        max >= 3,
    ensures
        parse_selection_spec("1-3"@, max) == Ok::<Seq<usize>, SelErrView>(seq![
            1usize,
            2usize,
            3usize,
        ]),
{
    reveal_strlit("1-3");
    let s = "1-3"@;
    assert(!is_space_char(s[0]));
    assert(trim_start_spec(s) == s);
    assert(!is_space_char(s.last()));
    assert(trim_end_spec(s) == s);
    assert(!is_all_keyword(s));
    assert(forall|k: int| 0 <= k < s.len() ==> !is_sep_char(s[k]));
    lemma_tokens_no_sep(s);
    // the dash is found at position 1
    let s1 = s.drop_first();
    assert(s1[0] == '-' && s1.len() == 2);
    assert(first_index_of(s1, '-') == 0);
    assert(first_index_of(s, '-') == 1);
    let a = s.subrange(0, 1);
    let b = s.subrange(2, 3);
    assert(a =~= seq!['1']);
    assert(b =~= seq!['3']);
    assert(all_digits(a) && all_digits(b));
    lemma_dec_val_single('1');
    lemma_dec_val_single('3');
    assert(dec_val(a) == 1);
    assert(dec_val(b) == 3);
    lemma_digit_token(a);
    lemma_digit_token(b);
    assert(parse_range_spec(s) == Ok::<Option<(usize, usize)>, SelErrView>(
        Some((1usize, 3usize)),
    ));
    // the range adds 1, 2 and 3 in turn
    assert(seq![] =~= Seq::<usize>::empty());
    assert(!Seq::<usize>::empty().contains(1usize));
    assert(push_index_spec(1usize, max, seq![]) == Ok::<Seq<usize>, SelErrView>(seq![1usize]));
    assert(!seq![1usize].contains(2usize)) by {
        assert(forall|i: int| 0 <= i < 1 ==> seq![1usize][i] != 2usize);
    }
    assert(push_index_spec(2usize, max, seq![1usize]) == Ok::<Seq<usize>, SelErrView>(seq![
        1usize,
        2usize,
    ])) by {
        assert(seq![1usize].push(2usize) =~= seq![1usize, 2usize]);
    }
    assert(!seq![1usize, 2usize].contains(3usize)) by {
        assert(forall|i: int| 0 <= i < 2 ==> seq![1usize, 2usize][i] != 3usize);
    }
    assert(push_index_spec(3usize, max, seq![1usize, 2usize]) == Ok::<Seq<usize>, SelErrView>(
        seq![1usize, 2usize, 3usize],
    )) by {
        assert(seq![1usize, 2usize].push(3usize) =~= seq![1usize, 2usize, 3usize]);
    }
    assert(add_range_spec(3usize, 3usize, max, seq![1usize, 2usize]) == Ok::<
        Seq<usize>,
        SelErrView,
    >(seq![1usize, 2usize, 3usize]));
    assert(add_range_spec(2usize, 3usize, max, seq![1usize]) == Ok::<Seq<usize>, SelErrView>(
        seq![1usize, 2usize, 3usize],
    ));
    assert(add_range_spec(1usize, 3usize, max, seq![]) == Ok::<Seq<usize>, SelErrView>(seq![
        1usize,
        2usize,
        3usize,
    ]));
    let ts = seq![s];
    assert(ts[0] == s);
    assert(ts.drop_first() =~= Seq::<Seq<char>>::empty());
    assert(tokens_step_spec(Seq::<Seq<char>>::empty(), max, seq![1usize, 2usize, 3usize]) == Ok::<
        Seq<usize>,
        SelErrView,
    >(seq![1usize, 2usize, 3usize]));
    assert(tokens_step_spec(ts, max, seq![]) == Ok::<Seq<usize>, SelErrView>(seq![
        1usize,
        2usize,
        3usize,
    ]));
}

/// Range direction: an inverted range is rejected, whatever the bound.
pub proof fn lemma_reverse_range_rejected(max: usize)
    ensures
        parse_selection_spec("3-1"@, max) == Err::<Seq<usize>, SelErrView>(
            SelErrView::InvalidRange("3-1"@),
        ),
{
    reveal_strlit("3-1");
    let s = "3-1"@;
    assert(!is_space_char(s[0]));
    assert(trim_start_spec(s) == s);
    assert(!is_space_char(s.last()));
    assert(trim_end_spec(s) == s);
    assert(!is_all_keyword(s));
    assert(forall|k: int| 0 <= k < s.len() ==> !is_sep_char(s[k]));
    lemma_tokens_no_sep(s);
    let s1 = s.drop_first();
    assert(s1[0] == '-' && s1.len() == 2);
    assert(first_index_of(s1, '-') == 0);
    assert(first_index_of(s, '-') == 1);
    let a = s.subrange(0, 1);
    let b = s.subrange(2, 3);
    assert(a =~= seq!['3']);
    assert(b =~= seq!['1']);
    assert(all_digits(a) && all_digits(b));
    lemma_dec_val_single('3');
    lemma_dec_val_single('1');
    assert(dec_val(a) == 3);
    assert(dec_val(b) == 1);
    lemma_digit_token(a);
    lemma_digit_token(b);
    assert(parse_range_spec(s) == Err::<Option<(usize, usize)>, SelErrView>(
        SelErrView::InvalidRange(s),
    ));
    let ts = seq![s];
    assert(ts[0] == s);
    assert(tokens_step_spec(ts, max, seq![]) == Err::<Seq<usize>, SelErrView>(
        SelErrView::InvalidRange(s),
    ));
}

/// Bound check: `0` is rejected whatever the bound is.
pub proof fn lemma_zero_always_out_of_range(max: usize)
    ensures
        parse_selection_spec("0"@, max) == Err::<Seq<usize>, SelErrView>(
            SelErrView::OutOfRange(0),
        ),
{
    reveal_strlit("0");
    let s = "0"@;
    assert(s.len() == 1 && s[0] == '0');
    assert(all_digits(s));
    lemma_dec_val_single('0');
    assert(s =~= seq!['0']);
    assert(dec_val(s) == 0);
    lemma_single_number_input(s, max);
}

/// Bound check: the index one above the bound is rejected whatever the
/// bound is; when it fits the index type the error names the index.
pub proof fn lemma_above_bound_out_of_range(max: usize)
    ensures
        parse_selection_spec(dec_str(max as nat + 1), max) is Err,
        max < usize::MAX ==> parse_selection_spec(dec_str(max as nat + 1), max) == Err::<
            Seq<usize>,
            SelErrView,
        >(SelErrView::OutOfRange(max as nat + 1)),
{
    let n = max as nat + 1;
    crate::text::lemma_dec_str_digits(n);
    crate::text::lemma_dec_str_val(n);
    lemma_single_number_input(dec_str(n), max);
}

/// Splits a selection expression into its tokens: maximal runs free of
/// commas and white space.
pub fn tokenize_selection(input: &str) -> (tokens: Vec<String>)
    ensures
        tokens.deep_view() == tokens_of(input@),
{
    let n = input.unicode_len();
    let mut tokens: Vec<String> = Vec::new();
    let mut start: usize = 0;
    let mut i: usize = 0;
    proof {
        assert(input@.skip(0) =~= input@);
        assert(input@.subrange(0, 0) =~= Seq::<char>::empty());
        assert(tokens.deep_view() =~= Seq::<Seq<char>>::empty());
        assert(Seq::<Seq<char>>::empty() + tokens_acc(input@, seq![]) =~= tokens_acc(
            input@,
            seq![],
        ));
    }
    while i < n
        invariant
            0 <= start <= i <= n,
            n == input@.len(),
            forall|k: int| start <= k < i ==> !is_sep_char(input@[k]),
            tokens_of(input@) =~= tokens.deep_view() + tokens_acc(
                input@.skip(i as int),
                input@.subrange(start as int, i as int),
            ),
        decreases n - i,
    {
        let c = input.get_char(i);
        let ghost rem = input@.skip(i as int);
        let ghost cur = input@.subrange(start as int, i as int);
        proof {
            assert(rem[0] == input@[i as int]);
            assert(rem.drop_first() =~= input@.skip(i + 1));
        }
        if c == ',' || crate::text::is_space(c) {
            if start < i {
                let token = input.substring_char(start, i);
                let ghost old_tokens = tokens@;
                tokens.push(String::from_str(token));
                proof {
                    assert(token@ == cur);
                    assert(tokens.deep_view() =~= old_tokens.map_values(
                        |s: String| s.deep_view(),
                    ).push(cur));
                    assert(tokens.deep_view() =~= Seq::new(
                        old_tokens.len(),
                        |j: int| old_tokens[j].deep_view(),
                    ).push(cur));
                    assert(tokens_acc(rem, cur) == seq![cur] + tokens_acc(
                        rem.drop_first(),
                        seq![],
                    ));
                    assert(input@.subrange((i + 1) as int, (i + 1) as int) =~= Seq::<
                        char,
                    >::empty());
                }
            } else {
                proof {
                    assert(cur =~= Seq::<char>::empty());
                    assert(tokens_acc(rem, cur) == tokens_acc(rem.drop_first(), seq![]));
                    assert(input@.subrange((i + 1) as int, (i + 1) as int) =~= Seq::<
                        char,
                    >::empty());
                }
            }
            start = i + 1;
        } else {
            proof {
                assert(tokens_acc(rem, cur) == tokens_acc(
                    rem.drop_first(),
                    cur.push(input@[i as int]),
                ));
                assert(cur.push(input@[i as int]) =~= input@.subrange(start as int, i + 1));
            }
        }
        i = i + 1;
    }
    let ghost cur = input@.subrange(start as int, n as int);
    proof {
        assert(input@.skip(n as int) =~= Seq::<char>::empty());
    }
    if start < n {
        let token = input.substring_char(start, n);
        let ghost old_tokens = tokens@;
        tokens.push(String::from_str(token));
        proof {
            assert(token@ == cur);
            assert(tokens_acc(Seq::<char>::empty(), cur) == seq![cur]);
            assert(tokens.deep_view() =~= Seq::new(
                old_tokens.len(),
                |j: int| old_tokens[j].deep_view(),
            ).push(cur));
            assert(tokens.deep_view() =~= tokens_of(input@));
        }
    } else {
        proof {
            assert(cur =~= Seq::<char>::empty());
            assert(tokens_acc(Seq::<char>::empty(), cur) =~= Seq::<Seq<char>>::empty());
            assert(tokens.deep_view() =~= tokens_of(input@));
        }
    }
    tokens
}

/// Parses one bare index token as `usize::from_str` would.
pub fn parse_single_index(token: &str) -> (r: Result<usize, SelectionError>)
    ensures
        ({
            match r {
                Ok(v) => single_index_spec(token@) == Ok::<usize, SelErrView>(v),
                Err(e) => single_index_spec(token@) == Err::<usize, SelErrView>(e@),
            }
        }),
{
    match parse_usize(token) {
        Some(v) => Ok(v),
        None => Err(SelectionError::NotANumber(String::from_str(token))),
    }
}

/// Recognises a `start-end` range token; a token without `-` is no range.
pub fn parse_range(token: &str) -> (r: Result<Option<(usize, usize)>, SelectionError>)
    ensures
        ({
            match r {
                Ok(p) => parse_range_spec(token@) == Ok::<Option<(usize, usize)>, SelErrView>(p),
                Err(e) => parse_range_spec(token@) == Err::<Option<(usize, usize)>, SelErrView>(
                    e@,
                ),
            }
        }),
{
    let n = token.unicode_len();
    let mut p: usize = 0;
    let mut found = false;
    while p < n
        invariant_except_break
            0 <= p <= n,
            n == token@.len(),
            !found,
            forall|k: int| 0 <= k < p ==> token@[k] != '-',
        ensures
            0 <= p <= n,
            n == token@.len(),
            forall|k: int| 0 <= k < p ==> token@[k] != '-',
            found ==> p < n && token@[p as int] == '-',
            !found ==> p == n,
        decreases n - p,
    {
        if token.get_char(p) == '-' {
            found = true;
            break ;
        }
        p = p + 1;
    }
    if !found {
        proof {
            lemma_first_index_none(token@, '-');
        }
        return Ok(None);
    }
    proof {
        lemma_first_index_at(token@, '-', p as int);
    }
    let start_str = token.substring_char(0, p);
    let end_str = token.substring_char(p + 1, n);
    proof {
        assert(start_str@ =~= token@.subrange(0, p as int));
        assert(end_str@ =~= token@.subrange(p + 1, n as int));
    }
    let start = match parse_single_index(start_str) {
        Ok(v) => v,
        Err(e) => {
            return Err(e);
        },
    };
    let end = match parse_single_index(end_str) {
        Ok(v) => v,
        Err(e) => {
            return Err(e);
        },
    };
    if start > end {
        Err(SelectionError::InvalidRange(String::from_str(token)))
    } else {
        Ok(Some((start, end)))
    }
}

/// Adds one index to the selection: 0 or above the bound is fatal, a repeat
/// is dropped, a fresh index is appended.
pub fn push_index(index: usize, max: usize, indices: &mut Vec<usize>) -> (r: Result<
    (),
    SelectionError,
>)
    ensures
        ({
            match r {
                Ok(()) => push_index_spec(index, max, old(indices)@) == Ok::<Seq<usize>, SelErrView>(
                    final (indices)@,
                ),
                Err(e) => push_index_spec(index, max, old(indices)@) == Err::<
                    Seq<usize>,
                    SelErrView,
                >(e@) && final (indices)@ == old(indices)@,
            }
        }),
{
    if index == 0 || index > max {
        return Err(SelectionError::OutOfRange(index));
    }
    let n = indices.len();
    let mut k: usize = 0;
    let mut seen = false;
    while k < n
        invariant_except_break
            0 <= k <= n,
            n == indices@.len(),
            !seen,
            forall|j: int| 0 <= j < k ==> indices@[j] != index,
        ensures
            0 <= k <= n,
            n == indices@.len(),
            forall|j: int| 0 <= j < k ==> indices@[j] != index,
            seen ==> k < n && indices@[k as int] == index,
            !seen ==> k == n,
        decreases n - k,
    {
        if indices[k] == index {
            seen = true;
            break ;
        }
        k = k + 1;
    }
    if !seen {
        indices.push(index);
        proof {
            assert(!old(indices)@.contains(index));
        }
    } else {
        proof {
            assert(old(indices)@.contains(index));
        }
    }
    Ok(())
}

/// Applies one token to the selection being built.
pub fn add_indices_from_token(token: &str, max: usize, indices: &mut Vec<usize>) -> (r: Result<
    (),
    SelectionError,
>)
    ensures
        ({
            match r {
                Ok(()) => token_step_spec(token@, max, old(indices)@) == Ok::<
                    Seq<usize>,
                    SelErrView,
                >(final (indices)@),
                Err(e) => token_step_spec(token@, max, old(indices)@) == Err::<
                    Seq<usize>,
                    SelErrView,
                >(e@),
            }
        }),
{
    let range = match parse_range(token) {
        Ok(r) => r,
        Err(e) => {
            return Err(e);
        },
    };
    match range {
        Some((start, end)) => {
            let mut i = start;
            loop
                invariant_except_break
                    start <= i <= end,
                    token_step_spec(token@, max, old(indices)@) == add_range_spec(
                        start,
                        end,
                        max,
                        old(indices)@,
                    ),
                    add_range_spec(start, end, max, old(indices)@) == add_range_spec(
                        i,
                        end,
                        max,
                        indices@,
                    ),
                ensures
                    add_range_spec(start, end, max, old(indices)@) == Ok::<
                        Seq<usize>,
                        SelErrView,
                    >(indices@),
                decreases end - i,
            {
                match push_index(i, max, indices) {
                    Ok(()) => {
                    },
                    Err(e) => {
                        return Err(e);
                    },
                }
                if i == end {
                    break ;
                }
                i = i + 1;
            }
            Ok(())
        },
        None => {
            let idx = match parse_single_index(token) {
                Ok(v) => v,
                Err(e) => {
                    return Err(e);
                },
            };
            push_index(idx, max, indices)
        },
    }
}

/// Parses a whole selection expression against the bound `max`: blank input
/// selects nothing, `all` selects everything, and otherwise each token must
/// contribute a valid index or range.
pub fn parse_selection_input(input: &str, max: usize) -> (r: Result<Vec<usize>, SelectionError>)
    ensures
        ({
            match r {
                Ok(v) => parse_selection_spec(input@, max) == Ok::<Seq<usize>, SelErrView>(v@),
                Err(e) => parse_selection_spec(input@, max) == Err::<Seq<usize>, SelErrView>(e@),
            }
        }),
{
    let trimmed = trim_str(input);
    if trimmed.unicode_len() == 0 {
        let v: Vec<usize> = Vec::new();
        proof {
            assert(v@ =~= Seq::<usize>::empty());
        }
        return Ok(v);
    }
    if str_is_all(trimmed) {
        let mut v: Vec<usize> = Vec::new();
        let mut c: usize = 0;
        proof {
            assert(v@ =~= seq_1_to(max).take(0));
        }
        while c < max
            invariant
                0 <= c <= max,
                v@ =~= seq_1_to(max).take(c as int),
            decreases max - c,
        {
            v.push(c + 1);
            proof {
                assert(v@ =~= seq_1_to(max).take(c + 1));
            }
            c = c + 1;
        }
        proof {
            assert(v@ =~= seq_1_to(max));
        }
        return Ok(v);
    }
    let tokens = tokenize_selection(trimmed);
    let ghost toks = tokens.deep_view();
    let tn = tokens.len();
    let mut indices: Vec<usize> = Vec::new();
    let mut k: usize = 0;
    proof {
        assert(toks.skip(0) =~= toks);
    }
    while k < tn
        invariant
            0 <= k <= tn,
            tn == tokens@.len(),
            toks == tokens.deep_view(),
            toks == tokens_of(trimmed@),
            trimmed@ == trim_spec(input@),
            trimmed@.len() > 0,
            !is_all_keyword(trimmed@),
            tokens_step_spec(toks, max, Seq::<usize>::empty()) == tokens_step_spec(
                toks.skip(k as int),
                max,
                indices@,
            ),
        decreases tn - k,
    {
        let token = &tokens[k];
        proof {
            assert(toks.skip(k as int)[0] == token@);
            assert(toks.skip(k as int).drop_first() =~= toks.skip(k + 1));
        }
        match add_indices_from_token(token.as_str(), max, &mut indices) {
            Ok(()) => {
            },
            Err(e) => {
                return Err(e);
            },
        }
        k = k + 1;
    }
    proof {
        assert(toks.skip(tn as int) =~= Seq::<Seq<char>>::empty());
    }
    if indices.len() == 0 {
        Err(SelectionError::NoValidSelection)
    } else {
        Ok(indices)
    }
}

/// The two states of the read-parse-retry prompt: still waiting for a
/// usable line, or done with the chosen indices.
#[derive(Debug)]
pub enum PromptState {
    AwaitingInput,
    Done(Vec<usize>),
}

/// One turn of the retry loop: a line that parses finishes the prompt; one
/// that does not keeps it waiting and hands back the error to show. The
/// console loop around it only reads lines and prints errors.
pub fn prompt_step(input: &str, max: usize) -> (r: (PromptState, Option<SelectionError>))
    ensures
        ({
            match parse_selection_spec(input@, max) {
                Ok(ids) => (r.0 matches PromptState::Done(v) && v@ == ids) && r.1 is None,
                Err(e) => r.0 is AwaitingInput && (r.1 matches Some(err) && err@ == e),
            }
        }),
{
    match parse_selection_input(input, max) {
        Ok(indices) => (PromptState::Done(indices), None),
        Err(err) => (PromptState::AwaitingInput, Some(err)),
    }
}

/// The commands the chosen 1-based indices pick out of a recommendation
/// list; an index outside the list picks nothing.
pub open spec fn select_spec(cmds: Seq<RecView>, indices: Seq<usize>) -> Seq<Seq<char>>
    decreases indices.len(),
{
    if indices.len() == 0 {
        seq![]
    } else {
        let rest = select_spec(cmds, indices.drop_first());
        let idx = indices[0];
        if 1 <= idx <= cmds.len() {
            seq![cmds[idx - 1].command] + rest
        } else {
            rest
        }
    }
}

proof fn lemma_select_cons(cmds: Seq<RecView>, indices: Seq<usize>, k: int)
    requires
        0 <= k < indices.len(),
    ensures
        select_spec(cmds, indices.skip(k)) == (if 1 <= indices[k] <= cmds.len() {
            seq![cmds[indices[k] - 1].command] + select_spec(cmds, indices.skip(k + 1))
        } else {
            select_spec(cmds, indices.skip(k + 1))
        }),
{
    assert(indices.skip(k)[0] == indices[k]);
    assert(indices.skip(k).drop_first() =~= indices.skip(k + 1));
}

/// Maps the chosen 1-based indices back to the commands they point at.
pub fn select_commands(recommendations: &Vec<Recommendation>, indices: &Vec<usize>) -> (r: Vec<
    String,
>)
    ensures
        r.deep_view() == select_spec(views_of(recommendations@), indices@),
{
    let ghost cmds = views_of(recommendations@);
    let mut r: Vec<String> = Vec::new();
    let n = indices.len();
    let mut k: usize = 0;
    proof {
        assert(indices@.skip(0) =~= indices@);
        assert(r.deep_view() =~= Seq::<Seq<char>>::empty());
        assert(Seq::<Seq<char>>::empty() + select_spec(cmds, indices@) =~= select_spec(
            cmds,
            indices@,
        ));
    }
    while k < n
        invariant
            0 <= k <= n,
            n == indices@.len(),
            cmds == views_of(recommendations@),
            select_spec(cmds, indices@) =~= r.deep_view() + select_spec(
                cmds,
                indices@.skip(k as int),
            ),
        decreases n - k,
    {
        proof {
            lemma_select_cons(cmds, indices@, k as int);
        }
        let idx = indices[k];
        if 1 <= idx && idx <= recommendations.len() {
            let entry = &recommendations[idx - 1];
            let ghost old_r = r@;
            r.push(entry.command.clone());
            proof {
                assert(r.deep_view() =~= Seq::new(
                    old_r.len(),
                    |j: int| old_r[j].deep_view(),
                ).push(cmds[idx - 1].command));
                assert(r.deep_view() + select_spec(cmds, indices@.skip(k + 1)) =~= Seq::new(
                    old_r.len(),
                    |j: int| old_r[j].deep_view(),
                ) + (seq![cmds[idx - 1].command] + select_spec(cmds, indices@.skip(k + 1))));
            }
        }
        k = k + 1;
    }
    proof {
        assert(indices@.skip(n as int) =~= Seq::<usize>::empty());
        assert(r.deep_view() + select_spec(cmds, Seq::<usize>::empty()) =~= r.deep_view());
    }
    r
}

/// There must be something to recommend before a selection is asked for.
pub fn ensure_recommendations(recommendations: &Vec<Recommendation>) -> (r: Result<(), String>)
    ensures
        recommendations@.len() > 0 ==> (r is Ok),
        recommendations@.len() == 0 ==> (r matches Err(e) && e@ == "no commands to recommend"@),
{
    if recommendations.len() == 0 {
        Err(String::from_str("no commands to recommend"))
    } else {
        Ok(())
    }
}

} // verus!
