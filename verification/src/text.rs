//! Decimal numbers and separator-split text, as used by the textual forms of
//! geometries and aspect ratios.
use vstd::prelude::*;
use vstd::string::*;

verus! {

/// An ASCII decimal digit.
pub open spec fn is_digit(c: char) -> bool {
    '0' <= c && c <= '9'
}

/// The value of an ASCII decimal digit.
pub open spec fn digit_value(c: char) -> nat {
    (c as int - '0' as int) as nat
}

pub open spec fn all_digits(s: Seq<char>) -> bool {
    forall|i: int| 0 <= i < s.len() ==> is_digit(#[trigger] s[i])
}

/// The value of a run of decimal digits, most significant first.
pub open spec fn digits_value(s: Seq<char>) -> nat
    decreases s.len(),
{
    if s.len() == 0 {
        0
    } else {
        digits_value(s.drop_last()) * 10 + digit_value(s.last())
    }
}

/// What `u32::from_str` accepts: an optional leading `+`, then at least one
/// ASCII digit, with a value that fits in a `u32`.
pub open spec fn parse_u32_spec(s: Seq<char>) -> Option<u32> {
    let digits = if s.len() > 0 && s[0] == '+' {
        s.skip(1)
    } else {
        s
    };
    if digits.len() > 0 && all_digits(digits) && digits_value(digits) <= u32::MAX {
        Some(digits_value(digits) as u32)
    } else {
        None
    }
}

/// The digit character for a value below ten.
pub open spec fn digit_char(d: nat) -> char {
    if d == 0 {
        '0'
    } else if d == 1 {
        '1'
    } else if d == 2 {
        '2'
    } else if d == 3 {
        '3'
    } else if d == 4 {
        '4'
    } else if d == 5 {
        '5'
    } else if d == 6 {
        '6'
    } else if d == 7 {
        '7'
    } else if d == 8 {
        '8'
    } else {
        '9'
    }
}

/// The decimal text of a natural number, without leading zeros.
pub open spec fn decimal(n: nat) -> Seq<char>
    decreases n,
{
    if n < 10 {
        seq![digit_char(n)]
    } else {
        decimal(n / 10).push(digit_char(n % 10))
    }
}

/// Splits `s` at every character for which `is_sep` holds, as `str::split`
/// does: `k` separators give `k + 1` pieces, empty ones included.
pub open spec fn split_by(s: Seq<char>, is_sep: spec_fn(char) -> bool) -> Seq<Seq<char>>
    decreases s.len(),
{
    if s.len() == 0 {
        seq![Seq::<char>::empty()]
    } else {
        let p = split_by(s.drop_last(), is_sep);
        if is_sep(s.last()) {
            p.push(Seq::<char>::empty())
        } else {
            p.update(p.len() - 1, p.last().push(s.last()))
        }
    }
}

/// The numbers of the pieces that `u32::from_str` accepts, in order; the
/// other pieces are skipped.
pub open spec fn parsed_values(pieces: Seq<Seq<char>>) -> Seq<u32>
    decreases pieces.len(),
{
    if pieces.len() == 0 {
        Seq::<u32>::empty()
    } else {
        let rest = parsed_values(pieces.drop_last());
        match parse_u32_spec(pieces.last()) {
            Some(v) => rest.push(v),
            None => rest,
        }
    }
}

pub open spec fn no_sep(s: Seq<char>, is_sep: spec_fn(char) -> bool) -> bool {
    forall|i: int| 0 <= i < s.len() ==> !is_sep(#[trigger] s[i])
}

pub proof fn lemma_split_by_len(s: Seq<char>, is_sep: spec_fn(char) -> bool)
    ensures
        split_by(s, is_sep).len() >= 1,
    decreases s.len(),
{
    if s.len() > 0 {
        lemma_split_by_len(s.drop_last(), is_sep);
    }
}

/// Appending characters that are not separators extends the last piece.
pub proof fn lemma_split_by_append(u: Seq<char>, t: Seq<char>, is_sep: spec_fn(char) -> bool)
    requires
        no_sep(t, is_sep),
    ensures
        split_by(u + t, is_sep) == split_by(u, is_sep).update(
            split_by(u, is_sep).len() - 1,
            split_by(u, is_sep).last() + t,
        ),
    decreases t.len(),
{
    lemma_split_by_len(u, is_sep);
    if t.len() == 0 {
        assert(u + t =~= u);
        assert(split_by(u, is_sep).last() + t =~= split_by(u, is_sep).last());
        assert(split_by(u, is_sep).update(split_by(u, is_sep).len() - 1, split_by(u, is_sep).last())
            =~= split_by(u, is_sep));
    } else {
        let t0 = t.drop_last();
        assert(no_sep(t0, is_sep)) by {
            assert forall|i: int| 0 <= i < t0.len() implies !is_sep(#[trigger] t0[i]) by {
                assert(t0[i] == t[i]);
            }
        }
        lemma_split_by_append(u, t0, is_sep);
        assert((u + t).drop_last() =~= u + t0);
        assert((u + t).last() == t.last());
        assert(!is_sep(t[t.len() - 1]));
        let p = split_by(u, is_sep);
        assert(p.last() + t0 + seq![t.last()] =~= p.last() + t);
        assert((p.last() + t0).push(t.last()) =~= p.last() + t);
        assert(split_by(u + t, is_sep) =~= p.update(p.len() - 1, p.last() + t));
    }
}

/// A separator followed by separator-free text starts a new last piece.
pub proof fn lemma_split_by_sep_then(
    u: Seq<char>,
    c: char,
    t: Seq<char>,
    is_sep: spec_fn(char) -> bool,
)
    requires
        is_sep(c),
        no_sep(t, is_sep),
    ensures
        split_by(u.push(c) + t, is_sep) == split_by(u, is_sep).push(t),
{
    lemma_split_by_append(u.push(c), t, is_sep);
    assert(u.push(c).drop_last() =~= u);
    let p = split_by(u, is_sep);
    assert(split_by(u.push(c), is_sep) == p.push(Seq::<char>::empty()));
    assert(Seq::<char>::empty() + t =~= t);
    assert(p.push(Seq::<char>::empty()).update(p.len() as int, t) =~= p.push(t));
}

/// Separator-free text is a single piece.
pub proof fn lemma_split_by_single(t: Seq<char>, is_sep: spec_fn(char) -> bool)
    requires
        no_sep(t, is_sep),
    ensures
        split_by(t, is_sep) == seq![t],
{
    lemma_split_by_append(Seq::<char>::empty(), t, is_sep);
    assert(Seq::<char>::empty() + t =~= t);
    assert(split_by(Seq::<char>::empty(), is_sep) == seq![Seq::<char>::empty()]);
    assert(seq![Seq::<char>::empty()].update(0, Seq::<char>::empty() + t) =~= seq![t]);
}

pub proof fn lemma_parsed_values_push(pieces: Seq<Seq<char>>, p: Seq<char>)
    ensures
        parsed_values(pieces.push(p)) == match parse_u32_spec(p) {
            Some(v) => parsed_values(pieces).push(v),
            None => parsed_values(pieces),
        },
{
    assert(pieces.push(p).drop_last() =~= pieces);
}

pub proof fn lemma_digit_char(d: nat)
    requires
        d < 10,
    ensures
        is_digit(digit_char(d)),
        digit_value(digit_char(d)) == d,
        digit_char(d) != '+',
        digit_char(d) != 'x',
        digit_char(d) != ',',
{
}

pub proof fn lemma_decimal(n: nat)
    ensures
        decimal(n).len() > 0,
        all_digits(decimal(n)),
        digits_value(decimal(n)) == n,
        decimal(n)[0] != '+',
    decreases n,
{
    if n < 10 {
        lemma_digit_char(n);
        let d = decimal(n);
        assert(d.drop_last() =~= Seq::<char>::empty());
        assert(digits_value(Seq::<char>::empty()) == 0);
        assert(digits_value(d) == digits_value(d.drop_last()) * 10 + digit_value(d.last()));
    } else {
        lemma_decimal(n / 10);
        lemma_digit_char(n % 10);
        let d = decimal(n);
        assert(d.drop_last() =~= decimal(n / 10));
        assert forall|i: int| 0 <= i < d.len() implies is_digit(#[trigger] d[i]) by {
            if i < d.len() - 1 {
                assert(d[i] == decimal(n / 10)[i]);
            }
        }
        assert(d[0] == decimal(n / 10)[0]);
        assert(d.last() == digit_char(n % 10));
        assert(digits_value(d) == digits_value(decimal(n / 10)) * 10 + digit_value(d.last()));
        assert((n / 10) * 10 + n % 10 == n);
    }
}

/// The decimal text of a `u32` is what `u32::from_str` reads back.
pub proof fn lemma_parse_decimal(n: u32)
    ensures
        parse_u32_spec(decimal(n as nat)) == Some(n),
{
    lemma_decimal(n as nat);
}

pub proof fn lemma_decimal_no_sep(n: nat, is_sep: spec_fn(char) -> bool)
    requires
        forall|c: char| is_digit(c) ==> !is_sep(c),
    ensures
        no_sep(decimal(n), is_sep),
{
    lemma_decimal(n);
}

proof fn lemma_digits_value_prefix(s: Seq<char>, k: int)
    requires
        0 <= k <= s.len(),
    ensures
        digits_value(s.take(k)) <= digits_value(s),
    decreases s.len(),
{
    if k < s.len() {
        lemma_digits_value_prefix(s.drop_last(), k);
        assert(s.drop_last().take(k) =~= s.take(k));
    } else {
        assert(s.take(k) =~= s);
    }
}

/// Parses one piece as `u32::from_str` does.
pub fn parse_u32(s: &Vec<char>) -> (r: Option<u32>)
    ensures
        r == parse_u32_spec(s@),
{
    let n = s.len();
    let mut i: usize = 0;
    if n > 0 && s[0] == '+' {
        i = 1;
    }
    let ghost start: int = i as int;
    let ghost digits = if s@.len() > 0 && s@[0] == '+' {
        s@.skip(1)
    } else {
        s@
    };
    assert(digits =~= s@.skip(start));
    if i >= n {
        return None;
    }
    let mut acc: u64 = 0;
    while i < n
        invariant
            0 <= start <= i <= n,
            n == s@.len(),
            start == (if s@.len() > 0 && s@[0] == '+' { 1int } else { 0int }),
            digits =~= s@.skip(start),
            all_digits(digits.take(i - start)),
            acc == digits_value(digits.take(i - start)),
            acc <= u32::MAX,
        decreases n - i,
    {
        let c = s[i];
        if !('0' <= c && c <= '9') {
            assert(digits[i - start] == c);
            assert(!is_digit(digits[i - start]));
            assert(!all_digits(digits));
            assert(parse_u32_spec(s@).is_none());
            return None;
        }
        let d = (c as u32 - '0' as u32) as u64;
        let ghost pre = digits.take(i - start);
        let ghost next = digits.take(i - start + 1);
        assert(next.drop_last() =~= pre);
        assert(next.last() == c);
        acc = acc * 10 + d;
        i = i + 1;
        assert(all_digits(next)) by {
            assert forall|j: int| 0 <= j < next.len() implies is_digit(#[trigger] next[j]) by {
                if j < next.len() - 1 {
                    assert(next[j] == pre[j]);
                }
            }
        }
        assert(acc == digits_value(next));
        assert(next == digits.take(i - start));
        if acc > 0xFFFF_FFFF {
            proof {
                lemma_digits_value_prefix(digits, i - start);
            }
            assert(digits_value(digits) > u32::MAX);
            assert(s@.skip(0) =~= s@);
            assert(parse_u32_spec(s@).is_none());
            return None;
        }
    }
    assert(digits.take(i - start) =~= digits);
    Some(acc as u32)
}

fn push_digit(out: &mut String, d: u32)
    requires
        d < 10,
    ensures
        final(out)@ == old(out)@.push(digit_char(d as nat)),
{
    let lit = if d == 0 {
        proof { reveal_strlit("0"); }
        "0"
    } else if d == 1 {
        proof { reveal_strlit("1"); }
        "1"
    } else if d == 2 {
        proof { reveal_strlit("2"); }
        "2"
    } else if d == 3 {
        proof { reveal_strlit("3"); }
        "3"
    } else if d == 4 {
        proof { reveal_strlit("4"); }
        "4"
    } else if d == 5 {
        proof { reveal_strlit("5"); }
        "5"
    } else if d == 6 {
        proof { reveal_strlit("6"); }
        "6"
    } else if d == 7 {
        proof { reveal_strlit("7"); }
        "7"
    } else if d == 8 {
        proof { reveal_strlit("8"); }
        "8"
    } else {
        proof { reveal_strlit("9"); }
        "9"
    };
    assert(lit@ =~= seq![digit_char(d as nat)]);
    out.append(lit);
    assert(final(out)@ =~= old(out)@.push(digit_char(d as nat)));
}

/// Appends the decimal text of `n`.
pub fn write_decimal(out: &mut String, n: u64)
    ensures
        final(out)@ == old(out)@ + decimal(n as nat),
    decreases n,
{
    if n >= 10 {
        write_decimal(out, n / 10);
    }
    push_digit(out, (n % 10) as u32);
    proof {
        if n >= 10 {
            assert(decimal(n as nat) == decimal((n / 10) as nat).push(digit_char((n % 10) as nat)));
        } else {
            assert(decimal(n as nat) == seq![digit_char(n as nat)]);
        }
        assert(final(out)@ =~= old(out)@ + decimal(n as nat));
    }
}

/// Appends one literal character.
pub fn push_literal(out: &mut String, lit: &str)
    ensures
        final(out)@ == old(out)@ + lit@,
{
    out.append(lit);
}

/// Reads the characters of `s` into a vector.
pub fn chars_of(s: &str) -> (r: Vec<char>)
    ensures
        r@ == s@,
{
    let n = s.unicode_len();
    let mut r: Vec<char> = Vec::new();
    for i in 0..n
        invariant
            n == s@.len(),
            r@ =~= s@.take(i as int),
    {
        r.push(s.get_char(i));
        assert(r@ =~= s@.take(i + 1));
    }
    assert(s@.take(n as int) =~= s@);
    r
}

/// Splits `s` at the characters of `seps` and parses every piece as a `u32`,
/// keeping the numbers of the pieces that parse.
pub(crate) fn split_parse_u32(s: &Vec<char>, seps: &Vec<char>, Ghost(is_sep): Ghost<spec_fn(char) -> bool>) -> (r: Vec<u32>)
    requires
        forall|c: char| is_sep(c) <==> seps@.contains(c),
    ensures
        r@ == parsed_values(split_by(s@, is_sep)),
{
    let n = s.len();
    let mut vals: Vec<u32> = Vec::new();
    let mut piece: Vec<char> = Vec::new();
    let ghost mut done: Seq<Seq<char>> = Seq::empty();
    for i in 0..n
        invariant
            n == s@.len(),
            forall|c: char| is_sep(c) <==> seps@.contains(c),
            split_by(s@.take(i as int), is_sep) == done.push(piece@),
            vals@ == parsed_values(done),
    {
        let c = s[i];
        let ghost pre = s@.take(i as int);
        assert(s@.take(i + 1).drop_last() =~= pre);
        assert(s@.take(i + 1).last() == c);
        let mut is_separator = false;
        for j in 0..seps.len()
            invariant
                is_separator <==> (exists|k: int| 0 <= k < j && seps@[k] == c),
        {
            if seps[j] == c {
                is_separator = true;
            }
        }
        assert(is_separator <==> seps@.contains(c));
        if is_separator {
            match parse_u32(&piece) {
                Some(v) => vals.push(v),
                None => {},
            }
            proof {
                lemma_parsed_values_push(done, piece@);
                done = done.push(piece@);
            }
            piece = Vec::new();
            assert(split_by(s@.take(i + 1), is_sep) =~= done.push(piece@));
        } else {
            let ghost old_piece = piece@;
            piece.push(c);
            assert(split_by(s@.take(i + 1), is_sep) =~= done.push(piece@));
        }
    }
    assert(s@.take(n as int) =~= s@);
    match parse_u32(&piece) {
        Some(v) => vals.push(v),
        None => {},
    }
    proof {
        lemma_parsed_values_push(done, piece@);
    }
    vals
}

} // verus!
